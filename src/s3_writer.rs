use vstd::prelude::*;

verus! {

#[verifier::external_type_specification]
#[verifier::external_body]
pub struct ExBucket(s3_simple::Bucket);

/// Streaming writer into one object of an object storage bucket. Each
/// payload is passed on to the bucket's streaming upload as it arrives (see
/// `relay`); the whole object is never held in memory.
#[derive(Debug)]
pub struct S3Writer<'a> {
    pub bucket: &'a s3_simple::Bucket,
    pub object: &'a str,
}

} // verus!
