use vstd::prelude::*;
use crate::error::CryptrError;

verus! {

/// The standard, padded base64 text of some bytes.
pub uninterp spec fn b64_std_encoded(b: Seq<u8>) -> Seq<char>;

/// The bytes that a standard, padded base64 text stands for, or `None`
/// where the text is not valid base64.
pub uninterp spec fn b64_std_decoded(s: Seq<char>) -> Option<Seq<u8>>;

#[verifier::external_type_specification]
#[verifier::external_body]
pub struct ExDecodeError(base64::DecodeError);

/// Relies on base64's `Engine::encode` with the `STANDARD` engine: the text
/// depends on the bytes alone, and empty input gives the empty text.
#[verifier::external_body]
fn std_encode(input: &[u8]) -> (r: String)
    ensures
        r@ == b64_std_encoded(input@),
        input@.len() == 0 ==> r@.len() == 0,
{
    base64::Engine::encode(&base64::engine::general_purpose::STANDARD, input)
}

/// Relies on base64's `Engine::decode` with the `STANDARD` engine: the bytes
/// depend on the text alone, and an invalid text is an error.
#[verifier::external_body]
fn std_decode(b64: &str) -> (r: Result<Vec<u8>, base64::DecodeError>)
    ensures
        match r {
            Ok(v) => b64_std_decoded(b64@) == Some(v@),
            Err(_) => b64_std_decoded(b64@) is None,
        },
{
    base64::Engine::decode(&base64::engine::general_purpose::STANDARD, b64)
}

/// Relies on rand's `rng()` and `RngCore::fill_bytes` of the thread-local
/// generator: it overwrites the bytes in place and keeps the length.
#[verifier::external_body]
fn fill_random(buf: &mut [u8])
    ensures
        final(buf)@.len() == old(buf)@.len(),
{
    rand::RngCore::fill_bytes(&mut rand::rng(), buf)
}

/// Base64 encode the given input
pub fn b64_encode(input: &[u8]) -> (r: String)
    ensures
        r@ == b64_std_encoded(input@),
{
    std_encode(input)
}

/// Base64 decode the given String
pub fn b64_decode(b64: &str) -> (r: Result<Vec<u8>, CryptrError>)
    ensures
        match r {
            Ok(v) => b64_std_decoded(b64@) == Some(v@),
            Err(e) => e == CryptrError::Base64Decode && b64_std_decoded(b64@) is None,
        },
{
    match std_decode(b64) {
        Ok(v) => Ok(v),
        Err(_) => Err(CryptrError::Base64Decode),
    }
}

/// Fills the given buffer with random bytes
pub fn secure_random(buf: &mut [u8]) -> (r: Result<(), CryptrError>)
    ensures
        r is Ok,
        final(buf)@.len() == old(buf)@.len(),
{
    fill_random(buf);
    Ok(())
}

/// Returns a random `Vec<u8>` with the specified size
pub fn secure_random_vec(size: usize) -> (r: Result<Vec<u8>, CryptrError>)
    ensures
        r matches Ok(v) && v@.len() == size,
{
    let mut buf: Vec<u8> = Vec::with_capacity(size);
    let mut i: usize = 0;
    while i < size
        invariant
            i <= size,
            buf@.len() == i,
        decreases size - i,
    {
        buf.push(0);
        i = i + 1;
    }
    secure_random(buf.as_mut_slice())?;
    Ok(buf)
}

/// Returns a random String with the specified size
///
/// Relies on rand's `rng()` sampled through `distr::Alphabetic`, which
/// yields ASCII letters only, one per requested character.
#[verifier::external_body]
pub fn secure_random_alnum(count: usize) -> (r: String)
    ensures
        r@.len() == count,
        forall|i: int|
            0 <= i < count ==> ('a' <= #[trigger] r@[i] <= 'z' || 'A' <= r@[i] <= 'Z'),
{
    rand::Rng::sample_iter(rand::rng(), rand::distr::Alphabetic).take(count).map(char::from).collect::<String>()
}

} // verus!
