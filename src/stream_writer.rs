use vstd::prelude::*;
use crate::channel_writer::ChannelWriter;
use crate::memory_writer::MemoryWriter;
use crate::s3_writer::S3Writer;

verus! {

/// The writer backends, chosen at run time; each one consumes a transport
/// channel until its stream ends.
#[derive(Debug)]
pub enum StreamWriter<'a> {
    Channel(ChannelWriter),
    Memory(MemoryWriter<'a>),
    S3(S3Writer<'a>),
}

} // verus!
