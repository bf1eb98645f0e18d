use vstd::prelude::*;

verus! {

/// Whether a chunk is the last one of its stream.
#[derive(Debug, Clone, Copy, PartialEq, Eq, Structural)]
pub enum LastStreamElement {
    Yes,
    No,
}

/// One payload unit of a stream: its bytes, nothing else.
#[derive(Debug, Clone, PartialEq, Eq)]
pub struct StreamChunk(pub Vec<u8>);

impl StreamChunk {
    pub fn new(data: Vec<u8>) -> (r: StreamChunk)
        ensures
            r.0@ == data@,
    {
        StreamChunk(data)
    }
}

} // verus!
