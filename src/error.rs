use vstd::prelude::*;

verus! {

/// Every failure that a stream session can end with.
#[derive(Debug, Clone, PartialEq, Eq)]
pub enum CryptrError {
    /// The buffer source closed before it produced a single buffer.
    InputExhausted,
    /// The consumer of an output channel stopped accepting items.
    SinkClosed,
    /// A base64 text could not be decoded.
    Base64Decode,
    /// Any other failure, described in words.
    Generic(String),
}

} // verus!
