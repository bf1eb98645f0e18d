use vstd::prelude::*;
use crate::channel::CHANNELS;
use crate::error::CryptrError;

verus! {

/// The end of a channel writer's output that the caller consumes.
pub type ChannelReceiver = futures::channel::mpsc::Receiver<Result<Vec<u8>, CryptrError>>;

/// Streaming writer that passes each payload on through a bounded channel,
/// so that the caller can consume the stream as it comes.
#[derive(Debug)]
pub struct ChannelWriter(pub futures::channel::mpsc::Sender<Result<Vec<u8>, CryptrError>>);

impl ChannelWriter {
    /// A writer and the receiver that its output arrives on.
    pub fn new() -> (r: (Self, ChannelReceiver)) {
        let (tx, rx) = futures::channel::mpsc::channel(CHANNELS);
        (ChannelWriter(tx), rx)
    }

    /// The error that a writer that must give up sends as its last item:
    /// the one given, or a generic one.
    pub fn terminal_error(err: Option<CryptrError>) -> (r: CryptrError)
        ensures
            match err {
                Some(e) => r == e,
                None => r matches CryptrError::Generic(s) && s@ == "ChannelWriter error"@,
            },
    {
        match err {
            Some(e) => e,
            None => CryptrError::Generic("ChannelWriter error".to_string()),
        }
    }
}

} // verus!
