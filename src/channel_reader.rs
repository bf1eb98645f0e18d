use vstd::prelude::*;
use crate::chunk::{LastStreamElement, StreamChunk};
use crate::channel::CHANNELS;
use crate::error::CryptrError;

verus! {

/// The end of a channel reader's source that the caller sends buffers into.
pub type ChannelSender = futures::channel::mpsc::Sender<Result<Vec<u8>, CryptrError>>;

/// Streaming reader over buffers that the caller sends through a bounded
/// channel; for encryption only.
///
/// It infers the end of the stream from buffer sizes: every buffer but the
/// last must have the size of the first one. The stream ends when the
/// sender is dropped, when an empty buffer arrives, or right after a buffer
/// shorter than the ones before it.
#[derive(Debug)]
pub struct ChannelReader(pub futures::channel::mpsc::Receiver<Result<Vec<u8>, CryptrError>>);

impl ChannelReader {
    /// A reader and the sender that feeds it.
    pub fn new() -> (r: (Self, ChannelSender)) {
        let (tx, rx) = futures::channel::mpsc::channel(CHANNELS);
        (ChannelReader(rx), tx)
    }
}

/// What one read from the caller's buffer source yields.
#[derive(Debug)]
pub enum SourceEvent {
    Buffer(Vec<u8>),
    Failed(CryptrError),
    Closed,
}

/// Where the boundary inference stands between two reads.
#[derive(Debug)]
pub enum Framer {
    /// Nothing has been read yet.
    Empty,
    /// This buffer has been read and not yet emitted.
    Holding(Vec<u8>),
}

/// Everything that framing a whole buffer sequence produces.
#[derive(Debug)]
pub struct Framing {
    /// The items emitted onto the transport channel, in order.
    pub items: Vec<(LastStreamElement, StreamChunk)>,
    /// How the reader ends.
    pub outcome: Result<(), CryptrError>,
    /// How many values were taken from the source.
    pub reads: usize,
}

/// Below this many bytes a first buffer draws a warning: the chunk size it
/// sets is too small to stream well.
pub const SMALL_FIRST_CHUNK: usize = 8192;

/// Emitted items with each chunk seen as its bytes.
pub open spec fn items_view(items: Seq<(LastStreamElement, StreamChunk)>) -> Seq<(LastStreamElement, Seq<u8>)> {
    items.map_values(|p: (LastStreamElement, StreamChunk)| (p.0, p.1.0@))
}

/// The items emitted once `held` has been read and `evs` follow it.
pub open spec fn frame_from(held: Seq<u8>, evs: Seq<SourceEvent>) -> Seq<(LastStreamElement, Seq<u8>)>
    decreases evs.len(),
{
    if evs.len() == 0 {
        seq![(LastStreamElement::Yes, held)]
    } else {
        match evs[0] {
            SourceEvent::Closed => seq![(LastStreamElement::Yes, held)],
            SourceEvent::Failed(_) => Seq::empty(),
            SourceEvent::Buffer(b) => if b@.len() == 0 {
                seq![(LastStreamElement::Yes, held)]
            } else if b@.len() < held.len() {
                seq![(LastStreamElement::No, held), (LastStreamElement::Yes, b@)]
            } else {
                seq![(LastStreamElement::No, held)] + frame_from(b@, evs.drop_first())
            },
        }
    }
}

/// How the reader ends once `held` has been read and `evs` follow it.
pub open spec fn frame_outcome_from(held: Seq<u8>, evs: Seq<SourceEvent>) -> Result<(), CryptrError>
    decreases evs.len(),
{
    if evs.len() == 0 {
        Ok(())
    } else {
        match evs[0] {
            SourceEvent::Failed(e) => Err(e),
            SourceEvent::Buffer(b) => if b@.len() != 0 && b@.len() >= held.len() {
                frame_outcome_from(b@, evs.drop_first())
            } else {
                Ok(())
            },
            SourceEvent::Closed => Ok(()),
        }
    }
}

/// How many values the reader takes from `evs` once `held` has been read.
pub open spec fn frame_reads_from(held: Seq<u8>, evs: Seq<SourceEvent>) -> nat
    decreases evs.len(),
{
    if evs.len() == 0 {
        0
    } else {
        match evs[0] {
            SourceEvent::Buffer(b) => if b@.len() != 0 && b@.len() >= held.len() {
                1 + frame_reads_from(b@, evs.drop_first())
            } else {
                1
            },
            _ => 1,
        }
    }
}

/// The items that the reader emits for the source values `evs`; running
/// out of values counts as closure.
pub open spec fn framed(evs: Seq<SourceEvent>) -> Seq<(LastStreamElement, Seq<u8>)> {
    if evs.len() == 0 {
        Seq::empty()
    } else {
        match evs[0] {
            SourceEvent::Buffer(b) => frame_from(b@, evs.drop_first()),
            _ => Seq::empty(),
        }
    }
}

/// How the reader ends for the source values `evs`.
pub open spec fn framed_outcome(evs: Seq<SourceEvent>) -> Result<(), CryptrError> {
    if evs.len() == 0 {
        Err(CryptrError::InputExhausted)
    } else {
        match evs[0] {
            SourceEvent::Buffer(b) => frame_outcome_from(b@, evs.drop_first()),
            SourceEvent::Failed(e) => Err(e),
            SourceEvent::Closed => Err(CryptrError::InputExhausted),
        }
    }
}

/// How many values the reader takes from the source values `evs`.
pub open spec fn framed_reads(evs: Seq<SourceEvent>) -> nat {
    if evs.len() == 0 {
        0
    } else {
        match evs[0] {
            SourceEvent::Buffer(b) => 1 + frame_reads_from(b@, evs.drop_first()),
            _ => 1,
        }
    }
}

/// Whether a first buffer of `len` bytes deserves the small-chunk warning.
pub fn is_small_first_chunk(len: usize) -> (r: bool)
    ensures
        r == (len < SMALL_FIRST_CHUNK),
{
    len < SMALL_FIRST_CHUNK
}

/// One read of boundary inference: from the state before the read and what
/// the read yielded, the items to emit, in order, and then either the next
/// state (`Ok(Some)`), the clean end of the stream (`Ok(None)`) or the error
/// the reader fails with.
pub fn advance(state: Framer, ev: SourceEvent) -> (r: (
    Vec<(LastStreamElement, StreamChunk)>,
    Result<Option<Framer>, CryptrError>,
))
    ensures
        match state {
            Framer::Empty => match ev {
                SourceEvent::Buffer(b) => r.0@.len() == 0 && (r.1 matches Ok(Some(Framer::Holding(h)))
                    && h@ == b@),
                SourceEvent::Failed(e) => r.0@.len() == 0 && r.1 == Err::<Option<Framer>, CryptrError>(e),
                SourceEvent::Closed => r.0@.len() == 0 && r.1 == Err::<Option<Framer>, CryptrError>(
                    CryptrError::InputExhausted,
                ),
            },
            Framer::Holding(held) => match ev {
                SourceEvent::Buffer(b) => if b@.len() == 0 {
                    items_view(r.0@) == seq![(LastStreamElement::Yes, held@)] && r.1 matches Ok(None)
                } else if b@.len() < held@.len() {
                    items_view(r.0@) == seq![(LastStreamElement::No, held@), (LastStreamElement::Yes, b@)]
                        && r.1 matches Ok(None)
                } else {
                    items_view(r.0@) == seq![(LastStreamElement::No, held@)] && (r.1 matches Ok(
                        Some(Framer::Holding(h)),
                    ) && h@ == b@)
                },
                SourceEvent::Failed(e) => r.0@.len() == 0 && r.1 == Err::<Option<Framer>, CryptrError>(e),
                SourceEvent::Closed => items_view(r.0@) == seq![(LastStreamElement::Yes, held@)]
                    && r.1 matches Ok(None),
            },
        },
{
    let mut out: Vec<(LastStreamElement, StreamChunk)> = Vec::new();
    match state {
        Framer::Empty => match ev {
            SourceEvent::Buffer(b) => (out, Ok(Some(Framer::Holding(b)))),
            SourceEvent::Failed(e) => (out, Err(e)),
            SourceEvent::Closed => (out, Err(CryptrError::InputExhausted)),
        },
        Framer::Holding(held) => match ev {
            SourceEvent::Buffer(b) => {
                if b.len() == 0 {
                    out.push((LastStreamElement::Yes, StreamChunk::new(held)));
                    assert(items_view(out@) =~= seq![(LastStreamElement::Yes, held@)]);
                    (out, Ok(None))
                } else if b.len() < held.len() {
                    let ghost hv = held@;
                    let ghost bv = b@;
                    out.push((LastStreamElement::No, StreamChunk::new(held)));
                    out.push((LastStreamElement::Yes, StreamChunk::new(b)));
                    assert(items_view(out@) =~= seq![(LastStreamElement::No, hv), (LastStreamElement::Yes, bv)]);
                    (out, Ok(None))
                } else {
                    out.push((LastStreamElement::No, StreamChunk::new(held)));
                    assert(items_view(out@) =~= seq![(LastStreamElement::No, held@)]);
                    (out, Ok(Some(Framer::Holding(b))))
                }
            },
            SourceEvent::Failed(e) => (out, Err(e)),
            SourceEvent::Closed => {
                out.push((LastStreamElement::Yes, StreamChunk::new(held)));
                assert(items_view(out@) =~= seq![(LastStreamElement::Yes, held@)]);
                (out, Ok(None))
            },
        },
    }
}

/// Viewing a concatenation of items is concatenating their views.
pub proof fn lemma_items_view_append(
    a: Seq<(LastStreamElement, StreamChunk)>,
    b: Seq<(LastStreamElement, StreamChunk)>,
)
    ensures
        items_view(a + b) == items_view(a) + items_view(b),
{
    assert(items_view(a + b) =~= items_view(a) + items_view(b));
}

/// Runs boundary inference over a whole sequence of source values, exactly
/// as a live reader does read by read; running out of values counts as
/// closure.
pub fn frame_buffers(events: Vec<SourceEvent>) -> (r: Framing)
    ensures
        items_view(r.items@) == framed(events@),
        r.outcome == framed_outcome(events@),
        r.reads == framed_reads(events@),
{
    let total: usize = events.len();
    let mut rest = events;
    let mut state = Framer::Empty;
    let mut items: Vec<(LastStreamElement, StreamChunk)> = Vec::new();
    let mut reads: usize = 0;
    loop
        invariant
            reads + rest@.len() == events@.len(),
            events@.len() == total,
            match state {
                Framer::Empty => rest@ == events@ && items@.len() == 0,
                Framer::Holding(h) => {
                    &&& framed(events@) == items_view(items@) + frame_from(h@, rest@)
                    &&& framed_outcome(events@) == frame_outcome_from(h@, rest@)
                    &&& framed_reads(events@) == reads + frame_reads_from(h@, rest@)
                },
            },
        decreases rest.len(),
    {
        let ghost st = state;
        let ghost before = items@;
        if rest.len() == 0 {
            let (mut out, res) = advance(state, SourceEvent::Closed);
            let ghost outv = out@;
            items.append(&mut out);
            proof {
                lemma_items_view_append(before, outv);
                assert(items_view(before) =~= Seq::<(LastStreamElement, Seq<u8>)>::empty()
                    ==> items_view(before) + items_view(outv) =~= items_view(outv));
            }
            let outcome = match res {
                Ok(_) => Ok(()),
                Err(e) => Err(e),
            };
            return Framing { items, outcome, reads };
        }
        let ghost prev = rest@;
        let ev = rest.remove(0);
        let ghost evg = ev;
        assert(rest@ =~= prev.drop_first());
        reads = reads + 1;
        let (mut out, res) = advance(state, ev);
        let ghost outv = out@;
        items.append(&mut out);
        proof {
            lemma_items_view_append(before, outv);
            match st {
                Framer::Empty => {
                    assert(items_view(before) + items_view(outv) =~= items_view(outv));
                },
                Framer::Holding(h) => {
                    match evg {
                        SourceEvent::Buffer(b) => {
                            if b@.len() != 0 && b@.len() >= h@.len() {
                                assert(items_view(before) + (seq![(LastStreamElement::No, h@)]
                                    + frame_from(b@, rest@)) =~= items_view(items@) + frame_from(b@, rest@));
                            } else {
                                assert(items_view(before) + frame_from(h@, prev) =~= items_view(items@));
                            }
                        },
                        SourceEvent::Failed(_) => {
                            assert(items_view(before) + frame_from(h@, prev) =~= items_view(items@));
                        },
                        SourceEvent::Closed => {
                            assert(items_view(before) + frame_from(h@, prev) =~= items_view(items@));
                        },
                    }
                },
            }
        }
        match res {
            Ok(Some(next)) => {
                state = next;
            },
            Ok(None) => {
                return Framing { items, outcome: Ok(()), reads };
            },
            Err(e) => {
                return Framing { items, outcome: Err(e), reads };
            },
        }
    }
}

} // verus!
