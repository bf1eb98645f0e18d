use vstd::prelude::*;
use crate::chunk::LastStreamElement;
use crate::error::CryptrError;
use crate::transport::{concat, consume, lemma_concat_cons, outcome, payloads, Delivery, Received};

verus! {

/// Streaming writer that gathers a whole stream into a buffer that the
/// caller owns. The buffer is cleared first: a write overwrites it.
#[derive(Debug)]
pub struct MemoryWriter<'a>(pub &'a mut Vec<u8>);

/// What a memory writer's target holds after it has gathered `evs`, given
/// that it held `target` before: the stream's payloads alone.
pub open spec fn memory_after(target: Seq<u8>, evs: Seq<Received>) -> Seq<u8> {
    concat(payloads(evs))
}

impl<'a> MemoryWriter<'a> {
    /// Empties the target buffer before a stream is gathered into it.
    pub fn begin(&mut self)
        ensures
            final(self).0@ == Seq::<u8>::empty(),
    {
        self.0.clear();
    }

    /// Takes one received value: appends its payload, and returns the
    /// result of the stream once the value ends it.
    pub fn accept(&mut self, r: Received) -> (done: Option<Result<(), CryptrError>>)
        ensures
            match r {
                Received::Item(m, c) => {
                    &&& final(self).0@ == old(self).0@ + c.0@
                    &&& done == if m == LastStreamElement::Yes {
                        Some(Ok::<(), CryptrError>(()))
                    } else {
                        None
                    }
                },
                Received::Failed(e) => final(self).0@ == old(self).0@ && done == Some(
                    Err::<(), CryptrError>(e),
                ),
                Received::Closed => final(self).0@ == old(self).0@ && done == Some(
                    Ok::<(), CryptrError>(()),
                ),
            },
    {
        match consume(r) {
            Delivery::Payload(data, more) => {
                let mut data = data;
                self.0.append(&mut data);
                if more {
                    None
                } else {
                    Some(Ok(()))
                }
            },
            Delivery::End => Some(Ok(())),
            Delivery::Failure(e) => Some(Err(e)),
        }
    }

    /// Gathers the stream `events` into the target, from the first value to
    /// the one that ends it; running out of values counts as closure.
    pub fn write_all(&mut self, events: Vec<Received>) -> (r: Result<(), CryptrError>)
        ensures
            final(self).0@ == memory_after(old(self).0@, events@),
            r == outcome(events@),
    {
        self.begin();
        let mut rest = events;
        loop
            invariant
                concat(payloads(events@)) == self.0@ + concat(payloads(rest@)),
                outcome(events@) == outcome(rest@),
            decreases rest.len(),
        {
            if rest.len() == 0 {
                assert(self.0@ + Seq::<u8>::empty() =~= self.0@);
                return Ok(());
            }
            let ghost prev = rest@;
            let ghost before = self.0@;
            let ev = rest.remove(0);
            assert(rest@ =~= prev.drop_first());
            match ev {
                Received::Item(m, c) => {
                    proof {
                        lemma_concat_cons(c.0@, payloads(rest@));
                        if m == LastStreamElement::Yes {
                            lemma_concat_cons(c.0@, Seq::empty());
                            assert(seq![c.0@] + Seq::<Seq<u8>>::empty() =~= seq![c.0@]);
                            assert(c.0@ + Seq::<u8>::empty() =~= c.0@);
                        }
                    }
                    let done = self.accept(Received::Item(m, c));
                    assert(before + (c.0@ + concat(payloads(rest@))) =~= self.0@ + concat(payloads(rest@)));
                    assert(before + (c.0@ + Seq::<u8>::empty()) =~= self.0@);
                    if let Some(res) = done {
                        return res;
                    }
                },
                _ => {
                    assert(self.0@ + Seq::<u8>::empty() =~= self.0@);
                    if let Some(res) = self.accept(ev) {
                        return res;
                    }
                },
            }
        }
    }
}

/// Gathering one stream and then another into the same target leaves
/// exactly the bytes of the second stream, whatever the target held before
/// and whatever the first stream was: a write overwrites, it never appends.
pub proof fn law_write_overwrites(target: Seq<u8>, first: Seq<Received>, second: Seq<Received>)
    ensures
        memory_after(memory_after(target, first), second) == concat(payloads(second)),
        memory_after(memory_after(target, first), second) == memory_after(Seq::empty(), second),
{
}

} // verus!
