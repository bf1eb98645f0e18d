use vstd::prelude::*;
use crate::chunk::{LastStreamElement, StreamChunk};
use crate::error::CryptrError;

verus! {

/// What one receive on a transport channel yields: an item, an error that
/// the producer sent, or the news that the producer has closed its end.
#[derive(Debug)]
pub enum Received {
    Item(LastStreamElement, StreamChunk),
    Failed(CryptrError),
    Closed,
}

/// What a writer does with one received value, once closure has been
/// folded into the end of the stream.
#[derive(Debug)]
pub enum Delivery {
    /// Persist the bytes; the flag says whether the stream goes on.
    Payload(Vec<u8>, bool),
    /// The stream has ended with no further payload.
    End,
    /// The stream has failed with this error.
    Failure(CryptrError),
}

/// The payloads that a consumer takes from `evs`, in order, up to the first
/// terminal value (a `Yes` item, an error, or closure); running out of
/// values counts as closure.
pub open spec fn payloads(evs: Seq<Received>) -> Seq<Seq<u8>>
    decreases evs.len(),
{
    if evs.len() == 0 {
        Seq::empty()
    } else {
        match evs[0] {
            Received::Item(LastStreamElement::Yes, c) => seq![c.0@],
            Received::Item(LastStreamElement::No, c) => seq![c.0@] + payloads(evs.drop_first()),
            Received::Failed(_) => Seq::empty(),
            Received::Closed => Seq::empty(),
        }
    }
}

/// How the stream in `evs` ends for a consumer: `Ok` after a `Yes` item or
/// closure, or the first error received before either.
pub open spec fn outcome(evs: Seq<Received>) -> Result<(), CryptrError>
    decreases evs.len(),
{
    if evs.len() == 0 {
        Ok(())
    } else {
        match evs[0] {
            Received::Item(LastStreamElement::Yes, _) => Ok(()),
            Received::Item(LastStreamElement::No, _) => outcome(evs.drop_first()),
            Received::Failed(e) => Err(e),
            Received::Closed => Ok(()),
        }
    }
}

/// All bytes of a sequence of payloads, concatenated in order.
pub open spec fn concat(ps: Seq<Seq<u8>>) -> Seq<u8>
    decreases ps.len(),
{
    if ps.len() == 0 {
        Seq::empty()
    } else {
        ps[0] + concat(ps.drop_first())
    }
}

/// Prepending one payload prepends its bytes.
pub proof fn lemma_concat_cons(p: Seq<u8>, ps: Seq<Seq<u8>>)
    ensures
        concat(seq![p] + ps) == p + concat(ps),
{
    assert((seq![p] + ps).drop_first() =~= ps);
}

/// The single point at which a received value is interpreted: closure is
/// treated exactly like the end of the stream, an error ends it.
pub fn consume(r: Received) -> (d: Delivery)
    ensures
        match r {
            Received::Item(m, c) => d == Delivery::Payload(c.0, m == LastStreamElement::No),
            Received::Failed(e) => d == Delivery::Failure(e),
            Received::Closed => d == Delivery::End,
        },
{
    match r {
        Received::Item(m, c) => Delivery::Payload(c.0, m == LastStreamElement::No),
        Received::Failed(e) => Delivery::Failure(e),
        Received::Closed => Delivery::End,
    }
}

/// What a relaying writer passes on for the stream `evs`: each payload up
/// to the end of the stream, then the error that failed it, if one did.
pub open spec fn relayed(evs: Seq<Received>) -> Seq<Result<Seq<u8>, CryptrError>>
    decreases evs.len(),
{
    if evs.len() == 0 {
        Seq::empty()
    } else {
        match evs[0] {
            Received::Item(LastStreamElement::Yes, c) => seq![Ok(c.0@)],
            Received::Item(LastStreamElement::No, c) => seq![Ok(c.0@)] + relayed(evs.drop_first()),
            Received::Failed(e) => seq![Err(e)],
            Received::Closed => Seq::empty(),
        }
    }
}

/// Relayed values with each payload seen as its bytes.
pub open spec fn relay_view(v: Seq<Result<Vec<u8>, CryptrError>>) -> Seq<Result<Seq<u8>, CryptrError>> {
    v.map_values(
        |r: Result<Vec<u8>, CryptrError>|
            match r {
                Ok(b) => Ok(b@),
                Err(e) => Err(e),
            },
    )
}

/// One step of a relaying writer: the value to pass on, if any, and
/// whether the stream ends with it.
pub fn relay(r: Received) -> (out: (Option<Result<Vec<u8>, CryptrError>>, bool))
    ensures
        match r {
            Received::Item(m, c) => out.0 == Some(Ok::<Vec<u8>, CryptrError>(c.0)) && out.1 == (m
                == LastStreamElement::Yes),
            Received::Failed(e) => out.0 == Some(Err::<Vec<u8>, CryptrError>(e)) && out.1,
            Received::Closed => out.0 is None && out.1,
        },
{
    match consume(r) {
        Delivery::Payload(data, more) => (Some(Ok(data)), !more),
        Delivery::End => (None, true),
        Delivery::Failure(e) => (Some(Err(e)), true),
    }
}

/// Relays the stream `events` as a relaying writer does value by value;
/// running out of values counts as closure.
pub fn relay_all(events: Vec<Received>) -> (out: Vec<Result<Vec<u8>, CryptrError>>)
    ensures
        relay_view(out@) == relayed(events@),
{
    let mut rest = events;
    let mut out: Vec<Result<Vec<u8>, CryptrError>> = Vec::new();
    loop
        invariant
            relayed(events@) == relay_view(out@) + relayed(rest@),
        decreases rest.len(),
    {
        if rest.len() == 0 {
            assert(relay_view(out@) + Seq::empty() =~= relay_view(out@));
            return out;
        }
        let ghost prev = rest@;
        let ghost before = out@;
        let ev = rest.remove(0);
        assert(rest@ =~= prev.drop_first());
        let (item, ends) = relay(ev);
        match item {
            Some(x) => {
                out.push(x);
                assert(relay_view(out@) =~= relay_view(before) + seq![relay_view(out@).last()]);
            },
            None => {},
        }
        if ends {
            assert(relay_view(out@) + Seq::empty() =~= relay_view(out@));
            assert(relayed(prev) =~= relay_view(out@).subrange(before.len() as int, out@.len() as int));
            assert(relay_view(before) + relayed(prev) =~= relay_view(out@));
            return out;
        }
        assert(relay_view(before) + (seq![relay_view(out@).last()] + relayed(rest@)) =~= relay_view(out@)
            + relayed(rest@));
    }
}

/// The bytes of a received item; nothing for any other value.
pub open spec fn item_bytes(r: Received) -> Seq<u8> {
    match r {
        Received::Item(_, c) => c.0@,
        _ => Seq::empty(),
    }
}

/// An error received after `k` items that are not final ends the relay:
/// those `k` payloads are passed on in order, then that error, and nothing
/// received after it is passed on.
pub proof fn law_upstream_error_ends_relay(evs: Seq<Received>, k: int, e: CryptrError)
    requires
        0 <= k < evs.len(),
        forall|i: int| 0 <= i < k ==> (#[trigger] evs[i]) matches Received::Item(LastStreamElement::No, _),
        evs[k] == Received::Failed(e),
    ensures
        relayed(evs).len() == k + 1,
        forall|i: int| 0 <= i < k ==> #[trigger] relayed(evs)[i] == Ok::<Seq<u8>, CryptrError>(item_bytes(evs[i])),
        relayed(evs)[k] == Err::<Seq<u8>, CryptrError>(e),
    decreases k,
{
    if k > 0 {
        let tail = evs.drop_first();
        assert forall|i: int| 0 <= i < k - 1 implies (#[trigger] tail[i]) matches Received::Item(
            LastStreamElement::No,
            _,
        ) by {
            assert(tail[i] == evs[i + 1]);
        }
        law_upstream_error_ends_relay(tail, k - 1, e);
        assert(evs[0] matches Received::Item(LastStreamElement::No, _));
        let r = relayed(evs);
        assert(r == seq![Ok(item_bytes(evs[0]))] + relayed(tail));
        assert forall|i: int| 0 <= i < k implies #[trigger] r[i] == Ok::<Seq<u8>, CryptrError>(item_bytes(evs[i])) by {
            if i > 0 {
                assert(r[i] == relayed(tail)[i - 1]);
                assert(tail[i - 1] == evs[i]);
            }
        }
    }
}

} // verus!
