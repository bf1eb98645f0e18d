use vstd::prelude::*;
use crate::channel_reader::{frame_from, frame_outcome_from, frame_reads_from, framed, framed_outcome, framed_reads, SourceEvent};
use crate::chunk::LastStreamElement;
use crate::error::CryptrError;

verus! {

/// The bytes of a source value; nothing for any value but a buffer.
pub open spec fn buffer_of(ev: SourceEvent) -> Seq<u8> {
    match ev {
        SourceEvent::Buffer(b) => b@,
        _ => Seq::empty(),
    }
}

/// The bytes of each source value, in order.
pub open spec fn buffers(evs: Seq<SourceEvent>) -> Seq<Seq<u8>> {
    evs.map_values(|ev: SourceEvent| buffer_of(ev))
}

/// Each buffer tagged as not the last one.
pub open spec fn tagged_no(bs: Seq<Seq<u8>>) -> Seq<(LastStreamElement, Seq<u8>)> {
    bs.map_values(|b: Seq<u8>| (LastStreamElement::No, b))
}

/// The first `k` source values are buffers of exactly `len` bytes.
pub open spec fn uniform_prefix(evs: Seq<SourceEvent>, k: int, len: nat) -> bool {
    &&& 0 <= k <= evs.len()
    &&& forall|i: int| 0 <= i < k ==> (#[trigger] evs[i] is Buffer) && buffer_of(evs[i]).len() == len
}

/// Exactly one item is tagged final, and it is the last one.
pub open spec fn well_marked(items: Seq<(LastStreamElement, Seq<u8>)>) -> bool {
    &&& items.len() > 0
    &&& items.last().0 == LastStreamElement::Yes
    &&& forall|i: int| 0 <= i < items.len() - 1 ==> (#[trigger] items[i]).0 == LastStreamElement::No
}

/// No item is tagged final.
pub open spec fn none_final(items: Seq<(LastStreamElement, Seq<u8>)>) -> bool {
    forall|i: int| 0 <= i < items.len() ==> (#[trigger] items[i]).0 == LastStreamElement::No
}

/// Two source sequences that yield the same values, buffer bytes compared.
pub open spec fn same_source(a: Seq<SourceEvent>, b: Seq<SourceEvent>) -> bool {
    &&& a.len() == b.len()
    &&& forall|i: int|
        0 <= i < a.len() ==> match (#[trigger] a[i], b[i]) {
            (SourceEvent::Buffer(x), SourceEvent::Buffer(y)) => x@ == y@,
            (SourceEvent::Failed(x), SourceEvent::Failed(y)) => x == y,
            (SourceEvent::Closed, SourceEvent::Closed) => true,
            _ => false,
        }
}

/// Reading `k` buffers of the held buffer's size emits the held buffer and
/// all of them but the last as not final, and leaves the last one held.
pub proof fn lemma_frame_uniform_prefix(held: Seq<u8>, evs: Seq<SourceEvent>, k: int)
    requires
        held.len() > 0,
        uniform_prefix(evs, k, held.len()),
    ensures
        ({
            let all = seq![held] + buffers(evs.take(k));
            &&& frame_from(held, evs) == tagged_no(all.drop_last()) + frame_from(all.last(), evs.skip(k))
            &&& frame_outcome_from(held, evs) == frame_outcome_from(all.last(), evs.skip(k))
            &&& frame_reads_from(held, evs) == k + frame_reads_from(all.last(), evs.skip(k))
        }),
    decreases k,
{
    let all = seq![held] + buffers(evs.take(k));
    if k == 0 {
        assert(evs.take(0) =~= Seq::<SourceEvent>::empty());
        assert(all =~= seq![held]);
        assert(evs.skip(0) =~= evs);
        assert(tagged_no(all.drop_last()) =~= Seq::empty());
        assert(tagged_no(all.drop_last()) + frame_from(held, evs) =~= frame_from(held, evs));
    } else {
        let b0 = buffer_of(evs[0]);
        let tail = evs.drop_first();
        assert(evs[0] is Buffer);
        assert forall|i: int| 0 <= i < k - 1 implies (#[trigger] tail[i] is Buffer) && buffer_of(tail[i]).len()
            == b0.len() by {
            assert(tail[i] == evs[i + 1]);
        }
        lemma_frame_uniform_prefix(b0, tail, k - 1);
        let rest_all = seq![b0] + buffers(tail.take(k - 1));
        assert(buffers(evs.take(k)) =~= rest_all);
        assert(all =~= seq![held] + rest_all);
        assert(tail.skip(k - 1) =~= evs.skip(k));
        assert(all.last() == rest_all.last());
        assert(tagged_no(all.drop_last()) =~= seq![(LastStreamElement::No, held)] + tagged_no(
            rest_all.drop_last(),
        ));
        assert(frame_from(held, evs) == seq![(LastStreamElement::No, held)] + frame_from(b0, tail));
        assert(seq![(LastStreamElement::No, held)] + (tagged_no(rest_all.drop_last()) + frame_from(
            rest_all.last(),
            tail.skip(k - 1),
        )) =~= tagged_no(all.drop_last()) + frame_from(all.last(), evs.skip(k)));
    }
}

/// Equal-sized, non-empty buffers followed by closure come out in order,
/// unchanged, every one but the last tagged not final and the last tagged
/// final; every value is read, closure included.
pub proof fn law_uniform_buffers_then_closure(evs: Seq<SourceEvent>, len: nat)
    requires
        evs.len() >= 2,
        len > 0,
        uniform_prefix(evs, evs.len() - 1, len),
        evs.last() is Closed,
    ensures
        ({
            let bs = buffers(evs.drop_last());
            &&& framed(evs) == tagged_no(bs.drop_last()) + seq![(LastStreamElement::Yes, bs.last())]
            &&& framed_outcome(evs) == Ok::<(), CryptrError>(())
            &&& framed_reads(evs) == evs.len()
        }),
{
    let n = evs.len() as int;
    let tail = evs.drop_first();
    let held = buffer_of(evs[0]);
    assert(evs[0] is Buffer);
    assert forall|i: int| 0 <= i < n - 2 implies (#[trigger] tail[i] is Buffer) && buffer_of(tail[i]).len()
        == held.len() by {
        assert(tail[i] == evs[i + 1]);
    }
    lemma_frame_uniform_prefix(held, tail, n - 2);
    let all = seq![held] + buffers(tail.take(n - 2));
    let bs = buffers(evs.drop_last());
    assert(all =~= bs);
    assert(tail.skip(n - 2) =~= seq![SourceEvent::Closed]);
    assert(tail.skip(n - 2)[0] == evs.last());
    assert(tail.skip(n - 2).drop_first().len() == 0);
}

/// A buffer shorter than the ones before it, after equal-sized non-empty
/// buffers, is the last one: the buffers before it come out tagged not
/// final, it comes out tagged final, and nothing after it is read.
pub proof fn law_shorter_buffer_is_last(evs: Seq<SourceEvent>, m: int, len: nat)
    requires
        m >= 1,
        evs.len() > m,
        len > 0,
        uniform_prefix(evs, m, len),
        evs[m] is Buffer,
        0 < buffer_of(evs[m]).len() < len,
    ensures
        framed(evs) == tagged_no(buffers(evs.take(m))) + seq![(LastStreamElement::Yes, buffer_of(evs[m]))],
        framed_outcome(evs) == Ok::<(), CryptrError>(()),
        framed_reads(evs) == m + 1,
{
    let tail = evs.drop_first();
    let held = buffer_of(evs[0]);
    assert(evs[0] is Buffer);
    assert forall|i: int| 0 <= i < m - 1 implies (#[trigger] tail[i] is Buffer) && buffer_of(tail[i]).len()
        == held.len() by {
        assert(tail[i] == evs[i + 1]);
    }
    lemma_frame_uniform_prefix(held, tail, m - 1);
    let all = seq![held] + buffers(tail.take(m - 1));
    assert(all =~= buffers(evs.take(m)));
    let after = tail.skip(m - 1);
    assert(after[0] == evs[m]);
    let last = all.last();
    assert(last == buffer_of(evs[m - 1]));
    assert(last.len() == len);
    assert(frame_from(last, after) == seq![(LastStreamElement::No, last), (LastStreamElement::Yes, buffer_of(evs[m]))]);
    assert(tagged_no(all.drop_last()) + seq![(LastStreamElement::No, last), (LastStreamElement::Yes, buffer_of(evs[m]))]
        =~= tagged_no(buffers(evs.take(m))) + seq![(LastStreamElement::Yes, buffer_of(evs[m]))]);
}

/// A source that closes before its first buffer fails the reader with
/// `InputExhausted` and nothing is emitted.
pub proof fn law_empty_source(evs: Seq<SourceEvent>)
    requires
        evs.len() == 0 || evs[0] is Closed,
    ensures
        framed(evs).len() == 0,
        framed_outcome(evs) == Err::<(), CryptrError>(CryptrError::InputExhausted),
{
}

/// Framing after the same held bytes depends on buffer bytes alone.
pub proof fn lemma_frame_from_same_source(held: Seq<u8>, a: Seq<SourceEvent>, b: Seq<SourceEvent>)
    requires
        same_source(a, b),
    ensures
        frame_from(held, a) == frame_from(held, b),
        frame_outcome_from(held, a) == frame_outcome_from(held, b),
        frame_reads_from(held, a) == frame_reads_from(held, b),
    decreases a.len(),
{
    if a.len() > 0 {
        let (a0, b0) = (a[0], b[0]);
        assert(same_source(a.drop_first(), b.drop_first())) by {
            assert forall|i: int| 0 <= i < a.len() - 1 implies match (#[trigger] a.drop_first()[i], b.drop_first()[i]) {
                (SourceEvent::Buffer(x), SourceEvent::Buffer(y)) => x@ == y@,
                (SourceEvent::Failed(x), SourceEvent::Failed(y)) => x == y,
                (SourceEvent::Closed, SourceEvent::Closed) => true,
                _ => false,
            } by {
                assert(a.drop_first()[i] == a[i + 1]);
                assert(b.drop_first()[i] == b[i + 1]);
            }
        }
        if let SourceEvent::Buffer(x) = a0 {
            lemma_frame_from_same_source(x@, a.drop_first(), b.drop_first());
        }
    }
}

/// Replaying the same buffers yields the same emitted items, the same end
/// and the same number of reads.
pub proof fn law_replay_is_deterministic(a: Seq<SourceEvent>, b: Seq<SourceEvent>)
    requires
        same_source(a, b),
    ensures
        framed(a) == framed(b),
        framed_outcome(a) == framed_outcome(b),
        framed_reads(a) == framed_reads(b),
{
    if a.len() > 0 {
        let (a0, b0) = (a[0], b[0]);
        assert(same_source(a.drop_first(), b.drop_first())) by {
            assert forall|i: int| 0 <= i < a.len() - 1 implies match (#[trigger] a.drop_first()[i], b.drop_first()[i]) {
                (SourceEvent::Buffer(x), SourceEvent::Buffer(y)) => x@ == y@,
                (SourceEvent::Failed(x), SourceEvent::Failed(y)) => x == y,
                (SourceEvent::Closed, SourceEvent::Closed) => true,
                _ => false,
            } by {
                assert(a.drop_first()[i] == a[i + 1]);
                assert(b.drop_first()[i] == b[i + 1]);
            }
        }
        if let SourceEvent::Buffer(x) = a0 {
            lemma_frame_from_same_source(x@, a.drop_first(), b.drop_first());
        }
    }
}

/// After a held buffer, a stream that ends cleanly is well marked and one
/// that fails has no final item.
pub proof fn lemma_frame_from_marks(held: Seq<u8>, evs: Seq<SourceEvent>)
    ensures
        frame_outcome_from(held, evs) is Ok ==> well_marked(frame_from(held, evs)),
        frame_outcome_from(held, evs) is Err ==> none_final(frame_from(held, evs)),
    decreases evs.len(),
{
    if evs.len() > 0 {
        if let SourceEvent::Buffer(b) = evs[0] {
            if b@.len() != 0 && b@.len() >= held.len() {
                let rest = frame_from(b@, evs.drop_first());
                lemma_frame_from_marks(b@, evs.drop_first());
                let all = seq![(LastStreamElement::No, held)] + rest;
                assert(frame_from(held, evs) == all);
                assert forall|i: int| 1 <= i < all.len() implies all[i] == rest[i - 1] by {}
                if frame_outcome_from(held, evs) is Ok {
                    assert(all.last() == rest.last());
                    assert forall|i: int| 0 <= i < all.len() - 1 implies (#[trigger] all[i]).0
                        == LastStreamElement::No by {
                        if i > 0 {
                            assert(all[i] == rest[i - 1]);
                        }
                    }
                } else {
                    assert forall|i: int| 0 <= i < all.len() implies (#[trigger] all[i]).0
                        == LastStreamElement::No by {
                        if i > 0 {
                            assert(all[i] == rest[i - 1]);
                        }
                    }
                }
            }
        }
    }
}

/// Whatever the source yields, the reader's output is well marked when it
/// ends cleanly (exactly one final item, the last), and holds no final
/// item when it fails.
pub proof fn law_output_is_well_marked(evs: Seq<SourceEvent>)
    ensures
        framed_outcome(evs) is Ok ==> well_marked(framed(evs)),
        framed_outcome(evs) is Err ==> none_final(framed(evs)),
{
    if evs.len() > 0 {
        if let SourceEvent::Buffer(b) = evs[0] {
            lemma_frame_from_marks(b@, evs.drop_first());
        }
    }
}

} // verus!
