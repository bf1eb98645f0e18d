use cryptr::channel_reader::{advance, frame_buffers, is_small_first_chunk, ChannelReader, Framer, SourceEvent};
use cryptr::channel_writer::ChannelWriter;
use cryptr::chunk::{LastStreamElement, StreamChunk};
use cryptr::error::CryptrError;
use cryptr::memory_writer::MemoryWriter;
use cryptr::transport::{consume, relay, relay_all, Delivery, Received};

const KIB: usize = 1024;

fn buffer(len: usize, fill: u8) -> SourceEvent {
    SourceEvent::Buffer(vec![fill; len])
}

fn as_received(items: Vec<(LastStreamElement, StreamChunk)>) -> Vec<Received> {
    items.into_iter().map(|(m, c)| Received::Item(m, c)).collect()
}

fn markers(items: &[(LastStreamElement, StreamChunk)]) -> Vec<LastStreamElement> {
    items.iter().map(|(m, _)| *m).collect()
}

#[test]
fn equal_buffers_then_closure_end_with_final() {
    let events = vec![buffer(4, 1), buffer(4, 2), buffer(4, 3), SourceEvent::Closed];
    let framing = frame_buffers(events);
    assert_eq!(framing.outcome, Ok(()));
    assert_eq!(framing.reads, 4);
    assert_eq!(
        markers(&framing.items),
        vec![LastStreamElement::No, LastStreamElement::No, LastStreamElement::Yes]
    );
    let bytes: Vec<Vec<u8>> = framing.items.into_iter().map(|(_, c)| c.0).collect();
    assert_eq!(bytes, vec![vec![1u8; 4], vec![2u8; 4], vec![3u8; 4]]);
}

#[test]
fn running_out_of_values_counts_as_closure() {
    let framing = frame_buffers(vec![buffer(3, 7), buffer(3, 8)]);
    assert_eq!(framing.outcome, Ok(()));
    assert_eq!(framing.reads, 2);
    assert_eq!(markers(&framing.items), vec![LastStreamElement::No, LastStreamElement::Yes]);
}

#[test]
fn shorter_buffer_is_last_and_stops_reading() {
    let events = vec![buffer(8, 1), buffer(8, 2), buffer(5, 3), buffer(8, 4), SourceEvent::Closed];
    let framing = frame_buffers(events);
    assert_eq!(framing.outcome, Ok(()));
    assert_eq!(framing.reads, 3);
    assert_eq!(
        markers(&framing.items),
        vec![LastStreamElement::No, LastStreamElement::No, LastStreamElement::Yes]
    );
    assert_eq!(framing.items[2].1 .0, vec![3u8; 5]);
}

#[test]
fn empty_buffer_ends_the_stream() {
    let framing = frame_buffers(vec![buffer(6, 1), buffer(0, 0), buffer(6, 2)]);
    assert_eq!(framing.outcome, Ok(()));
    assert_eq!(framing.reads, 2);
    assert_eq!(framing.items.len(), 1);
    assert_eq!(framing.items[0].0, LastStreamElement::Yes);
    assert_eq!(framing.items[0].1 .0, vec![1u8; 6]);
}

#[test]
fn closure_before_any_buffer_is_input_exhausted() {
    let framing = frame_buffers(vec![SourceEvent::Closed]);
    assert_eq!(framing.outcome, Err(CryptrError::InputExhausted));
    assert!(framing.items.is_empty());
    assert_eq!(framing.reads, 1);

    let framing = frame_buffers(Vec::new());
    assert_eq!(framing.outcome, Err(CryptrError::InputExhausted));
    assert!(framing.items.is_empty());
}

#[test]
fn source_error_is_forwarded_as_is() {
    let err = CryptrError::Generic("disk gone".to_string());
    let framing = frame_buffers(vec![buffer(4, 1), buffer(4, 2), SourceEvent::Failed(err.clone()), buffer(4, 3)]);
    assert_eq!(framing.outcome, Err(err.clone()));
    assert_eq!(framing.reads, 3);
    assert_eq!(markers(&framing.items), vec![LastStreamElement::No]);

    let framing = frame_buffers(vec![SourceEvent::Failed(err.clone())]);
    assert_eq!(framing.outcome, Err(err));
    assert!(framing.items.is_empty());
}

#[test]
fn replaying_the_same_buffers_is_deterministic() {
    let make = || vec![buffer(16, 1), buffer(16, 2), buffer(9, 3), SourceEvent::Closed];
    let a = frame_buffers(make());
    let b = frame_buffers(make());
    assert_eq!(a.items, b.items);
    assert_eq!(a.outcome, b.outcome);
    assert_eq!(a.reads, b.reads);
}

#[test]
fn three_full_buffers_gather_to_192_kib() {
    let framing = frame_buffers(vec![buffer(64 * KIB, 1), buffer(64 * KIB, 2), buffer(64 * KIB, 3), SourceEvent::Closed]);
    assert_eq!(framing.outcome, Ok(()));
    let mut target = Vec::new();
    let mut writer = MemoryWriter(&mut target);
    assert_eq!(writer.write_all(as_received(framing.items)), Ok(()));
    assert_eq!(target.len(), 192 * KIB);
    assert_eq!(target[64 * KIB], 2);
}

#[test]
fn short_last_buffer_gives_markers_and_138_kib() {
    let framing = frame_buffers(vec![buffer(64 * KIB, 1), buffer(64 * KIB, 2), buffer(10 * KIB, 3), SourceEvent::Closed]);
    assert_eq!(framing.outcome, Ok(()));
    assert_eq!(
        markers(&framing.items),
        vec![LastStreamElement::No, LastStreamElement::No, LastStreamElement::Yes]
    );
    let received = as_received(framing.items);
    let relayed = relay_all(
        received
            .iter()
            .map(|r| match r {
                Received::Item(m, c) => Received::Item(*m, c.clone()),
                _ => Received::Closed,
            })
            .collect(),
    );
    let relayed_total: usize = relayed.iter().map(|r| r.as_ref().unwrap().len()).sum();
    assert_eq!(relayed_total, 138 * KIB);

    let mut target = Vec::new();
    let mut writer = MemoryWriter(&mut target);
    assert_eq!(writer.write_all(received), Ok(()));
    assert_eq!(target.len(), 138 * KIB);
}

#[test]
fn memory_writer_overwrites_its_target() {
    let mut target = vec![9u8; 3];
    let mut writer = MemoryWriter(&mut target);
    let a = vec![
        Received::Item(LastStreamElement::No, StreamChunk::new(vec![1, 2])),
        Received::Item(LastStreamElement::Yes, StreamChunk::new(vec![3])),
    ];
    assert_eq!(writer.write_all(a), Ok(()));
    let b = vec![Received::Item(LastStreamElement::Yes, StreamChunk::new(vec![7, 8]))];
    assert_eq!(writer.write_all(b), Ok(()));
    assert_eq!(target, vec![7, 8]);
}

#[test]
fn memory_writer_stops_at_final_and_on_error() {
    let mut target = Vec::new();
    let mut writer = MemoryWriter(&mut target);
    let evs = vec![
        Received::Item(LastStreamElement::No, StreamChunk::new(vec![1])),
        Received::Item(LastStreamElement::Yes, StreamChunk::new(vec![2])),
        Received::Item(LastStreamElement::Yes, StreamChunk::new(vec![3])),
    ];
    assert_eq!(writer.write_all(evs), Ok(()));
    assert_eq!(target, vec![1, 2]);

    let err = CryptrError::Generic("cipher failed".to_string());
    let mut writer = MemoryWriter(&mut target);
    let evs = vec![
        Received::Item(LastStreamElement::No, StreamChunk::new(vec![4])),
        Received::Failed(err.clone()),
        Received::Item(LastStreamElement::Yes, StreamChunk::new(vec![5])),
    ];
    assert_eq!(writer.write_all(evs), Err(err));
    assert_eq!(target, vec![4]);
}

#[test]
fn memory_writer_treats_closure_as_the_end() {
    let mut target = vec![1u8];
    let mut writer = MemoryWriter(&mut target);
    let evs = vec![Received::Item(LastStreamElement::No, StreamChunk::new(vec![5, 6])), Received::Closed];
    assert_eq!(writer.write_all(evs), Ok(()));
    assert_eq!(target, vec![5, 6]);
}

#[test]
fn memory_writer_steps_one_value_at_a_time() {
    let mut target = vec![1u8, 2];
    let mut writer = MemoryWriter(&mut target);
    writer.begin();
    assert_eq!(writer.accept(Received::Item(LastStreamElement::No, StreamChunk::new(vec![3]))), None);
    assert_eq!(writer.accept(Received::Item(LastStreamElement::Yes, StreamChunk::new(vec![4]))), Some(Ok(())));
    assert_eq!(target, vec![3, 4]);
}

#[test]
fn upstream_error_mid_stream_ends_the_relay() {
    let err = CryptrError::Generic("upstream".to_string());
    let evs = vec![
        Received::Item(LastStreamElement::No, StreamChunk::new(vec![1, 1])),
        Received::Item(LastStreamElement::No, StreamChunk::new(vec![2])),
        Received::Failed(err.clone()),
        Received::Item(LastStreamElement::Yes, StreamChunk::new(vec![3])),
    ];
    let out = relay_all(evs);
    assert_eq!(out, vec![Ok(vec![1, 1]), Ok(vec![2]), Err(err)]);
}

#[test]
fn relay_steps() {
    assert_eq!(
        relay(Received::Item(LastStreamElement::No, StreamChunk::new(vec![1]))),
        (Some(Ok(vec![1])), false)
    );
    assert_eq!(
        relay(Received::Item(LastStreamElement::Yes, StreamChunk::new(vec![2]))),
        (Some(Ok(vec![2])), true)
    );
    assert_eq!(relay(Received::Failed(CryptrError::SinkClosed)), (Some(Err(CryptrError::SinkClosed)), true));
    assert_eq!(relay(Received::Closed), (None, true));
}

#[test]
fn consume_folds_closure_into_the_end() {
    assert!(matches!(consume(Received::Closed), Delivery::End));
    assert!(matches!(
        consume(Received::Item(LastStreamElement::Yes, StreamChunk::new(vec![1]))),
        Delivery::Payload(ref d, false) if *d == vec![1u8]
    ));
    assert!(matches!(consume(Received::Failed(CryptrError::InputExhausted)), Delivery::Failure(CryptrError::InputExhausted)));
}

#[test]
fn advance_steps() {
    let (out, next) = advance(Framer::Empty, SourceEvent::Buffer(vec![1, 2]));
    assert!(out.is_empty());
    assert!(matches!(next, Ok(Some(Framer::Holding(ref h))) if *h == vec![1u8, 2]));

    let (out, next) = advance(Framer::Holding(vec![1, 2]), SourceEvent::Buffer(vec![3, 4]));
    assert_eq!(out, vec![(LastStreamElement::No, StreamChunk::new(vec![1, 2]))]);
    assert!(matches!(next, Ok(Some(Framer::Holding(ref h))) if *h == vec![3u8, 4]));

    let (out, next) = advance(Framer::Holding(vec![1, 2]), SourceEvent::Buffer(vec![5]));
    assert_eq!(
        out,
        vec![
            (LastStreamElement::No, StreamChunk::new(vec![1, 2])),
            (LastStreamElement::Yes, StreamChunk::new(vec![5]))
        ]
    );
    assert!(matches!(next, Ok(None)));

    let (out, next) = advance(Framer::Empty, SourceEvent::Closed);
    assert!(out.is_empty());
    assert!(matches!(next, Err(CryptrError::InputExhausted)));
}

#[test]
fn small_first_chunk_threshold() {
    assert!(is_small_first_chunk(8191));
    assert!(!is_small_first_chunk(8192));
    assert!(is_small_first_chunk(0));
}

#[test]
fn channel_writer_terminal_error() {
    assert_eq!(ChannelWriter::terminal_error(Some(CryptrError::SinkClosed)), CryptrError::SinkClosed);
    assert_eq!(
        ChannelWriter::terminal_error(None),
        CryptrError::Generic("ChannelWriter error".to_string())
    );
}

#[test]
fn channels_carry_buffers_in_order() {
    let (mut reader, mut tx) = ChannelReader::new();
    tx.try_send(Ok(vec![1, 2])).unwrap();
    tx.try_send(Ok(vec![3])).unwrap();
    drop(tx);
    assert_eq!(reader.0.try_next().unwrap(), Some(Ok(vec![1, 2])));
    assert_eq!(reader.0.try_next().unwrap(), Some(Ok(vec![3])));
    assert_eq!(reader.0.try_next().unwrap(), None);

    let (mut writer, mut rx) = ChannelWriter::new();
    writer.0.try_send(Err(CryptrError::SinkClosed)).unwrap();
    assert_eq!(rx.try_next().unwrap(), Some(Err(CryptrError::SinkClosed)));
}
