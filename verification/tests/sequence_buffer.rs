use protocol::sequence_buffer::{sequence_num_greater_than, sequence_num_less_than};
use protocol::sequence_buffer::{SequenceBuffer, HALF_U16_MAX};
use protocol::streams::{OrderedStream, SequencedStream};

#[derive(Clone, Default)]
struct DataStub;

// This also tests to ensure that the wrapping case is handled successfully.
// e.g. 0 > u16::max_value()
#[test]
fn test_sequence_num_greater_than() {
    let range_max: u32 = 66000;
    for i in 0..range_max {
        let first = (i % u16::max_value() as u32) as u16;
        let next = ((i + 1) % u16::max_value() as u32) as u16;
        assert!(sequence_num_greater_than(next, first));
        assert!(!sequence_num_greater_than(first, next));
    }
}

// Around the halfway point, we're going to start assuming that the smaller numbers are more
// recent.
#[test]
fn test_sequence_num_greater_than_with_large_delta() {
    assert!(!sequence_num_greater_than(0, HALF_U16_MAX));
    assert!(sequence_num_greater_than(0, HALF_U16_MAX + 1));
}

#[test]
fn test_insert_into_fragment_buffer() {
    let mut fragment_buffer = SequenceBuffer::new(4);
    fragment_buffer.insert(1, DataStub);
    assert!(fragment_buffer.contains(1));
    assert!(!fragment_buffer.available(1));
    assert!(fragment_buffer.available(2));
}

#[test]
fn test_remove_from_fragment_buffer() {
    let mut fragment_buffer = SequenceBuffer::new(4);
    fragment_buffer.insert(1, DataStub);
    fragment_buffer.remove(1);
    assert!(!fragment_buffer.contains(1));
    assert!(fragment_buffer.available(1));
}

#[test]
fn comparator_is_a_trichotomy() {
    for a in [0u16, 1, 2, 32767, 32768, 32769, 65534, 65535] {
        for b in [0u16, 1, 2, 32767, 32768, 32769, 65534, 65535] {
            let facts = [
                sequence_num_greater_than(a, b),
                sequence_num_greater_than(b, a),
                a == b,
            ];
            assert_eq!(facts.iter().filter(|f| **f).count(), 1, "{} and {}", a, b);
            assert_eq!(sequence_num_less_than(a, b), sequence_num_greater_than(b, a));
        }
    }
    assert!(sequence_num_greater_than(0, 65535));
    assert!(sequence_num_greater_than(HALF_U16_MAX, 0));
}

#[test]
fn insert_stores_the_value_and_hands_out_its_slot() {
    let mut buffer: SequenceBuffer<u32> = SequenceBuffer::new(8);
    assert_eq!(buffer.insert(3, 33).map(|v| *v), Some(33));
    *buffer.insert(4, 44).unwrap() += 1;
    assert!(buffer.contains(3));
    assert!(buffer.contains(4));
    assert_eq!(buffer.insert(4, 0).map(|v| *v), Some(0));
}

#[test]
fn insert_refuses_what_is_too_old() {
    let mut buffer: SequenceBuffer<u32> = SequenceBuffer::new(4);
    assert!(buffer.insert(100, 1).is_some());
    // The head is now 101; the table reaches back to 97.
    assert!(buffer.insert(96, 2).is_none());
    assert!(!buffer.contains(96));
    assert!(buffer.contains(100));
    assert!(buffer.insert(97, 3).is_some());
    assert!(buffer.contains(97));
}

#[test]
fn insert_frees_the_slots_it_skips() {
    let mut buffer: SequenceBuffer<u32> = SequenceBuffer::new(4);
    for sn in 0..4 {
        buffer.insert(sn, sn as u32);
    }
    assert!((0..4).all(|sn| buffer.contains(sn)));
    // Number 6 skips 4 and 5, which live in the slots of 0 and 1.
    buffer.insert(6, 6);
    assert!(!buffer.contains(0));
    assert!(!buffer.contains(1));
    assert!(!buffer.contains(2));
    assert!(buffer.contains(3));
    assert!(buffer.contains(6));
    // A jump over more numbers than there are slots frees them all.
    buffer.insert(100, 100);
    assert!(!buffer.contains(3));
    assert!(!buffer.contains(6));
    assert!(buffer.contains(100));
}

#[test]
fn removal_goes_round_the_whole_number_space() {
    let mut buffer: SequenceBuffer<u32> = SequenceBuffer::new(4);
    for sn in [100u16, 30_000, 60_000, 65_533] {
        assert!(buffer.insert(sn, 0).is_some());
    }
    // The head is now 65534, and the table reaches back to 65530.
    for sn in [65_530u16, 65_531, 65_532] {
        assert!(buffer.insert(sn, 0).is_some());
    }
    assert!((65_530..=65_533).all(|sn| buffer.contains(sn)));
    // Number 1 skips 65534, 65535 and 0, which live in slots 2, 3 and 0, and takes
    // slot 1 itself.
    assert!(buffer.insert(1, 0).is_some());
    assert!((65_530..=65_533).all(|sn| !buffer.contains(sn)));
    assert!(buffer.available(65_534));
    assert!(buffer.available(65_535));
    assert!(buffer.available(0));
    assert!(buffer.contains(1));
}

#[test]
fn reset_frees_every_slot() {
    let mut buffer: SequenceBuffer<u32> = SequenceBuffer::new(4);
    for sn in 10..14 {
        buffer.insert(sn, 1);
    }
    buffer.reset();
    for sn in 10..14 {
        assert!(buffer.available(sn));
        assert!(!buffer.contains(sn));
    }
    assert!(buffer.insert(0, 5).is_some());
}

#[test]
fn sequenced_stream_accepts_only_newer_numbers() {
    let mut stream = SequencedStream::new();
    assert!(!stream.accept(0));
    assert!(stream.accept(1));
    assert!(stream.accept(4));
    assert!(!stream.accept(3));
    assert!(!stream.accept(2));
    assert!(!stream.accept(4));
    assert!(stream.accept(5));
    let _ordered = OrderedStream::new();
}
