use bytes::BytesMut;
use protocol::datagram::{fragment, full, Datagram, ProcessedDatagram};
use protocol::delivery::classify;
use protocol::delivery::DeliveryGuarantee as Mode;
use protocol::guarantees::{DeliveryGuarantee, OrderingGuarantee};

fn test_payload() -> &'static [u8] {
    "hello world".as_bytes()
}

#[test]
fn ensure_unreliable_creation() {
    let datagram = Datagram::unreliable(test_payload());
    assert_eq!(datagram.delivery, DeliveryGuarantee::Unreliable);
    assert_eq!(datagram.ordering, OrderingGuarantee::Unordered);
    assert_eq!(datagram.stream_id, 0xFF);
}

#[test]
fn ensure_sequenced_creation() {
    let datagram = Datagram::sequenced(test_payload(), 0);
    assert_eq!(datagram.delivery, DeliveryGuarantee::Unreliable);
    assert_eq!(datagram.ordering, OrderingGuarantee::Sequenced);
    assert_eq!(datagram.stream_id, 0);
}

#[test]
fn ensure_reliable_creation() {
    let datagram = Datagram::reliable(test_payload());
    assert_eq!(datagram.delivery, DeliveryGuarantee::Reliable);
    assert_eq!(datagram.ordering, OrderingGuarantee::Unordered);
    assert_eq!(datagram.stream_id, 0xFF);
}

#[test]
fn ensure_reliable_sequenced_creation() {
    let datagram = Datagram::reliable_sequenced(test_payload(), 0);
    assert_eq!(datagram.delivery, DeliveryGuarantee::Reliable);
    assert_eq!(datagram.ordering, OrderingGuarantee::Sequenced);
    assert_eq!(datagram.stream_id, 0);
}

#[test]
fn ensure_reliable_ordered_creation() {
    let datagram = Datagram::reliable_ordered(test_payload(), 0);
    assert_eq!(datagram.delivery, DeliveryGuarantee::Reliable);
    assert_eq!(datagram.ordering, OrderingGuarantee::Ordered);
    assert_eq!(datagram.stream_id, 0);
}

#[test]
fn datagram_keeps_its_payload() {
    let datagram = Datagram::reliable_ordered(test_payload(), 3);
    assert_eq!(datagram.payload, test_payload());
    assert_eq!(datagram.stream_id, 3);
}

#[test]
fn guarantees_combine_to_five_ways_of_travel() {
    assert_eq!(
        classify(DeliveryGuarantee::Unreliable, OrderingGuarantee::Unordered),
        Some(Mode::Unreliable)
    );
    assert_eq!(
        classify(DeliveryGuarantee::Unreliable, OrderingGuarantee::Sequenced),
        Some(Mode::Sequenced)
    );
    assert_eq!(classify(DeliveryGuarantee::Unreliable, OrderingGuarantee::Ordered), None);
    assert_eq!(
        classify(DeliveryGuarantee::Reliable, OrderingGuarantee::Unordered),
        Some(Mode::Reliable)
    );
    assert_eq!(
        classify(DeliveryGuarantee::Reliable, OrderingGuarantee::Sequenced),
        Some(Mode::ReliableSequenced)
    );
    assert_eq!(
        classify(DeliveryGuarantee::Reliable, OrderingGuarantee::Ordered),
        Some(Mode::ReliableOrdered)
    );
}

#[test]
fn processed_datagrams_carry_their_payload() {
    match full(BytesMut::from(&b"whole"[..])) {
        ProcessedDatagram::Full { payload } => assert_eq!(&payload[..], b"whole"),
        ProcessedDatagram::Fragment { .. } => panic!("a whole message"),
    }
    match fragment(BytesMut::from(&b"part"[..])) {
        ProcessedDatagram::Fragment { payload } => assert_eq!(&payload[..], b"part"),
        ProcessedDatagram::Full { .. } => panic!("a part of a message"),
    }
    assert!(ProcessedDatagram::serialize().is_empty());
}
