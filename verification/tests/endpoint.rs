use protocol::config::Config;
use protocol::datagram::{Datagram, ProcessedDatagram};
use protocol::endpoint::Endpoint;
use protocol::errors::ProtocolError;
use protocol::guarantees::{DeliveryGuarantee, OrderingGuarantee};
use protocol::metrics::DataPoint;

#[test]
fn error_on_large_payload_for_reliable_send() {
    let config = Config::default()
        .with_max_fragments(1)
        .with_fragment_size_bytes(1);
    let mut endpoint = Endpoint::new(config);
    let payload = "Hello world!".as_bytes();
    let datagram = Datagram::reliable(payload);
    match endpoint.send(datagram) {
        Err(ProtocolError::PayloadTooLarge(size, max)) => assert_eq!((size, max), (12, 1)),
        _ => panic!("twelve bytes are more than one"),
    }
}

#[test]
fn error_on_invalid_stream_id_ordered() {
    let config = Config::default();
    let mut endpoint = Endpoint::new(config);
    let payload = "Hello world!".as_bytes();
    let datagram = Datagram::reliable_ordered(payload, 2);
    assert_eq!(
        endpoint.send(datagram).unwrap_err(),
        ProtocolError::InvalidStreamId
    );
}

#[test]
fn error_on_invalid_stream_id_sequenced() {
    let config = Config::default();
    let mut endpoint = Endpoint::new(config);
    let payload = "Hello world!".as_bytes();
    let datagram = Datagram::reliable_sequenced(payload, 2);
    assert_eq!(
        endpoint.send(datagram).unwrap_err(),
        ProtocolError::InvalidStreamId
    );
}

#[test]
fn error_on_unreliable_ordered_config() {
    let config = Config::default();
    let mut endpoint = Endpoint::new(config);
    let payload = "Hello world!".as_bytes();
    let datagram = Datagram {
        stream_id: 0,
        delivery: DeliveryGuarantee::Unreliable,
        ordering: OrderingGuarantee::Ordered,
        payload,
    };
    assert_eq!(
        endpoint.send(datagram).unwrap_err(),
        ProtocolError::InvalidConfiguration("Unable to send an unreliable and ordered packet.")
    )
}

#[test]
fn too_large_payload_is_counted_and_says_the_sizes() {
    let config = Config::default().with_max_fragments(2).with_fragment_size_bytes(5);
    assert_eq!(config.max_payload_size_bytes(), 10);
    let mut endpoint = Endpoint::new(config);
    assert_eq!(endpoint.get_count(DataPoint::PacketsTooLargeToSend), 0);
    match endpoint.send(Datagram::reliable(b"Hello world!")) {
        Err(ProtocolError::PayloadTooLarge(size, max)) => assert_eq!((size, max), (12, 10)),
        _ => panic!("twelve bytes are more than ten"),
    }
    assert_eq!(endpoint.get_count(DataPoint::PacketsTooLargeToSend), 1);
    assert!(endpoint.send(Datagram::reliable(b"0123456789")).is_ok());
    assert_eq!(endpoint.get_count(DataPoint::PacketsTooLargeToSend), 1);
    assert_eq!(endpoint.get_count(DataPoint::PacketsSent), 0);
}

#[test]
fn config_defaults_and_builders() {
    let config = Config::default();
    assert_eq!(config.ordered_streams_size(), 1);
    assert_eq!(config.sequenced_streams_size(), 1);
    assert_eq!(config.max_payload_size_bytes(), 16 * 1450);
    let config = config.with_ordered_streams_size(3).with_sequenced_streams_size(4);
    assert_eq!(config.ordered_streams_size(), 3);
    assert_eq!(config.sequenced_streams_size(), 4);
    let config = config.with_max_fragments(255).with_fragment_size_bytes(usize::MAX);
    assert_eq!(config.max_payload_size_bytes(), usize::MAX);
}

#[test]
fn stream_ids_below_the_configured_number_are_accepted() {
    let config = Config::default().with_ordered_streams_size(3);
    let mut endpoint = Endpoint::new(config);
    assert!(endpoint.send(Datagram::reliable_ordered(b"x", 2)).is_ok());
    assert_eq!(
        endpoint.send(Datagram::reliable_ordered(b"x", 3)).unwrap_err(),
        ProtocolError::InvalidStreamId
    );
    assert!(endpoint.send(Datagram::reliable_sequenced(b"x", 0)).unwrap().is_empty());
    assert_eq!(
        endpoint.send(Datagram::reliable_sequenced(b"x", 1)).unwrap_err(),
        ProtocolError::InvalidStreamId
    );
    assert_eq!(
        endpoint.send(Datagram::sequenced(b"x", 9)).unwrap_err(),
        ProtocolError::InvalidStreamId
    );
    assert_eq!(
        endpoint.send(Datagram::reliable(b"")).unwrap_err(),
        ProtocolError::EmptyPayload
    );
}

#[test]
fn endpoints_exchange_a_reliable_message() {
    let mut a = Endpoint::new(Config::default());
    let mut b = Endpoint::new(Config::default());
    let payload: Vec<u8> = (0..3000u32).map(|i| (i % 251) as u8).collect();
    assert!(a.send(Datagram::reliable(&payload)).unwrap().is_empty());
    let packets = a.update(0);
    assert_eq!(packets.len(), 3);
    let mut received = Vec::new();
    for packet in &packets {
        match b.receive(packet).unwrap() {
            ProcessedDatagram::Full { payload } => received.push(payload.to_vec()),
            ProcessedDatagram::Fragment { payload } => assert!(payload.is_empty()),
        }
    }
    assert_eq!(received, vec![payload]);
    // The acknowledgements travel back and empty the sender's buffer.
    for packet in b.update(0) {
        match a.receive(&packet).unwrap() {
            ProcessedDatagram::Fragment { payload } => assert!(payload.is_empty()),
            ProcessedDatagram::Full { .. } => panic!("acknowledgements carry no message"),
        }
    }
    assert!(a.update(10_000).is_empty());
}

#[test]
fn endpoint_reports_what_the_engine_refuses() {
    let mut endpoint = Endpoint::new(Config::default());
    assert_eq!(endpoint.receive(&[0u8; 5]).unwrap_err(), ProtocolError::BufferTooSmall);
    let mut wrong_session = vec![0u8; 24];
    wrong_session[3] = 1;
    wrong_session[4] = 81;
    assert_eq!(
        endpoint.receive(&wrong_session).unwrap_err(),
        ProtocolError::InvalidSessionId
    );
}

#[test]
fn unreliable_datagrams_are_encoded_at_once() {
    let config = Config::default().with_sequenced_streams_size(0x1_02);
    let mut endpoint = Endpoint::new(config);
    // Without a stream the payload travels as it is.
    assert_eq!(&endpoint.send(Datagram::unreliable(b"bare")).unwrap()[..], b"bare");
    assert!(endpoint.send(Datagram::unreliable(b"")).unwrap().is_empty());
    // On a stream it travels behind the stream id and its number on the stream.
    assert_eq!(
        &endpoint.send(Datagram::sequenced(b"one", 0x1_01)).unwrap()[..],
        &[0, 0, 0, 0, 0, 0, 1, 1, 0, 1, b'o', b'n', b'e'][..]
    );
    assert_eq!(
        &endpoint.send(Datagram::sequenced(b"two", 0x1_01)).unwrap()[..],
        &[0, 0, 0, 0, 0, 0, 1, 1, 0, 2, b't', b'w', b'o'][..]
    );
    assert_eq!(
        &endpoint.send(Datagram::sequenced(b"", 3)).unwrap()[..],
        &[0, 0, 0, 0, 0, 0, 0, 3, 0, 1][..]
    );
    // Nothing of this goes through the engine.
    assert!(endpoint.update(0).is_empty());
}

#[test]
fn stream_numbers_go_round() {
    let mut endpoint = Endpoint::new(Config::default());
    let mut last = Vec::new();
    for _ in 0..65_536u32 {
        last = endpoint.send(Datagram::sequenced(b"", 0)).unwrap().to_vec();
    }
    assert_eq!(&last[8..], &[0, 0]);
    let next = endpoint.send(Datagram::sequenced(b"", 0)).unwrap();
    assert_eq!(&next[8..], &[0, 1]);
}

fn data_segment(sn: u32, payload: &[u8]) -> Vec<u8> {
    let mut seg = protocol::segment::Segment::new(bytes::BytesMut::from(payload));
    seg.command = protocol::CMD_PUSH;
    seg.window_size = 32;
    seg.sequence_num = sn;
    let mut buf = bytes::BytesMut::new();
    seg.encode(&mut buf);
    buf.to_vec()
}

#[test]
fn dropped_and_refused_input_is_counted() {
    let mut endpoint = Endpoint::new(Config::default());
    assert!(endpoint.receive(&data_segment(1, b"one")).is_ok());
    assert_eq!(endpoint.get_count(DataPoint::PacketsStale), 0);
    // The same segment again, and one far beyond the window, in one datagram.
    let mut twice = data_segment(1, b"one");
    twice.extend_from_slice(&data_segment(5_000, b"far"));
    assert!(endpoint.receive(&twice).is_ok());
    assert_eq!(endpoint.get_count(DataPoint::PacketsStale), 2);
    assert_eq!(endpoint.get_count(DataPoint::PacketsInvalid), 0);
    // A stale segment ahead of a segment of another session: both are counted.
    let mut mixed = data_segment(1, b"one");
    let mut foreign = data_segment(2, b"two");
    foreign[3] = 9;
    mixed.extend_from_slice(&foreign);
    assert_eq!(endpoint.receive(&mixed).unwrap_err(), ProtocolError::InvalidSessionId);
    assert_eq!(endpoint.get_count(DataPoint::PacketsStale), 3);
    assert_eq!(endpoint.get_count(DataPoint::PacketsInvalid), 1);
    assert_eq!(endpoint.receive(&[1, 2, 3]).unwrap_err(), ProtocolError::BufferTooSmall);
    assert_eq!(endpoint.get_count(DataPoint::PacketsInvalid), 2);
    assert_eq!(endpoint.get_count(DataPoint::PacketsStale), 3);
    // What arrives in order is delivered and counted as nothing.
    match endpoint.receive(&data_segment(0, b"zero")).unwrap() {
        ProcessedDatagram::Full { payload } => assert_eq!(&payload[..], b"zero"),
        ProcessedDatagram::Fragment { .. } => panic!("the message is complete"),
    }
    assert_eq!(endpoint.get_count(DataPoint::PacketsStale), 3);
}
