use bytes::BytesMut;
use protocol::connection::ReliableConnection;
use protocol::errors::ProtocolError;
use protocol::segment::Segment;
use protocol::serial::time_diff;
use protocol::{CMD_ACK, CMD_PUSH, CMD_WASK, CMD_WINS};

fn encode(seg: &Segment) -> Vec<u8> {
    let mut buf = BytesMut::new();
    seg.encode(&mut buf);
    buf.to_vec()
}

fn push(session: u32, sn: u32, frg: u8, payload: &[u8]) -> Vec<u8> {
    let mut seg = Segment::new(BytesMut::from(payload));
    seg.session_id = session;
    seg.command = CMD_PUSH;
    seg.fragment_id = frg;
    seg.window_size = 32;
    seg.sequence_num = sn;
    encode(&seg)
}

fn control(session: u32, command: u8, wnd: u16, ts: u32, sn: u32, una: u32) -> Vec<u8> {
    let mut seg = Segment::default();
    seg.session_id = session;
    seg.command = command;
    seg.window_size = wnd;
    seg.timestamp = ts;
    seg.sequence_num = sn;
    seg.unacked_sequence_num = una;
    encode(&seg)
}

fn decode_all(packets: &[Vec<u8>]) -> Vec<Segment> {
    let mut segments = Vec::new();
    for packet in packets {
        let mut at = 0;
        while at < packet.len() {
            let (seg, used) = Segment::decode(&packet[at..]).unwrap();
            segments.push(seg);
            at += used;
        }
    }
    segments
}

#[test]
fn test_recv_with_empty_queue() {
    let mut connection = ReliableConnection::new(0);
    let mut buffer = Vec::with_capacity(10);
    assert_eq!(
        connection.recv(&mut buffer).unwrap_err(),
        ProtocolError::EmptyRecvQueue
    );
}

#[test]
fn test_recv_with_too_small_buffer() {
    let mut connection = ReliableConnection::new(0);
    let mut buffer = Vec::new();
    connection.input(&push(0, 0, 0, b"test")).unwrap();
    assert_eq!(connection.num_segments_ready(), 1);
    assert_eq!(
        connection.recv(&mut buffer).unwrap_err(),
        ProtocolError::BufferTooSmall
    );
    assert_eq!(connection.num_segments_ready(), 1);
}

#[test]
fn test_open_slots_in_recv_queue() {
    let mut connection = ReliableConnection::new(0);
    assert_eq!(connection.recv_window_size(), 32);
    assert_eq!(connection.num_open_slots_in_recv_queue(), 32);
    for sn in 0..32 {
        connection.input(&push(0, sn, 0, b"")).unwrap();
    }
    assert_eq!(connection.num_segments_ready(), 32);

    assert_eq!(connection.num_open_slots_in_recv_queue(), 0);
    connection.set_window_sizes(32, 0);
    assert_eq!(connection.num_open_slots_in_recv_queue(), 0);
}

#[test]
fn test_peek_size() {
    let connection = ReliableConnection::new(0);
    assert_eq!(
        connection.peek_size().unwrap_err(),
        ProtocolError::IncompleteMessage
    );
}

#[test]
fn test_send_with_empty_buffer_throws_error() {
    let mut connection = ReliableConnection::new(0);
    assert_eq!(
        connection.send(&vec![]).unwrap_err(),
        ProtocolError::EmptyPayload
    );
}

#[test]
fn test_set_mtu_error_when_too_small() {
    let mut connection = ReliableConnection::new(0);
    // Errors when too small
    assert_eq!(
        connection.set_mtu(0).unwrap_err(),
        ProtocolError::InvalidConfiguration("MTU too small.")
    );
    assert_eq!(
        connection.set_mtu(49).unwrap_err(),
        ProtocolError::InvalidConfiguration("MTU too small.")
    );
    match connection.set_mtu(49) {
        Err(ProtocolError::InvalidConfiguration(reason)) => assert_eq!(reason, "MTU too small."),
        _ => panic!("an MTU of 49 must be refused"),
    }
    assert_eq!(connection.max_transmission_unit(), 1400);
}

#[test]
fn test_set_mtu_resize_when_large_truncate_when_small() {
    let mut connection = ReliableConnection::new(0);
    assert_eq!(connection.payload_buffer_len(), 0);
    assert_eq!(connection.payload_buffer_capacity(), 4272);

    assert!(connection.set_mtu(50).is_ok());
    assert_eq!(connection.max_transmission_unit(), 50);
    assert_eq!(connection.max_segment_size(), 26);
    assert_eq!(connection.payload_buffer_len(), 222);
    assert_eq!(connection.payload_buffer_capacity(), 4272);

    // The buffer doubles its room when it has to grow.
    assert!(connection.set_mtu(1500).is_ok());
    assert_eq!(connection.max_transmission_unit(), 1500);
    assert_eq!(connection.max_segment_size(), 1476);
    assert_eq!(connection.payload_buffer_len(), 4572);
    assert_eq!(connection.payload_buffer_capacity(), 8544);
}

#[test]
fn test_time_diff() {
    let t1 = 0;
    let t2 = 200;

    assert_eq!(time_diff(t2, t1), 200);
    assert_eq!(time_diff(t1, t2), -200);
}

#[test]
fn test_check() {
    let mut connection = ReliableConnection::new(0);
    let current = 1_000;
    assert_eq!(connection.check(current), current);
    connection.update(current);
    assert_eq!(connection.check(current), current + connection.interval());
    let current = current + 200;
    assert_eq!(connection.check(current), current);
}

#[test]
fn time_diff_wraps() {
    assert_eq!(time_diff(5, u32::MAX), 6);
    assert_eq!(time_diff(u32::MAX, 5), -6);
    assert_eq!(time_diff(0x8000_0000, 0), i32::MIN);
    assert_eq!(time_diff(0x7FFF_FFFF, 0), i32::MAX);
    assert_eq!(protocol::serial::offset_from(u32::MAX, 1), 2);
    assert_eq!(protocol::serial::bound(100, 5, 60_000), 100);
    assert_eq!(protocol::serial::bound(100, 70_000, 60_000), 60_000);
    assert_eq!(protocol::serial::bound(100, 250, 60_000), 250);
}

#[test]
fn fresh_connection_has_the_defaults() {
    let c = ReliableConnection::new(42);
    assert_eq!(c.session_id(), 42);
    assert_eq!(c.max_transmission_unit(), 1400);
    assert_eq!(c.max_segment_size(), 1376);
    assert_eq!(c.send_window_size(), 32);
    assert_eq!(c.recv_window_size(), 32);
    assert_eq!(c.remote_window_size(), 32);
    assert_eq!(c.slow_start_threshold(), 2);
    assert_eq!(c.calculated_rto(), 200);
    assert_eq!(c.minimum_rto(), 100);
    assert_eq!(c.interval(), 100);
    assert_eq!(c.congestion_window_size(), 0);
    assert!(!c.is_dead());
    assert_eq!(c.num_segments_awaiting_send(), 0);
    assert_eq!(c.unacked_send_sequence_num(), 0);
    assert_eq!(c.next_send_sequence_num(), 0);
    assert_eq!(c.next_recv_sequence_num(), 0);
}

#[test]
fn fragmentation_round_trip() {
    let mut a = ReliableConnection::new(7);
    let mut b = ReliableConnection::new(7);
    a.set_mtu(50).unwrap();
    b.set_mtu(50).unwrap();
    assert_eq!(a.max_segment_size(), 26);
    let payload: Vec<u8> = (0..100u8).collect();
    a.send(&payload).unwrap();
    assert_eq!(a.num_segments_awaiting_send(), 4);
    let packets = a.update(0);
    assert_eq!(packets.len(), 4);
    let mut fragment_ids = Vec::new();
    for packet in &packets {
        assert!(packet.len() <= 50);
        let (seg, used) = Segment::decode(packet).unwrap();
        assert_eq!(used, packet.len());
        assert_eq!(seg.command, CMD_PUSH);
        fragment_ids.push(seg.fragment_id);
        assert_eq!(b.input(packet).unwrap(), packet.len());
    }
    assert_eq!(fragment_ids, vec![3, 2, 1, 0]);
    let mut out = vec![0u8; 200];
    assert_eq!(b.peek_size().unwrap(), 100);
    assert_eq!(b.recv(&mut out).unwrap(), 100);
    assert_eq!(&out[..100], &payload[..]);
    assert_eq!(out[100], 0);
    assert_eq!(b.recv(&mut out).unwrap_err(), ProtocolError::EmptyRecvQueue);
    assert_eq!(b.recv(&mut out).unwrap_err(), ProtocolError::EmptyRecvQueue);
}

#[test]
fn incomplete_message_is_not_delivered() {
    let mut c = ReliableConnection::new(1);
    c.input(&push(1, 0, 2, b"ab")).unwrap();
    c.input(&push(1, 1, 1, b"cd")).unwrap();
    let mut out = vec![0u8; 16];
    assert_eq!(c.peek_size().unwrap_err(), ProtocolError::IncompleteMessage);
    assert_eq!(c.recv(&mut out).unwrap_err(), ProtocolError::IncompleteMessage);
    c.input(&push(1, 2, 0, b"ef")).unwrap();
    assert_eq!(c.peek_size().unwrap(), 6);
    assert_eq!(c.recv(&mut out).unwrap(), 6);
    assert_eq!(&out[..6], b"abcdef");
}

#[test]
fn rto_retransmit() {
    let mut c = ReliableConnection::new(3);
    c.send(b"hello").unwrap();
    let first = decode_all(&c.update(0));
    assert_eq!(first.len(), 1);
    assert_eq!(first[0].sequence_num, 0);
    let flight = c.in_flight(0).unwrap();
    assert_eq!(flight.xmit, 1);
    assert_eq!(flight.rto, 200);
    assert_eq!(flight.resend_time, 225);
    assert!(c.update(100).is_empty());
    let second = decode_all(&c.update(300));
    assert_eq!(second.len(), 1);
    assert_eq!(second[0].sequence_num, 0);
    assert_eq!(second[0].timestamp, 300);
    assert_eq!(&second[0].data[..], b"hello");
    let flight = c.in_flight(0).unwrap();
    assert_eq!(flight.xmit, 2);
    assert_eq!(flight.rto, 400);
    assert_eq!(flight.resend_time, 700);
}

#[test]
fn rto_retransmit_in_nodelay_mode_grows_by_half() {
    let mut c = ReliableConnection::new(3);
    c.nodelay(1, 10, 0, false);
    assert_eq!(c.minimum_rto(), 30);
    assert_eq!(c.interval(), 10);
    c.send(b"hello").unwrap();
    c.update(0);
    let flight = c.in_flight(0).unwrap();
    assert_eq!((flight.xmit, flight.rto, flight.resend_time), (1, 200, 200));
    c.update(200);
    let flight = c.in_flight(0).unwrap();
    assert_eq!((flight.xmit, flight.rto, flight.resend_time), (2, 300, 500));
}

#[test]
fn fast_retransmit() {
    let mut c = ReliableConnection::new(9);
    c.nodelay(0, 100, 2, false);
    for i in 0..4u8 {
        c.send(&[i]).unwrap();
    }
    let sent = decode_all(&c.update(0));
    assert_eq!(sent.iter().map(|s| s.sequence_num).collect::<Vec<_>>(), vec![0, 1, 2, 3]);
    // Acknowledgements for 1, 2 and 3 arrive one by one; 0 stays out.
    for sn in 1..4 {
        c.input(&control(9, CMD_ACK, 32, 0, sn, 0)).unwrap();
    }
    assert_eq!(c.num_segments_awaiting_send(), 1);
    let held = c.in_flight(0).unwrap();
    assert_eq!(held.sequence_num, 0);
    assert_eq!(held.fastack, 3);
    // Well before the timeout of 225 ms the segment goes out again.
    let again = decode_all(&c.flush());
    assert_eq!(again.len(), 1);
    assert_eq!(again[0].sequence_num, 0);
    let held = c.in_flight(0).unwrap();
    assert_eq!(held.fastack, 0);
    assert_eq!(held.xmit, 2);
}

#[test]
fn fast_retransmit_needs_the_threshold() {
    let mut c = ReliableConnection::new(9);
    c.nodelay(0, 100, 2, false);
    for i in 0..3u8 {
        c.send(&[i]).unwrap();
    }
    c.update(0);
    c.input(&control(9, CMD_ACK, 32, 0, 2, 0)).unwrap();
    assert_eq!(c.in_flight(0).unwrap().fastack, 1);
    assert_eq!(c.in_flight(1).unwrap().fastack, 1);
    assert!(c.flush().is_empty());
}

#[test]
fn zero_window_probe() {
    let mut c = ReliableConnection::new(5);
    c.update(0);
    // The peer advertises a window of 0.
    c.input(&control(5, CMD_WINS, 0, 0, 0, 0)).unwrap();
    assert_eq!(c.remote_window_size(), 0);
    assert!(c.update(100).is_empty());
    assert!(c.update(7_000).is_empty());
    let probes = decode_all(&c.update(7_100));
    assert_eq!(probes.len(), 1);
    assert_eq!(probes[0].command, CMD_WASK);
    // The next probe follows 10.5 s later.
    assert!(c.update(17_500).is_empty());
    let probes = decode_all(&c.update(17_600));
    assert_eq!(probes.len(), 1);
    assert_eq!(probes[0].command, CMD_WASK);
    // An advertisement of room disarms the probe.
    c.input(&control(5, CMD_WINS, 16, 0, 0, 0)).unwrap();
    assert_eq!(c.remote_window_size(), 16);
    for now in [28_000u32, 34_000, 44_000, 60_000] {
        assert!(c.update(now).is_empty());
    }
}

#[test]
fn window_request_is_answered() {
    let mut c = ReliableConnection::new(5);
    c.update(0);
    c.input(&control(5, CMD_WASK, 32, 0, 0, 0)).unwrap();
    let answer = decode_all(&c.update(100));
    assert_eq!(answer.len(), 1);
    assert_eq!(answer[0].command, CMD_WINS);
    assert_eq!(answer[0].window_size, 32);
    assert!(c.update(200).is_empty());
}

#[test]
fn out_of_order_delivery() {
    let mut c = ReliableConnection::new(2);
    c.input(&push(2, 2, 0, b"two")).unwrap();
    assert_eq!((c.num_segments_staged(), c.num_segments_ready()), (1, 0));
    assert_eq!(c.next_recv_sequence_num(), 0);
    c.input(&push(2, 0, 0, b"zero")).unwrap();
    assert_eq!((c.num_segments_staged(), c.num_segments_ready()), (1, 1));
    c.input(&push(2, 1, 0, b"one")).unwrap();
    assert_eq!((c.num_segments_staged(), c.num_segments_ready()), (0, 3));
    assert_eq!(c.next_recv_sequence_num(), 3);
    let mut out = vec![0u8; 8];
    assert_eq!(c.recv(&mut out).unwrap(), 4);
    assert_eq!(&out[..4], b"zero");
    assert_eq!(c.recv(&mut out).unwrap(), 3);
    assert_eq!(&out[..3], b"one");
    assert_eq!(c.recv(&mut out).unwrap(), 3);
    assert_eq!(&out[..3], b"two");
    assert_eq!(c.recv(&mut out).unwrap_err(), ProtocolError::EmptyRecvQueue);
}

#[test]
fn duplicate_push_is_suppressed() {
    let mut c = ReliableConnection::new(2);
    c.input(&push(2, 1, 0, b"one")).unwrap();
    c.input(&push(2, 1, 0, b"one")).unwrap();
    assert_eq!((c.num_segments_staged(), c.num_segments_ready()), (1, 0));
    c.input(&push(2, 0, 0, b"zero")).unwrap();
    c.input(&push(2, 0, 0, b"zero")).unwrap();
    c.input(&push(2, 1, 0, b"one")).unwrap();
    assert_eq!((c.num_segments_staged(), c.num_segments_ready()), (0, 2));
    // Every data segment inside the window is acknowledged, duplicates included.
    let acks = decode_all(&c.update(0));
    assert_eq!(acks.iter().filter(|s| s.command == CMD_ACK).count(), 3);
    assert!(acks.iter().all(|s| s.unacked_sequence_num == 2));
}

#[test]
fn push_outside_the_window_is_dropped() {
    let mut c = ReliableConnection::new(2);
    c.input(&push(2, 32, 0, b"far")).unwrap();
    c.input(&push(2, u32::MAX, 0, b"old")).unwrap();
    assert_eq!((c.num_segments_staged(), c.num_segments_ready()), (0, 0));
    assert!(c.update(0).is_empty());
    c.input(&push(2, 31, 0, b"edge")).unwrap();
    assert_eq!(c.num_segments_staged(), 1);
}

#[test]
fn acknowledgement_is_idempotent() {
    let mut c = ReliableConnection::new(4);
    for i in 0..3u8 {
        c.send(&[i]).unwrap();
    }
    c.update(0);
    c.input(&control(4, CMD_ACK, 32, 0, 1, 0)).unwrap();
    assert_eq!(c.num_segments_awaiting_send(), 2);
    assert_eq!(c.unacked_send_sequence_num(), 0);
    c.input(&control(4, CMD_ACK, 32, 0, 1, 0)).unwrap();
    assert_eq!(c.num_segments_awaiting_send(), 2);
    assert_eq!(c.unacked_send_sequence_num(), 0);
    assert_eq!(c.in_flight(0).unwrap().sequence_num, 0);
    assert_eq!(c.in_flight(1).unwrap().sequence_num, 2);
}

#[test]
fn cumulative_acknowledgement_clears_the_send_buffer() {
    let mut c = ReliableConnection::new(4);
    for i in 0..3u8 {
        c.send(&[i]).unwrap();
    }
    c.update(0);
    assert_eq!(c.next_send_sequence_num(), 3);
    c.input(&control(4, CMD_WINS, 32, 0, 0, 2)).unwrap();
    assert_eq!(c.num_segments_awaiting_send(), 1);
    assert_eq!(c.unacked_send_sequence_num(), 2);
    c.input(&control(4, CMD_WINS, 32, 0, 0, 3)).unwrap();
    assert_eq!(c.num_segments_awaiting_send(), 0);
    assert_eq!(c.unacked_send_sequence_num(), 3);
}

#[test]
fn round_trip_sample_sets_the_timeout() {
    let mut c = ReliableConnection::new(4);
    c.send(b"x").unwrap();
    c.update(1_000);
    c.update(1_050);
    // The acknowledgement echoes the timestamp 1000 and arrives at 1050.
    c.input(&control(4, CMD_ACK, 32, 1_000, 0, 1)).unwrap();
    // srtt = 50, rttvar = 25, rto = 50 + max(100, 100) = 150.
    assert_eq!(c.calculated_rto(), 150);
    c.update(1_150);
    c.send(b"y").unwrap();
    c.update(1_250);
    c.update(1_290);
    c.input(&control(4, CMD_ACK, 32, 1_250, 1, 2)).unwrap();
    // delta = 10, rttvar = (75 + 10) / 4 = 21, srtt = (350 + 40) / 8 = 48, rto = 148.
    assert_eq!(c.calculated_rto(), 148);
}

#[test]
fn timeout_stays_within_floor_and_ceiling() {
    let mut c = ReliableConnection::new(4);
    c.send(b"x").unwrap();
    c.update(0);
    c.update(5);
    c.input(&control(4, CMD_ACK, 32, 0, 0, 1)).unwrap();
    // srtt = 5, rttvar = 2, rto = 5 + max(100, 8) = 105.
    assert_eq!(c.calculated_rto(), 105);
    c.send(b"y").unwrap();
    c.update(200);
    c.update(2_000_000);
    c.input(&control(4, CMD_ACK, 32, 200, 1, 2)).unwrap();
    assert_eq!(c.calculated_rto(), 60_000);
}

#[test]
fn congestion_window_opens_with_the_first_update() {
    let mut c = ReliableConnection::new(4);
    assert_eq!(c.congestion_window_size(), 0);
    c.update(0);
    assert_eq!(c.congestion_window_size(), 1);
}

#[test]
fn congestion_window_grows_and_shrinks() {
    let mut c = ReliableConnection::new(4);
    c.nodelay(0, 100, 0, true);
    for i in 0..8u8 {
        c.send(&[i]).unwrap();
    }
    // The window is closed until the first flush has opened it.
    assert!(c.update(0).is_empty());
    assert_eq!(c.congestion_window_size(), 1);
    // With a window of one segment only one segment is admitted.
    assert_eq!(decode_all(&c.update(100)).len(), 1);
    c.input(&control(4, CMD_ACK, 32, 100, 0, 1)).unwrap();
    // Slow start: one more segment for an input that moves `una`.
    assert_eq!(c.congestion_window_size(), 2);
    assert_eq!(decode_all(&c.update(200)).len(), 2);
    c.input(&control(4, CMD_ACK, 32, 200, 1, 2)).unwrap();
    // At the threshold of 2: incr = max(2752, 1376) + 1376 * 1376 / 2752 + 86 = 3526,
    // which does not yet pay for a third segment (4128).
    assert_eq!(c.congestion_window_size(), 2);
    // A timeout puts the window back to one segment.
    let resent = decode_all(&c.update(1_000));
    assert!(resent.iter().any(|s| s.sequence_num == 2));
    assert_eq!(c.congestion_window_size(), 1);
    assert_eq!(c.slow_start_threshold(), 2);
}

#[test]
fn input_errors() {
    let mut c = ReliableConnection::new(4);
    assert_eq!(c.input(&[]).unwrap_err(), ProtocolError::BufferTooSmall);
    assert_eq!(c.input(&[0u8; 23]).unwrap_err(), ProtocolError::BufferTooSmall);
    assert_eq!(
        c.input(&push(5, 0, 0, b"x")).unwrap_err(),
        ProtocolError::InvalidSessionId
    );
    let mut cut = push(4, 0, 0, b"payload");
    cut.truncate(27);
    assert_eq!(c.input(&cut).unwrap_err(), ProtocolError::IncompleteMessage);
    assert_eq!(
        c.input(&control(4, 85, 32, 0, 0, 0)).unwrap_err(),
        ProtocolError::InvalidCommand
    );
    assert_eq!(
        c.input(&control(4, 80, 32, 0, 0, 0)).unwrap_err(),
        ProtocolError::InvalidCommand
    );
    assert_eq!(c.num_segments_ready(), 0);
}

#[test]
fn input_keeps_what_came_before_an_error() {
    let mut c = ReliableConnection::new(4);
    let mut bytes = push(4, 0, 0, b"good");
    bytes.extend_from_slice(&push(9, 1, 0, b"bad"));
    assert_eq!(c.input(&bytes).unwrap_err(), ProtocolError::InvalidSessionId);
    assert_eq!(c.num_segments_ready(), 1);
}

#[test]
fn input_takes_several_segments_and_leaves_a_short_tail() {
    let mut c = ReliableConnection::new(4);
    let mut bytes = push(4, 0, 0, b"a");
    bytes.extend_from_slice(&push(4, 1, 0, b"bc"));
    bytes.extend_from_slice(&[1, 2, 3]);
    assert_eq!(c.input(&bytes).unwrap(), 25 + 26);
    assert_eq!(c.num_segments_ready(), 2);
}

#[test]
fn send_errors() {
    let mut c = ReliableConnection::new(4);
    c.set_mtu(50).unwrap();
    // 32 fragments of 26 bytes are as many as the receive window has slots.
    assert_eq!(
        c.send(&vec![0u8; 26 * 31 + 1]).unwrap_err(),
        ProtocolError::FragmentsGreaterThanWindowSize
    );
    assert_eq!(c.num_segments_awaiting_send(), 0);
    c.send(&vec![0u8; 26 * 31]).unwrap();
    assert_eq!(c.num_segments_awaiting_send(), 31);
    c.set_window_sizes(32, 1000);
    assert_eq!(
        c.send(&vec![0u8; 26 * 256 + 1]).unwrap_err(),
        ProtocolError::FragmentsGreaterThanWindowSize
    );
    c.send(&vec![0u8; 26 * 256]).unwrap();
    assert_eq!(c.num_segments_awaiting_send(), 31 + 256);
}

#[test]
fn streaming_mode_fills_the_last_segment() {
    let mut a = ReliableConnection::new(4);
    let mut b = ReliableConnection::new(4);
    a.set_mtu(50).unwrap();
    a.set_streaming_mode(true);
    a.send(&[1u8; 20]).unwrap();
    assert_eq!(a.num_segments_awaiting_send(), 1);
    a.send(&[2u8; 10]).unwrap();
    // Six bytes fill the first segment, four start a second one.
    assert_eq!(a.num_segments_awaiting_send(), 2);
    a.send(&[3u8; 4]).unwrap();
    assert_eq!(a.num_segments_awaiting_send(), 2);
    let sent = decode_all(&a.update(0));
    assert_eq!(sent.len(), 2);
    assert_eq!(sent[0].data.len(), 26);
    assert_eq!(sent[1].data.len(), 8);
    assert!(sent.iter().all(|s| s.fragment_id == 0));
    for s in &sent {
        b.input(&encode(s)).unwrap();
    }
    let mut out = vec![0u8; 64];
    assert_eq!(b.recv(&mut out).unwrap(), 26);
    assert_eq!(&out[..26], &[[1u8; 20].as_slice(), [2u8; 6].as_slice()].concat()[..]);
    assert_eq!(b.recv(&mut out).unwrap(), 8);
    assert_eq!(&out[..8], &[2, 2, 2, 2, 3, 3, 3, 3]);
}

#[test]
fn packets_hold_as_many_segments_as_fit() {
    let mut c = ReliableConnection::new(4);
    c.set_mtu(100).unwrap();
    for i in 0..5u8 {
        c.send(&[i; 10]).unwrap();
    }
    // Each segment takes 34 bytes: two fit into one packet of at most 100 bytes.
    let packets = c.update(0);
    assert_eq!(packets.iter().map(|p| p.len()).collect::<Vec<_>>(), vec![68, 68, 34]);
    assert_eq!(decode_all(&packets).len(), 5);
    assert_eq!(c.payload_buffer_len(), 0);
}

#[test]
fn send_window_limits_what_is_in_flight() {
    let mut c = ReliableConnection::new(4);
    c.set_window_sizes(2, 32);
    for i in 0..5u8 {
        c.send(&[i]).unwrap();
    }
    assert_eq!(decode_all(&c.update(0)).len(), 2);
    assert_eq!(c.next_send_sequence_num(), 2);
    c.input(&control(4, CMD_ACK, 32, 0, 0, 1)).unwrap();
    let next = decode_all(&c.update(100));
    assert_eq!(next.len(), 1);
    assert_eq!(next[0].sequence_num, 2);
}

#[test]
fn sequence_numbers_wrap() {
    let mut a = ReliableConnection::new(4);
    let mut b = ReliableConnection::new(4);
    a.set_window_sizes(4, 32);
    let mut now = 0u32;
    let mut out = vec![0u8; 8];
    // Walks both ends through 70 000 single-segment messages: the 16-bit boundary of
    // the window arithmetic is crossed, and the numbers stay in step.
    for i in 0..70_000u32 {
        a.send(&i.to_be_bytes()).unwrap();
        for packet in a.update(now) {
            b.input(&packet).unwrap();
        }
        assert_eq!(b.recv(&mut out).unwrap(), 4);
        assert_eq!(&out[..4], &i.to_be_bytes());
        for packet in b.update(now) {
            a.input(&packet).unwrap();
        }
        now = now.wrapping_add(100);
    }
    assert_eq!(a.next_send_sequence_num(), 70_000);
    assert_eq!(a.num_segments_awaiting_send(), 0);
    assert_eq!(b.next_recv_sequence_num(), 70_000);
}

#[test]
fn dead_link_stops_the_connection() {
    let mut c = ReliableConnection::new(4);
    c.send(b"lost").unwrap();
    let mut now = 0u32;
    let mut transmissions = 0;
    for _ in 0..100_000 {
        transmissions += decode_all(&c.update(now)).len();
        now += 100;
        if c.is_dead() {
            break;
        }
    }
    assert!(c.is_dead());
    assert_eq!(transmissions, 20);
    assert_eq!(c.in_flight(0).unwrap().xmit, 20);
    assert!(c.update(now + 1_000_000).is_empty());
    assert!(c.flush().is_empty());
    // On a dead link nothing more is accepted for sending.
    match c.send(b"more") {
        Err(ProtocolError::IOError(e)) => assert_eq!(e.kind(), std::io::ErrorKind::NotConnected),
        _ => panic!("a dead link takes no payload"),
    }
    assert_eq!(c.send(b"").unwrap_err(), ProtocolError::EmptyPayload);
    assert_eq!(c.num_segments_awaiting_send(), 1);
}

#[test]
fn nodelay_keeps_settings_for_negative_numbers() {
    let mut c = ReliableConnection::new(4);
    c.nodelay(1, 20, 2, true);
    assert_eq!((c.minimum_rto(), c.interval()), (30, 20));
    c.nodelay(-1, -1, -1, true);
    assert_eq!((c.minimum_rto(), c.interval()), (30, 20));
    c.nodelay(0, 3, 0, false);
    assert_eq!((c.minimum_rto(), c.interval()), (100, 10));
    c.nodelay(0, 9_000, 0, false);
    assert_eq!(c.interval(), 5_000);
}

#[test]
fn window_commands_repeat_the_last_acknowledgement() {
    let mut c = ReliableConnection::new(4);
    c.update(0);
    let mut seg = Segment::new(BytesMut::from(&b"x"[..]));
    seg.session_id = 4;
    seg.command = CMD_PUSH;
    seg.window_size = 32;
    seg.timestamp = 77;
    seg.sequence_num = 0;
    c.input(&encode(&seg)).unwrap();
    c.input(&control(4, CMD_WASK, 32, 0, 0, 0)).unwrap();
    let out = decode_all(&c.update(100));
    assert_eq!(out.len(), 2);
    assert_eq!((out[0].command, out[0].sequence_num, out[0].timestamp), (CMD_ACK, 0, 77));
    assert_eq!((out[1].command, out[1].sequence_num, out[1].timestamp), (CMD_WINS, 0, 77));
    assert_eq!(out[1].window_size, 31);
    assert_eq!(out[1].unacked_sequence_num, 1);
}

#[test]
fn numbers_in_flight_lie_between_una_and_next() {
    let mut c = ReliableConnection::new(4);
    for i in 0..6u8 {
        c.send(&[i]).unwrap();
    }
    c.update(0);
    c.input(&control(4, CMD_ACK, 32, 0, 3, 0)).unwrap();
    c.input(&control(4, CMD_ACK, 32, 0, 0, 0)).unwrap();
    let una = c.unacked_send_sequence_num();
    let next = c.next_send_sequence_num();
    assert_eq!((una, next), (1, 6));
    let mut numbers = Vec::new();
    let mut index = 0;
    while let Some(flight) = c.in_flight(index) {
        numbers.push(flight.sequence_num);
        index += 1;
    }
    assert_eq!(numbers, vec![1, 2, 4, 5]);
    assert_eq!(numbers[0], una);
    assert!(numbers.windows(2).all(|w| w[0] < w[1]));
    assert!(numbers.iter().all(|sn| una <= *sn && *sn < next));
    assert!(c.in_flight(index).is_none());
}

#[test]
fn recv_from_a_full_queue_tells_the_window() {
    let mut c = ReliableConnection::new(4);
    c.set_window_sizes(32, 2);
    c.update(0);
    for sn in 0..2 {
        c.input(&push(4, sn, 0, b"x")).unwrap();
    }
    assert_eq!(c.num_open_slots_in_recv_queue(), 0);
    let acks = decode_all(&c.update(100));
    assert_eq!(acks.len(), 2);
    assert!(acks.iter().all(|s| s.command == CMD_ACK && s.window_size == 0));
    let mut out = [0u8; 4];
    assert_eq!(c.recv(&mut out).unwrap(), 1);
    let told = decode_all(&c.update(200));
    assert_eq!(told.len(), 1);
    assert_eq!(told[0].command, CMD_WINS);
    assert_eq!(told[0].window_size, 1);
    // A delivery from a queue that was not full tells nothing.
    assert_eq!(c.recv(&mut out).unwrap(), 1);
    assert!(c.update(300).is_empty());
}

#[test]
fn staged_segments_wait_for_room_in_the_queue() {
    let mut c = ReliableConnection::new(4);
    c.set_window_sizes(32, 2);
    for sn in 0..2 {
        c.input(&push(4, sn, 0, &[sn as u8])).unwrap();
    }
    // The window is counted from the next number expected, which is 2 now.
    c.input(&push(4, 2, 0, &[2])).unwrap();
    c.input(&push(4, 3, 0, &[3])).unwrap();
    c.input(&push(4, 4, 0, &[4])).unwrap();
    assert_eq!((c.num_segments_staged(), c.num_segments_ready()), (2, 2));
    let mut out = [0u8; 4];
    assert_eq!(c.recv(&mut out).unwrap(), 1);
    assert_eq!(out[0], 0);
    assert_eq!((c.num_segments_staged(), c.num_segments_ready()), (1, 2));
    assert_eq!(c.next_recv_sequence_num(), 3);
}

#[test]
fn check_waits_for_the_next_segment_due() {
    let mut c = ReliableConnection::new(4);
    c.nodelay(0, 5_000, 0, false);
    c.send(b"x").unwrap();
    c.update(1_000);
    // The segment is due again at 1225; the next flush at 6000.
    assert_eq!(c.in_flight(0).unwrap().resend_time, 1_225);
    assert_eq!(c.check(1_100), 1_225);
    assert_eq!(c.check(1_225), 1_225);
    assert_eq!(c.check(1_300), 1_300);
    c.input(&control(4, CMD_ACK, 32, 1_000, 0, 1)).unwrap();
    assert_eq!(c.check(1_100), 6_000);
    assert_eq!(c.check(6_000), 6_000);
    // However far ahead the next flush lies, the next update is wanted one interval
    // from now at the latest, and never at once.
    let early = 6_000u32.wrapping_sub(10_000);
    assert_eq!(c.check(early), early.wrapping_add(5_000));
    let earlier = 6_000u32.wrapping_sub(2_000_000_000);
    assert_eq!(c.check(earlier), earlier.wrapping_add(5_000));
    assert_eq!(c.check(5_999), 6_000);
}

#[test]
fn check_names_a_later_time_when_the_flush_is_ten_seconds_ahead() {
    let mut c = ReliableConnection::new(0);
    c.update(10_000);
    // The next flush is planned for 10100; at 100 it is exactly ten seconds ahead.
    assert_eq!(c.check(100), 200);
    assert!(c.update(100).is_empty());
    assert_eq!(c.check(10_050), 10_100);
}

#[test]
fn nodelay_raises_the_timeout_to_a_higher_floor() {
    let mut c = ReliableConnection::new(1);
    c.nodelay(1, 10, 0, false);
    c.send(b"x").unwrap();
    c.update(0);
    c.update(5);
    c.input(&control(1, CMD_ACK, 32, 0, 0, 1)).unwrap();
    // srtt = 5, rttvar = 2, rto = 5 + max(10, 8) = 15, held at the floor of 30.
    assert_eq!((c.minimum_rto(), c.calculated_rto()), (30, 30));
    c.nodelay(0, 10, 0, false);
    assert_eq!((c.minimum_rto(), c.calculated_rto()), (100, 100));
    // A lower floor leaves the timeout where it is.
    c.nodelay(1, 10, 0, false);
    assert_eq!((c.minimum_rto(), c.calculated_rto()), (30, 100));
    c.nodelay(-1, 10, 0, false);
    assert_eq!((c.minimum_rto(), c.calculated_rto()), (30, 100));
}

#[test]
fn dropped_data_segments_are_counted() {
    let mut c = ReliableConnection::new(2);
    assert_eq!(c.num_segments_dropped(), 0);
    c.input(&push(2, 1, 0, b"one")).unwrap();
    assert_eq!(c.num_segments_dropped(), 0);
    // Staged already.
    c.input(&push(2, 1, 0, b"one")).unwrap();
    assert_eq!(c.num_segments_dropped(), 1);
    // Beyond the window, and before it.
    c.input(&push(2, 32, 0, b"far")).unwrap();
    c.input(&push(2, u32::MAX, 0, b"old")).unwrap();
    assert_eq!(c.num_segments_dropped(), 3);
    c.input(&push(2, 0, 0, b"zero")).unwrap();
    assert_eq!(c.num_segments_dropped(), 3);
    // Delivered to the queue already: before the window now.
    c.input(&push(2, 0, 0, b"zero")).unwrap();
    assert_eq!(c.num_segments_dropped(), 4);
    // Acknowledgements and window commands are never dropped.
    c.input(&control(2, CMD_ACK, 32, 0, 7, 0)).unwrap();
    c.input(&control(2, CMD_WINS, 32, 0, 0, 0)).unwrap();
    assert_eq!(c.num_segments_dropped(), 4);
    assert_eq!(c.take_dropped(), 4);
    assert_eq!(c.num_segments_dropped(), 0);
    assert_eq!(c.take_dropped(), 0);
    assert_eq!((c.num_segments_staged(), c.num_segments_ready()), (0, 2));
}

#[test]
fn update_resets_a_plan_that_is_far_off() {
    let mut c = ReliableConnection::new(4);
    c.update(0);
    assert_eq!(c.check(0), 100);
    // Twenty seconds later the plan of 100 is dropped for one from now.
    c.update(20_000);
    assert_eq!(c.check(20_000), 20_100);
    // An update before the flush is due waits.
    c.send(b"x").unwrap();
    assert!(c.update(20_050).is_empty());
    assert_eq!(decode_all(&c.update(20_100)).len(), 1);
    assert_eq!(c.check(20_100), 20_200);
}

#[test]
fn encoding_buffer_has_room_for_what_it_holds() {
    let mut c = ReliableConnection::new(4);
    assert!(c.payload_buffer_capacity() >= c.payload_buffer_len());
    for mtu in [50usize, 1_500, 9_000, 576] {
        c.set_mtu(mtu).unwrap();
        assert_eq!(c.payload_buffer_len(), (mtu + 24) * 3);
        assert!(c.payload_buffer_capacity() >= (mtu + 24) * 3);
    }
    c.send(b"x").unwrap();
    c.update(0);
    assert_eq!(c.payload_buffer_len(), 0);
    assert!(c.payload_buffer_capacity() >= (9_000 + 24) * 3);
}
