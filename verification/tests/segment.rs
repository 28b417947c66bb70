use bytes::BytesMut;
use protocol::errors::ProtocolError;
use protocol::segment::{Header, Segment};

#[test]
fn header_is_big_endian() {
    let mut seg = Segment::new(BytesMut::from(&[0xAAu8, 0xBB][..]));
    seg.session_id = 0x0102_0304;
    seg.command = 81;
    seg.fragment_id = 7;
    seg.window_size = 0x0506;
    seg.timestamp = 0x0708_090A;
    seg.sequence_num = 0x0B0C_0D0E;
    seg.unacked_sequence_num = 0x0F10_1112;
    let mut buf = BytesMut::from(&[0xFFu8][..]);
    seg.encode(&mut buf);
    assert_eq!(
        &buf[..],
        &[
            0xFF, 1, 2, 3, 4, 81, 7, 5, 6, 7, 8, 9, 10, 11, 12, 13, 14, 15, 16, 17, 18, 0, 0, 0,
            2, 0xAA, 0xBB
        ][..]
    );
}

#[test]
fn decode_reads_back_what_encode_wrote() {
    let payload: Vec<u8> = (0..300u32).map(|i| (i * 7) as u8).collect();
    let mut seg = Segment::new(BytesMut::from(&payload[..]));
    seg.session_id = 0xDEAD_BEEF;
    seg.command = 82;
    seg.fragment_id = 255;
    seg.window_size = 65535;
    seg.timestamp = u32::MAX;
    seg.sequence_num = 1;
    seg.unacked_sequence_num = 0x8000_0000;
    let mut buf = BytesMut::new();
    seg.encode(&mut buf);
    buf.extend_from_slice(b"what follows");
    let (back, used) = Segment::decode(&buf).unwrap();
    assert_eq!(used, 24 + 300);
    assert_eq!(back.session_id, 0xDEAD_BEEF);
    assert_eq!(back.command, 82);
    assert_eq!(back.fragment_id, 255);
    assert_eq!(back.window_size, 65535);
    assert_eq!(back.timestamp, u32::MAX);
    assert_eq!(back.sequence_num, 1);
    assert_eq!(back.unacked_sequence_num, 0x8000_0000);
    assert_eq!(&back.data[..], &payload[..]);
    assert_eq!((back.resend_time, back.rto, back.fastack, back.xmit), (0, 0, 0, 0));
    assert_eq!(back.len(), 300);
}

#[test]
fn bookkeeping_is_never_on_the_wire() {
    let mut seg = Segment::default();
    seg.command = 83;
    seg.resend_time = 5;
    seg.rto = 6;
    seg.fastack = 7;
    seg.xmit = 8;
    let mut buf = BytesMut::new();
    seg.encode(&mut buf);
    assert_eq!(buf.len(), 24);
    let (back, _) = Segment::decode(&buf).unwrap();
    assert_eq!((back.resend_time, back.rto, back.fastack, back.xmit), (0, 0, 0, 0));
}

#[test]
fn decode_errors() {
    assert_eq!(Segment::decode(&[0u8; 23]).unwrap_err(), ProtocolError::BufferTooSmall);
    let mut bytes = vec![0u8; 24];
    bytes[4] = 81;
    bytes[23] = 1;
    assert_eq!(Segment::decode(&bytes).unwrap_err(), ProtocolError::IncompleteMessage);
    bytes.push(9);
    assert!(Segment::decode(&bytes).is_ok());
    for command in [0u8, 80, 85, 255] {
        bytes[4] = command;
        assert_eq!(Segment::decode(&bytes).unwrap_err(), ProtocolError::InvalidCommand);
    }
    for command in 81u8..=84 {
        bytes[4] = command;
        assert_eq!(Segment::decode(&bytes).unwrap().1, 25);
    }
}

#[test]
fn header_reads_and_writes_24_bytes() {
    let bytes: Vec<u8> = (1..=30u8).collect();
    let header = Header::read(&bytes, 3);
    assert_eq!(header.session_id, 0x0405_0607);
    assert_eq!(header.command, 8);
    assert_eq!(header.fragment_id, 9);
    assert_eq!(header.window_size, 0x0A0B);
    assert_eq!(header.timestamp, 0x0C0D_0E0F);
    assert_eq!(header.sequence_num, 0x1011_1213);
    assert_eq!(header.unacked_sequence_num, 0x1415_1617);
    assert_eq!(header.length, 0x1819_1A1B);
    assert_eq!(header.to_bytes(), bytes[3..27].to_vec());
}

#[test]
fn errors_compare_by_kind() {
    assert_eq!(ProtocolError::PayloadTooLarge(1, 2), ProtocolError::PayloadTooLarge(3, 4));
    assert_eq!(ProtocolError::InvalidSessionId, ProtocolError::InvalidSessionId);
    assert_eq!(ProtocolError::InvalidCommand, ProtocolError::InvalidCommand);
    assert_ne!(ProtocolError::InvalidCommand, ProtocolError::InvalidSessionId);
    assert_ne!(ProtocolError::EmptyPayload, ProtocolError::EmptyRecvQueue);
    let io = std::io::Error::new(std::io::ErrorKind::Other, "sink");
    assert_eq!(
        ProtocolError::from(io),
        ProtocolError::IOError(std::io::Error::new(std::io::ErrorKind::Other, "other"))
    );
}

#[test]
fn checksum_is_the_crc_of_version_and_payload() {
    // The check value of CRC-32: the checksum of the digits 1 to 9.
    assert_eq!(protocol::checksum::calc_checksum(b"", b"123456789"), 0xCBF4_3926);
    assert_eq!(protocol::checksum::calc_checksum(b"1234", b"56789"), 0xCBF4_3926);
    assert_eq!(protocol::checksum::calc_checksum(b"", b""), 0);
    assert_ne!(
        protocol::checksum::calc_checksum(b"protocol-0.1", b"payload"),
        protocol::checksum::calc_checksum(b"protocol-0.2", b"payload")
    );
}

#[test]
fn errors_say_what_went_wrong() {
    assert_eq!(
        ProtocolError::EmptyPayload.message(),
        "Attempted to send an empty buffer."
    );
    assert_eq!(
        ProtocolError::PayloadTooLarge(12, 2).message(),
        "The payload size (12 bytes) was bigger than the max allowed size (2 bytes)."
    );
    assert_eq!(
        ProtocolError::PayloadTooLarge(0, 18446744073709551615).message(),
        "The payload size (0 bytes) was bigger than the max allowed size (18446744073709551615 bytes)."
    );
    assert_eq!(
        ProtocolError::InvalidConfiguration("MTU too small.").message(),
        "Invalid Configuration: MTU too small."
    );
    assert_eq!(ProtocolError::InvalidCommand.message(), "Unrecognized command.");
    assert_eq!(ProtocolError::InvalidSessionId.message(), "Session id doesn't match.");
    assert_eq!(
        ProtocolError::InvalidStreamId.message(),
        "The desired stream id is too large."
    );
    assert_eq!(
        ProtocolError::EmptyRecvQueue.message(),
        "Attempted to recv when the recv_queue is empty."
    );
    assert_eq!(
        ProtocolError::BufferTooSmall.message(),
        "Attempted to recv with a buffer too small to hold the payload."
    );
    assert_eq!(
        ProtocolError::IncompleteMessage.message(),
        "Attempted to peek_size on an incomplete or missing message"
    );
    assert_eq!(
        ProtocolError::FragmentsGreaterThanWindowSize.message(),
        "Number of fragments required is greater than the window size."
    );
    let io = ProtocolError::IOError(std::io::Error::new(std::io::ErrorKind::Other, "sink"));
    assert!(io.message().starts_with("An IO Error occurred. Reason: "));
    assert!(io.message().ends_with("."));
    assert_eq!(protocol::text::decimal_text(0), "0");
    assert_eq!(protocol::text::decimal_text(9), "9");
    assert_eq!(protocol::text::decimal_text(10), "10");
    assert_eq!(protocol::text::decimal_text(1_234_567_890), "1234567890");
}
