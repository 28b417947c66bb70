use protocol::connection::ReliableConnection;
use protocol::errors::ProtocolError;

/// A small linear congruential generator: the tests need the same numbers each run.
fn next(seed: &mut u64) -> u64 {
    *seed = seed.wrapping_mul(6364136223846793005).wrapping_add(1442695040888963407);
    *seed >> 33
}

fn drain(connection: &mut ReliableConnection, into: &mut Vec<Vec<u8>>) {
    let mut buffer = vec![0u8; 32 * 1376];
    loop {
        match connection.recv(&mut buffer) {
            Ok(size) => into.push(buffer[..size].to_vec()),
            Err(ProtocolError::EmptyRecvQueue) | Err(ProtocolError::IncompleteMessage) => break,
            Err(e) => panic!("unexpected error: {:?}", e),
        }
    }
}

/// Sends `messages` from one connection to another over a link that loses,
/// repeats and reorders data packets, and returns what the receiver delivered.
fn exchange(messages: &[Vec<u8>], loss: u64, repeat: u64, congestion: bool) -> Vec<Vec<u8>> {
    let mut sender = ReliableConnection::new(11);
    let mut receiver = ReliableConnection::new(11);
    sender.nodelay(1, 10, 2, congestion);
    receiver.nodelay(1, 10, 2, congestion);
    let mut seed = 7u64;
    let mut delivered = Vec::new();
    let mut late: Vec<Vec<u8>> = Vec::new();
    let mut queued = 0;
    let mut now = 0u32.wrapping_sub(5_000);
    for _ in 0..200_000 {
        while queued < messages.len() && sender.num_segments_awaiting_send() < 64 {
            sender.send(&messages[queued]).unwrap();
            queued += 1;
        }
        let mut arriving: Vec<Vec<u8>> = late.drain(..).rev().collect();
        for packet in sender.update(now) {
            let fate = next(&mut seed) % 100;
            if fate < loss {
                continue;
            }
            if fate < loss + repeat {
                arriving.push(packet.clone());
            }
            if next(&mut seed) % 4 == 0 {
                late.push(packet);
            } else {
                arriving.push(packet);
            }
        }
        for packet in arriving {
            assert_eq!(receiver.input(&packet).unwrap(), packet.len());
        }
        drain(&mut receiver, &mut delivered);
        for packet in receiver.update(now) {
            assert_eq!(sender.input(&packet).unwrap(), packet.len());
        }
        assert!(!sender.is_dead());
        if delivered.len() == messages.len() && sender.num_segments_awaiting_send() == 0 {
            break;
        }
        now = now.wrapping_add(10);
    }
    delivered
}

fn messages(count: usize, longest: u64) -> Vec<Vec<u8>> {
    let mut seed = 99u64;
    (0..count)
        .map(|i| {
            let len = 1 + (next(&mut seed) % longest) as usize;
            (0..len).map(|j| (i * 31 + j) as u8).collect()
        })
        .collect()
}

#[test]
fn messages_arrive_in_order_over_a_clean_link() {
    let sent = messages(300, 4_000);
    assert_eq!(exchange(&sent, 0, 0, false), sent);
}

#[test]
fn messages_arrive_in_order_over_a_lossy_link() {
    let sent = messages(200, 4_000);
    assert_eq!(exchange(&sent, 20, 10, false), sent);
}

#[test]
fn messages_arrive_in_order_with_congestion_control() {
    let sent = messages(200, 3_000);
    assert_eq!(exchange(&sent, 10, 5, true), sent);
}

#[test]
fn long_messages_arrive_whole() {
    let sent = messages(40, 30_000);
    assert!(sent.iter().any(|m| m.len() > 20_000));
    assert_eq!(exchange(&sent, 15, 15, true), sent);
}
