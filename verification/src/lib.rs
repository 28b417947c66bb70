//! A reliable-datagram protocol over an unreliable packet transport.
//!
//! The heart of the crate is [`ReliableConnection`], a per-connection ARQ engine with
//! send and receive windows, cumulative and selective acknowledgements, fast retransmit,
//! a smoothed round-trip estimator, congestion control and zero-window probing. The engine
//! never reads a clock and never touches a socket: time comes in as a parameter and encoded
//! packets go out as plain byte vectors.
//!
//! Every executable function is verified against a contract. The contracts of the engine
//! are stated over [`state::ConnectionView`], the state of a connection as a mathematical
//! value, and [`engine`], which says for each operation what state follows; [`laws`] holds
//! what follows from these for every run of the engine. What is taken on trust of the
//! `bytes` and `crc` crates is gathered in [`buffer`] and [`checksum`]; [`errors`] takes
//! the host's I/O error on trust.
// Arithmetic and bytes.
pub mod buffer;
pub mod checksum;
pub mod runs;
pub mod serial;
pub mod text;
pub mod wire;

// The wire record and the errors.
pub mod errors;
pub mod segment;

// The parts of the reliability engine.
pub mod congestion;
pub mod estimator;
pub mod fragment;
pub mod inflight;
pub mod message;
pub mod packing;
pub mod probe;
pub mod staging;
pub mod transmit;

// The engine: its state, its state machine, the executable engine and its laws.
pub mod connection;
pub mod engine;
pub mod laws;
pub mod state;

// What sits on top of the engine.
pub mod config;
pub mod datagram;
pub mod delivery;
pub mod endpoint;
pub mod guarantees;
pub mod metrics;
pub mod sequence_buffer;
pub mod streams;

pub use crate::connection::ReliableConnection;
pub use crate::datagram::Datagram;
pub use crate::endpoint::Endpoint;
pub use crate::errors::{ErrorKind, ProtocolError, ProtocolResult};
pub use crate::segment::Segment;

use vstd::prelude::*;

verus! {

/// Minimum retransmission timeout in no-delay mode, in milliseconds.
pub const RTO_NDL: u32 = 30;

/// Minimum retransmission timeout in normal mode, in milliseconds.
pub const RTO_MIN: u32 = 100;

/// Retransmission timeout of a fresh connection, in milliseconds.
pub const RTO_DEF: u32 = 200;

/// Largest retransmission timeout the estimator ever yields, in milliseconds.
pub const RTO_MAX: u32 = 60_000;

/// Command: the segment carries payload data.
pub const CMD_PUSH: u8 = 81;

/// Command: the segment acknowledges one sequence number.
pub const CMD_ACK: u8 = 82;

/// Command: the sender asks for the peer's window.
pub const CMD_WASK: u8 = 83;

/// Command: the sender tells its window.
pub const CMD_WINS: u8 = 84;

/// Default send window, in segments.
pub const SEND_WINDOW_SIZE: usize = 32;

/// Default receive window, in segments.
pub const RECV_WINDOW_SIZE: usize = 32;

/// Default maximum transmission unit, in bytes.
pub const DEFAULT_MTU: usize = 1_400;

/// Smallest maximum transmission unit a connection accepts, in bytes.
pub const MIN_MTU: usize = 50;

/// Default flush interval, in milliseconds.
pub const INTERVAL: u32 = 100;

/// Size of the segment header on the wire, in bytes.
pub const PROTOCOL_OVERHEAD: usize = 24;

/// Number of transmissions of one segment after which the link counts as dead.
pub const DEADLINK: u32 = 20;

/// Slow-start threshold of a fresh connection, in segments.
pub const THRESH_INIT: u32 = 2;

/// Smallest slow-start threshold, in segments.
pub const THRESH_MIN: u32 = 2;

/// First wait before probing a closed peer window, in milliseconds.
pub const PROBE_INIT: u32 = 7_000;

/// Longest wait between two window probes, in milliseconds.
pub const PROBE_LIMIT: u32 = 120_000;

} // verus!
