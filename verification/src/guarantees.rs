//! What a datagram can ask of the protocol: whether it must arrive, and in what order.
use vstd::prelude::*;

verus! {

/// Whether lost datagrams are sent again.
#[derive(Copy, Clone, Debug, PartialEq, Eq, Structural)]
pub enum DeliveryGuarantee {
    /// May be lost.
    Unreliable,
    /// Is sent again until acknowledged; duplicates are dropped.
    Reliable,
}

/// In what order datagrams of one stream reach the application.
#[derive(Copy, Clone, Debug, PartialEq, Eq, Structural)]
pub enum OrderingGuarantee {
    /// As they arrive.
    Unordered,
    /// In the order sent.
    Ordered,
    /// Only the newest; older ones are dropped.
    Sequenced,
}

} // verus!
