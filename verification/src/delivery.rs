//! The five ways in which a datagram can travel.
use crate::guarantees::{DeliveryGuarantee as Delivery, OrderingGuarantee};
use vstd::prelude::*;

verus! {

/// How a datagram travels: what the pair of its delivery and ordering guarantees
/// comes to.
#[derive(Copy, Clone, Debug, PartialEq, Eq, Structural)]
pub enum DeliveryGuarantee {
    /// Bare datagram. May arrive out of order, or not at all.
    Unreliable,
    /// As unreliable, but only the newest is accepted; older ones are dropped.
    Sequenced,
    /// Sent again until it arrives; duplicates are dropped.
    Reliable,
    /// Reliable, and handed on in the order sent.
    ReliableOrdered,
    /// Reliable, but only the newest is accepted.
    ReliableSequenced,
}

/// The way of travel that a pair of guarantees comes to; there is none for a
/// datagram that may be lost and yet must stay in order.
pub open spec fn combined(delivery: Delivery, ordering: OrderingGuarantee) -> Option<
    DeliveryGuarantee,
> {
    match (delivery, ordering) {
        (Delivery::Unreliable, OrderingGuarantee::Unordered) => Some(DeliveryGuarantee::Unreliable),
        (Delivery::Unreliable, OrderingGuarantee::Sequenced) => Some(DeliveryGuarantee::Sequenced),
        (Delivery::Unreliable, OrderingGuarantee::Ordered) => None,
        (Delivery::Reliable, OrderingGuarantee::Unordered) => Some(DeliveryGuarantee::Reliable),
        (Delivery::Reliable, OrderingGuarantee::Sequenced) => Some(
            DeliveryGuarantee::ReliableSequenced,
        ),
        (Delivery::Reliable, OrderingGuarantee::Ordered) => Some(DeliveryGuarantee::ReliableOrdered),
    }
}

/// Classifies a datagram by its two guarantees.
pub fn classify(delivery: Delivery, ordering: OrderingGuarantee) -> (mode: Option<
    DeliveryGuarantee,
>)
    ensures
        mode == combined(delivery, ordering),
{
    match delivery {
        Delivery::Unreliable => match ordering {
            OrderingGuarantee::Unordered => Some(DeliveryGuarantee::Unreliable),
            OrderingGuarantee::Sequenced => Some(DeliveryGuarantee::Sequenced),
            OrderingGuarantee::Ordered => None,
        },
        Delivery::Reliable => match ordering {
            OrderingGuarantee::Unordered => Some(DeliveryGuarantee::Reliable),
            OrderingGuarantee::Sequenced => Some(DeliveryGuarantee::ReliableSequenced),
            OrderingGuarantee::Ordered => Some(DeliveryGuarantee::ReliableOrdered),
        },
    }
}

} // verus!
