//! Per-stream sequence numbers for the datagrams that travel outside the
//! reliability engine.
use crate::sequence_buffer::{newer, sequence_num_greater_than};
use vstd::prelude::*;

verus! {

/// A stream whose datagrams reach the application in the order sent.
#[derive(Clone, Copy)]
pub struct OrderedStream {
    sequence_num: u16,
}

impl OrderedStream {
    /// The number of the datagram delivered last; 0 at the start.
    pub closed spec fn delivered(&self) -> u16 {
        self.sequence_num
    }

    /// A stream on which nothing has been delivered yet.
    pub fn new() -> (s: Self)
        ensures
            s.delivered() == 0,
    {
        Self { sequence_num: 0 }
    }
}

/// A stream of which only the newest datagram counts.
#[derive(Clone, Copy)]
pub struct SequencedStream {
    sequence_num: u16,
}

impl SequencedStream {
    /// The newest number seen; 0 at the start.
    pub closed spec fn newest(&self) -> u16 {
        self.sequence_num
    }

    /// A stream on which nothing has been seen yet.
    pub fn new() -> (s: Self)
        ensures
            s.newest() == 0,
    {
        Self { sequence_num: 0 }
    }

    /// Numbers an outgoing datagram: the number after the newest one, going round
    /// after 65535, which is the newest one from now on.
    pub fn advance(&mut self) -> (sequence_num: u16)
        ensures
            sequence_num == (old(self).newest() + 1) % 0x1_0000,
            final(self).newest() == sequence_num,
    {
        self.sequence_num = self.sequence_num.wrapping_add(1);
        self.sequence_num
    }

    /// Takes note of an incoming datagram numbered `sequence_num` and says whether
    /// it is to be delivered: it is if it is newer than every one seen before.
    pub fn accept(&mut self, sequence_num: u16) -> (deliver: bool)
        ensures
            deliver == newer(sequence_num, old(self).newest()),
            final(self).newest() == if deliver { sequence_num } else { old(self).newest() },
    {
        if sequence_num_greater_than(sequence_num, self.sequence_num) {
            self.sequence_num = sequence_num;
            true
        } else {
            false
        }
    }
}

} // verus!
