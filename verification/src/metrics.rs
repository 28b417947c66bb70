//! Counters of what an endpoint has seen.
use vstd::prelude::*;

verus! {

/// Number of kinds of events that are counted.
pub const DATA_POINTS: usize = 10;

/// The kinds of events that are counted.
#[derive(Copy, Clone, Debug, PartialEq, Eq, Structural)]
pub enum DataPoint {
    PacketsSent,
    PacketsReceived,
    PacketsAcked,
    PacketsStale,
    PacketsInvalid,
    PacketsTooLargeToSend,
    PacketsTooLargeToReceive,
    FragmentsSent,
    FragmentsReceived,
    FragmentsInvalid,
}

impl DataPoint {
    /// The place of this kind among the counters.
    pub open spec fn spec_index(self) -> int {
        match self {
            DataPoint::PacketsSent => 0,
            DataPoint::PacketsReceived => 1,
            DataPoint::PacketsAcked => 2,
            DataPoint::PacketsStale => 3,
            DataPoint::PacketsInvalid => 4,
            DataPoint::PacketsTooLargeToSend => 5,
            DataPoint::PacketsTooLargeToReceive => 6,
            DataPoint::FragmentsSent => 7,
            DataPoint::FragmentsReceived => 8,
            DataPoint::FragmentsInvalid => 9,
        }
    }

    /// The place of this kind among the counters.
    pub fn index(self) -> (i: usize)
        ensures
            i == self.spec_index(),
            i < DATA_POINTS,
    {
        match self {
            DataPoint::PacketsSent => 0,
            DataPoint::PacketsReceived => 1,
            DataPoint::PacketsAcked => 2,
            DataPoint::PacketsStale => 3,
            DataPoint::PacketsInvalid => 4,
            DataPoint::PacketsTooLargeToSend => 5,
            DataPoint::PacketsTooLargeToReceive => 6,
            DataPoint::FragmentsSent => 7,
            DataPoint::FragmentsReceived => 8,
            DataPoint::FragmentsInvalid => 9,
        }
    }
}

/// One counter for each kind of event.
#[derive(Debug)]
pub struct Metrics {
    counters: [u64; 10],
}

impl Metrics {
    /// The counters, in the order of the kinds.
    pub closed spec fn counts(&self) -> Seq<u64> {
        self.counters@
    }

    /// How often `data_point` has been counted.
    pub open spec fn count(&self, data_point: DataPoint) -> u64 {
        self.counts()[data_point.spec_index()]
    }

    /// Counters that all stand at 0.
    pub fn new() -> (m: Self)
        ensures
            m.counts() == Seq::new(DATA_POINTS as nat, |i: int| 0u64),
            m.counts().len() == DATA_POINTS,
    {
        let m = Self { counters: [0; 10] };
        assert(m.counts() =~= Seq::new(DATA_POINTS as nat, |i: int| 0u64));
        m
    }

    /// How often `data_point` has been counted.
    pub fn get_count(&self, data_point: DataPoint) -> (n: u64)
        ensures
            n == self.count(data_point),
    {
        self.counters[data_point.index()]
    }

    /// The counters after `data_point` has been counted `n` times more; a counter
    /// does not go beyond `u64::MAX`.
    pub open spec fn added(counts: Seq<u64>, data_point: DataPoint, n: u64) -> Seq<u64> {
        counts.update(
            data_point.spec_index(),
            if counts[data_point.spec_index()] + n <= u64::MAX {
                (counts[data_point.spec_index()] + n) as u64
            } else {
                u64::MAX
            },
        )
    }

    /// Counts `data_point` `n` times more; a counter that has reached `u64::MAX`
    /// stays there.
    pub fn add(&mut self, data_point: DataPoint, n: u64)
        ensures
            final(self).counts().len() == DATA_POINTS,
            final(self).counts() == Self::added(old(self).counts(), data_point, n),
    {
        let i = data_point.index();
        let before: u64 = self.counters[i];
        self.counters[i] = before.saturating_add(n);
    }

    /// Counts `data_point` once more; a counter that has reached `u64::MAX` stays
    /// there.
    pub fn increment(&mut self, data_point: DataPoint)
        ensures
            final(self).counts().len() == DATA_POINTS,
            final(self).counts() == old(self).counts().update(
                data_point.spec_index(),
                if old(self).count(data_point) < u64::MAX {
                    (old(self).count(data_point) + 1) as u64
                } else {
                    u64::MAX
                },
            ),
    {
        let i = data_point.index();
        let before: u64 = self.counters[i];
        self.counters[i] = if before < u64::MAX { before + 1 } else { u64::MAX };
    }
}

} // verus!
