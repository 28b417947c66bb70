//! The round-trip estimator: a smoothed round-trip time, its mean deviation, and the
//! retransmission timeout derived from both.
use crate::RTO_MAX;
use vstd::prelude::*;

verus! {

/// The estimator's three values.
#[derive(Clone, Copy, Debug, PartialEq, Eq, Structural)]
pub struct Estimate {
    pub srtt: u32,
    pub rttvar: u32,
    pub rto: u32,
}

/// The smoothed round-trip time after a sample `rtt`: the sample itself where there
/// was none before, else seven parts old to one part new, and at least 1.
pub open spec fn smoothed(srtt: u32, rtt: u32) -> int {
    if srtt == 0 {
        rtt as int
    } else {
        let mixed = (7 * srtt + rtt) / 8;
        if mixed < 1 { 1 } else { mixed }
    }
}

/// The mean deviation after a sample `rtt`: half the sample where there was none
/// before, else three parts old to one part of the sample's distance from the mean.
pub open spec fn deviation(srtt: u32, rttvar: u32, rtt: u32) -> int {
    if srtt == 0 {
        rtt as int / 2
    } else {
        let delta = if rtt > srtt { rtt - srtt } else { srtt - rtt };
        (3 * rttvar + delta) / 4
    }
}

/// The timeout that follows from a mean and a deviation: the mean plus four
/// deviations, or plus one interval where that is more, held within
/// `[min_rto, RTO_MAX]`.
pub open spec fn timeout(srtt: int, rttvar: int, interval: u32, min_rto: u32) -> int {
    let slack = if interval as int > 4 * rttvar { interval as int } else { 4 * rttvar };
    let raw = srtt + slack;
    let raised = if raw < min_rto { min_rto as int } else { raw };
    if raised > RTO_MAX { RTO_MAX as int } else { raised }
}

/// The estimate after one round-trip sample.
pub open spec fn sampled(srtt: u32, rttvar: u32, interval: u32, min_rto: u32, rtt: u32)
    -> Estimate {
    let s = smoothed(srtt, rtt);
    let v = deviation(srtt, rttvar, rtt);
    Estimate { srtt: s as u32, rttvar: v as u32, rto: timeout(s, v, interval, min_rto) as u32 }
}

/// Feeds one round-trip sample, in milliseconds, to the estimator.
pub fn sample_rtt(srtt: u32, rttvar: u32, interval: u32, min_rto: u32, rtt: u32) -> (e: Estimate)
    requires
        srtt <= i32::MAX,
        rttvar <= i32::MAX,
        rtt <= i32::MAX,
        min_rto <= RTO_MAX,
    ensures
        e == sampled(srtt, rttvar, interval, min_rto, rtt),
        e.srtt <= i32::MAX,
        e.rttvar <= i32::MAX,
        min_rto <= e.rto <= RTO_MAX,
{
    let s: u64;
    let v: u64;
    if srtt == 0 {
        s = rtt as u64;
        v = (rtt / 2) as u64;
    } else {
        let delta: u64 = if rtt > srtt { (rtt - srtt) as u64 } else { (srtt - rtt) as u64 };
        v = (3 * (rttvar as u64) + delta) / 4;
        let mixed: u64 = (7 * (srtt as u64) + rtt as u64) / 8;
        s = if mixed < 1 { 1 } else { mixed };
    }
    let slack: u64 = if interval as u64 > 4 * v { interval as u64 } else { 4 * v };
    let raw: u64 = s + slack;
    let raised: u64 = if raw < min_rto as u64 { min_rto as u64 } else { raw };
    let rto: u64 = if raised > RTO_MAX as u64 { RTO_MAX as u64 } else { raised };
    Estimate { srtt: s as u32, rttvar: v as u32, rto: rto as u32 }
}

} // verus!
