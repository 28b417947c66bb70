//! Congestion control: how the congestion window grows with acknowledgements and
//! shrinks after retransmissions.
use crate::state::{credit_bounded, MAX_IN_FLIGHT, MAX_MSS};
use crate::THRESH_MIN;
use vstd::prelude::*;

verus! {

/// The congestion window in segments, the byte credit towards its next growth, and
/// the slow-start threshold.
#[derive(Clone, Copy, Debug, PartialEq, Eq, Structural)]
pub struct Congestion {
    pub cwnd: u32,
    pub incr: u64,
    pub ssthresh: u32,
}

/// The byte credit after one step of congestion avoidance: the old credit, or one
/// segment where it was less, plus `mss * mss / credit + mss / 16`.
pub open spec fn avoided(incr: u64, mss: usize) -> int {
    let base = if incr < mss { mss as int } else { incr as int };
    base + (mss * mss) / base + mss / 16
}

/// The window after the peer has acknowledged new data.
///
/// A window that has reached the peer's stays. Below the threshold it grows by one
/// segment (slow start). From the threshold on the credit grows by [`avoided`], and
/// the window grows by one segment once the credit covers it. The result never
/// exceeds the peer's window.
pub open spec fn grown(c: Congestion, remote_wnd: u16, mss: usize) -> Congestion {
    if c.cwnd >= remote_wnd {
        c
    } else {
        let stepped = if c.cwnd < c.ssthresh {
            Congestion { cwnd: (c.cwnd + 1) as u32, incr: (c.incr + mss) as u64, ..c }
        } else {
            let credit = avoided(c.incr, mss);
            let cwnd = if (c.cwnd + 1) * mss <= credit { c.cwnd + 1 } else { c.cwnd as int };
            Congestion { cwnd: cwnd as u32, incr: credit as u64, ..c }
        };
        if stepped.cwnd > remote_wnd {
            Congestion { cwnd: remote_wnd as u32, incr: (remote_wnd * mss) as u64, ..c }
        } else {
            stepped
        }
    }
}

/// A quarter of `n`, but at least `THRESH_MIN`.
pub open spec fn threshold(n: int) -> int {
    if n / 4 < THRESH_MIN { THRESH_MIN as int } else { n / 4 }
}

/// The window after a flush.
///
/// With congestion control enabled: after a fast retransmission the threshold
/// becomes a quarter of what is in flight and the window the threshold plus
/// `fast_resend`; after a timeout, which weighs more, the threshold becomes a
/// quarter of the effective window and the window one segment. In every case the
/// window is at least one segment afterwards.
pub open spec fn settled(
    c: Congestion,
    enabled: bool,
    change: bool,
    lost: bool,
    in_flight: int,
    effective_wnd: int,
    fast_resend: u32,
    mss: usize,
) -> Congestion {
    let after_change = if enabled && change {
        let t = threshold(in_flight);
        Congestion {
            cwnd: (t + fast_resend) as u32,
            incr: ((t + fast_resend) * mss) as u64,
            ssthresh: t as u32,
        }
    } else {
        c
    };
    let after_loss = if enabled && lost {
        Congestion { cwnd: 1, incr: mss as u64, ssthresh: threshold(effective_wnd) as u32 }
    } else {
        after_change
    };
    if after_loss.cwnd < 1 {
        Congestion { cwnd: 1, incr: mss as u64, ..after_loss }
    } else {
        after_loss
    }
}

proof fn lemma_square_fits(mss: int)
    by (nonlinear_arith)
    requires
        1 <= mss <= 0xFFFF_FFE7,
    ensures
        mss * mss <= 0xFFFF_FFE7 * 0xFFFF_FFE7,
        mss * mss >= mss,
{
}

proof fn lemma_quotient_at_most(mss: int, base: int)
    by (nonlinear_arith)
    requires
        1 <= mss <= base,
    ensures
        0 <= (mss * mss) / base <= mss,
{
    assert(mss * mss <= mss * base);
    assert((mss * base) / base == mss);
}

proof fn lemma_product_bounded(a: int, a_max: int, b: int, b_max: int)
    by (nonlinear_arith)
    requires
        0 <= a <= a_max,
        0 <= b <= b_max,
    ensures
        0 <= a * b <= a_max * b_max,
{
}

/// Grows the window after the peer has acknowledged new data.
pub fn grow_window(c: Congestion, remote_wnd: u16, mss: usize) -> (r: Congestion)
    requires
        1 <= mss <= MAX_MSS,
        credit_bounded(c.cwnd, c.incr),
    ensures
        r == grown(c, remote_wnd, mss),
        credit_bounded(r.cwnd, r.incr),
        c.cwnd <= r.cwnd,
        r.cwnd <= c.cwnd || r.cwnd <= remote_wnd,
        r.ssthresh == c.ssthresh,
{
    if c.cwnd >= remote_wnd as u32 {
        return c;
    }
    let m: u64 = mss as u64;
    proof {
        lemma_product_bounded(c.cwnd as int + 1, 0xFFFF, mss as int, MAX_MSS as int);
        lemma_product_bounded(remote_wnd as int, 0xFFFF, mss as int, MAX_MSS as int);
    }
    let stepped = if c.cwnd < c.ssthresh {
        Congestion { cwnd: c.cwnd + 1, incr: c.incr + m, ssthresh: c.ssthresh }
    } else {
        let base: u64 = if c.incr < m { m } else { c.incr };
        proof {
            lemma_square_fits(mss as int);
            lemma_quotient_at_most(mss as int, base as int);
        }
        let credit: u64 = base + (m * m) / base + m / 16;
        let cwnd: u32 = if (c.cwnd as u64 + 1) * m <= credit { c.cwnd + 1 } else { c.cwnd };
        Congestion { cwnd, incr: credit, ssthresh: c.ssthresh }
    };
    if stepped.cwnd > remote_wnd as u32 {
        Congestion { cwnd: remote_wnd as u32, incr: (remote_wnd as u64) * m, ssthresh: c.ssthresh }
    } else {
        stepped
    }
}

/// Settles the window after a flush.
pub fn settle_window(
    c: Congestion,
    enabled: bool,
    change: bool,
    lost: bool,
    in_flight: u32,
    effective_wnd: u32,
    fast_resend: u32,
    mss: usize,
) -> (r: Congestion)
    requires
        1 <= mss <= MAX_MSS,
        credit_bounded(c.cwnd, c.incr),
        THRESH_MIN <= c.ssthresh <= 0x3FFF,
        c.cwnd <= 0x8000_3FFE,
        in_flight <= MAX_IN_FLIGHT,
        effective_wnd <= MAX_IN_FLIGHT,
        fast_resend <= i32::MAX,
    ensures
        r == settled(
            c,
            enabled,
            change,
            lost,
            in_flight as int,
            effective_wnd as int,
            fast_resend,
            mss,
        ),
        credit_bounded(r.cwnd, r.incr),
        THRESH_MIN <= r.ssthresh <= 0x3FFF,
        1 <= r.cwnd <= 0x8000_3FFE,
{
    let m: u64 = mss as u64;
    let mut r = c;
    if enabled && change {
        let quarter: u32 = in_flight / 4;
        let t: u32 = if quarter < THRESH_MIN { THRESH_MIN } else { quarter };
        let cwnd: u32 = t + fast_resend;
        proof {
            lemma_product_bounded(cwnd as int, cwnd as int, mss as int, MAX_MSS as int);
            lemma_product_bounded(cwnd as int, 0x8000_3FFE, mss as int, MAX_MSS as int);
        }
        r = Congestion { cwnd, incr: (cwnd as u64) * m, ssthresh: t };
    }
    if enabled && lost {
        let quarter: u32 = effective_wnd / 4;
        let t: u32 = if quarter < THRESH_MIN { THRESH_MIN } else { quarter };
        r = Congestion { cwnd: 1, incr: m, ssthresh: t };
    }
    if r.cwnd < 1 {
        r = Congestion { cwnd: 1, incr: m, ssthresh: r.ssthresh };
    }
    r
}

} // verus!
