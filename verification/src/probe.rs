//! The zero-window probe: while the peer advertises no room, ask for its window at
//! growing intervals.
use crate::serial::{seq_add, seq_diff, time_diff};
use crate::{PROBE_INIT, PROBE_LIMIT};
use vstd::prelude::*;

verus! {

/// The probe timer: how long to wait between probes (0 while disarmed), when the next
/// one is due, and whether one is due now.
#[derive(Clone, Copy, Debug, PartialEq, Eq, Structural)]
pub struct Probe {
    pub wait: u32,
    pub next_time: u32,
    pub ask_send: bool,
}

/// The wait that follows `wait`: half as long again, from at least `PROBE_INIT`, up
/// to `PROBE_LIMIT`.
pub open spec fn next_wait(wait: u32) -> int {
    let from = if wait < PROBE_INIT { PROBE_INIT as int } else { wait as int };
    let grown = from + from / 2;
    if grown > PROBE_LIMIT { PROBE_LIMIT as int } else { grown }
}

/// The probe timer after a flush at time `now`, given the window that the peer
/// advertised last.
///
/// With room at the peer the timer is disarmed. Without, it is armed with
/// `PROBE_INIT` if it was not; and once armed, each time it has run out, the wait
/// grows, the timer starts again and a probe is due.
pub open spec fn probed(p: Probe, remote_wnd: u16, now: u32) -> Probe {
    if remote_wnd != 0 {
        Probe { wait: 0, next_time: 0, ask_send: p.ask_send }
    } else if p.wait == 0 {
        Probe { wait: PROBE_INIT, next_time: seq_add(now, PROBE_INIT as int), ask_send: p.ask_send }
    } else if seq_diff(now, p.next_time) >= 0 {
        let wait = next_wait(p.wait);
        Probe { wait: wait as u32, next_time: seq_add(now, wait), ask_send: true }
    } else {
        p
    }
}

/// Advances the probe timer at time `now`.
pub fn advance_probe(p: Probe, remote_wnd: u16, now: u32) -> (q: Probe)
    requires
        p.wait <= PROBE_LIMIT,
    ensures
        q == probed(p, remote_wnd, now),
        q.wait <= PROBE_LIMIT,
{
    if remote_wnd != 0 {
        Probe { wait: 0, next_time: 0, ask_send: p.ask_send }
    } else if p.wait == 0 {
        Probe { wait: PROBE_INIT, next_time: now.wrapping_add(PROBE_INIT), ask_send: p.ask_send }
    } else if time_diff(now, p.next_time) >= 0 {
        let from: u32 = if p.wait < PROBE_INIT { PROBE_INIT } else { p.wait };
        let grown: u32 = from + from / 2;
        let wait: u32 = if grown > PROBE_LIMIT { PROBE_LIMIT } else { grown };
        Probe { wait, next_time: now.wrapping_add(wait), ask_send: true }
    } else {
        p
    }
}

} // verus!
