//! Probe configuration and sequencing.
//!
//! A probe owns one configuration — a target send rate and a payload size —
//! and drives a fixed number of round trips for it, in strict sequence
//! number order starting from zero. The per-message timeout is derived once
//! from the rate as one second divided by the rate. A transport failure
//! aborts the remainder of the sequence; a fresh sequence must be
//! constructed to run again.

use vstd::prelude::*;

verus! {

/// Nanoseconds in one second, for deriving the per-message timeout.
pub const NANOS_PER_SEC: u64 = 1_000_000_000;

/// Number of round trips one probe drives for its configuration.
pub const RUN_LENGTH: u64 = 100;

/// One probe configuration: a target rate in events per second, a payload
/// size in bytes, and the per-message timeout derived from the rate.
#[derive(Debug, Clone, Copy, PartialEq, Eq, Structural)]
pub struct Run {
    pub hertz: u64,
    pub byte_size: usize,
    pub timeout_nanos: u64,
}

impl Run {
    /// Builds the configuration and derives its timeout: one second divided
    /// by the rate, computed once at construction.
    pub fn new(hertz: u64, byte_size: usize) -> (r: Run)
        requires
            hertz > 0,
        ensures
            r.hertz == hertz,
            r.byte_size == byte_size,
            r.timeout_nanos == NANOS_PER_SEC / hertz,
    {
        Run { hertz, byte_size, timeout_nanos: NANOS_PER_SEC / hertz }
    }
}

/// The bounded run of sequence numbers one probe works through: it hands
/// out `0, 1, ..., len - 1` in order, exactly once each, and stops early
/// once aborted.
pub struct ProbeSequence {
    pub next_seq: u64,
    pub len: u64,
    pub aborted: bool,
}

impl ProbeSequence {
    /// The sequence never hands out a number at or beyond its length.
    pub open spec fn wf(self) -> bool {
        self.next_seq <= self.len
    }

    /// Whether the run is over: every number was handed out, or a fatal
    /// transport failure ended it early.
    pub open spec fn finished(self) -> bool {
        self.aborted || self.next_seq == self.len
    }

    /// Starts a fresh run of `len` round trips, beginning at sequence
    /// number zero.
    pub fn new(len: u64) -> (r: ProbeSequence)
        ensures
            r.wf(),
            r.next_seq == 0,
            r.len == len,
            !r.aborted,
    {
        ProbeSequence { next_seq: 0, len, aborted: false }
    }

    /// Hands out the next sequence number, or nothing once the run is
    /// finished. Numbers come out in strict order, each exactly once.
    pub fn next(&mut self) -> (r: Option<u64>)
        requires
            old(self).wf(),
        ensures
            final(self).wf(),
            final(self).len == old(self).len,
            final(self).aborted == old(self).aborted,
            old(self).finished() ==> r is None && *final(self) == *old(self),
            !old(self).finished() ==> r == Some(old(self).next_seq) && final(self).next_seq
                == old(self).next_seq + 1,
    {
        if self.aborted || self.next_seq == self.len {
            None
        } else {
            let seq = self.next_seq;
            self.next_seq = self.next_seq + 1;
            Some(seq)
        }
    }

    /// Ends the run early after a fatal transport failure: the remaining
    /// round trips are not attempted.
    pub fn abort(&mut self)
        ensures
            final(self).aborted,
            final(self).finished(),
            final(self).next_seq == old(self).next_seq,
            final(self).len == old(self).len,
    {
        self.aborted = true;
    }
}

} // verus!
