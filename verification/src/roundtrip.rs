//! State machine of one round trip.
//!
//! A round trip sends one payload and then races the echo exchange against
//! a timeout timer. The timer is the deciding arm: an echo never finishes
//! the round trip by itself, it only records whether a matching response
//! was seen, and the outcome is classified when the timer elapses. Only the
//! first received datagram is inspected; a mismatched echo is a normal
//! non-match, not a failure.

use crate::codec::SEQ_WIDTH;
use crate::codec::lemma_encode_decode_roundtrip;
use crate::codec::lemma_payload_len;
use crate::codec::payload_for;
use vstd::bytes::spec_u64_from_le_bytes;
use vstd::bytes::u64_from_le_bytes;
use vstd::prelude::*;
use vstd::slice::slice_subrange;

verus! {

/// Classification of one finished round trip: an echo matching the sent
/// sequence number arrived within the timeout, or it did not.
#[derive(Debug, Clone, Copy, PartialEq, Eq, Structural)]
pub enum Outcome {
    Delivered,
    Missed,
}

/// Whether a received datagram echoes the expected sequence number: it
/// carries at least the encoded width and its leading bytes decode to
/// `expected`.
pub open spec fn echo_matches(expected: u64, buf: Seq<u8>) -> bool {
    buf.len() >= SEQ_WIDTH && spec_u64_from_le_bytes(buf.subrange(0, SEQ_WIDTH as int)) == expected
}

/// The wait state of one in-flight round trip: the sequence number it sent,
/// whether a matching echo has been seen, and whether the exchange is still
/// awaiting its first datagram.
pub struct RoundTrip {
    pub expected: u64,
    pub matched: bool,
    pub exchange_open: bool,
}

impl RoundTrip {
    /// The state right after the payload for `expected` was sent: no echo
    /// seen yet, exchange awaiting its first datagram.
    pub open spec fn fresh(expected: u64) -> RoundTrip {
        RoundTrip { expected, matched: false, exchange_open: true }
    }

    /// The state after a datagram with bytes `buf` arrives. The first
    /// datagram closes the exchange and records whether it matched; any
    /// later one is not inspected and changes nothing.
    pub open spec fn after_echo(self, buf: Seq<u8>) -> RoundTrip {
        if self.exchange_open {
            RoundTrip {
                expected: self.expected,
                matched: echo_matches(self.expected, buf),
                exchange_open: false,
            }
        } else {
            self
        }
    }

    /// The classification the round trip gets when its timer elapses.
    pub open spec fn timer_outcome(self) -> Outcome {
        if self.matched {
            Outcome::Delivered
        } else {
            Outcome::Missed
        }
    }

    /// Starts the wait for the echo of sequence number `expected`.
    pub fn new(expected: u64) -> (r: RoundTrip)
        ensures
            r == RoundTrip::fresh(expected),
    {
        RoundTrip { expected, matched: false, exchange_open: true }
    }

    /// Records the arrival of a datagram. The round trip keeps waiting on
    /// its timer afterwards, whether or not the echo matched.
    pub fn on_echo(&mut self, buf: &[u8])
        ensures
            *final(self) == old(self).after_echo(buf@),
    {
        if self.exchange_open {
            self.matched = if buf.len() >= SEQ_WIDTH {
                let head = slice_subrange(buf, 0, SEQ_WIDTH);
                let got = u64_from_le_bytes(head);
                got == self.expected
            } else {
                false
            };
            self.exchange_open = false;
        }
    }

    /// Classifies the round trip once its timer has elapsed: the timer is
    /// the only arm that finishes a round trip.
    pub fn on_timer(&self) -> (o: Outcome)
        ensures
            o == self.timer_outcome(),
    {
        if self.matched {
            Outcome::Delivered
        } else {
            Outcome::Missed
        }
    }
}

/// Law: against a responder that echoes the sent payload back within the
/// timeout, the round trip is classified Delivered — and only once the
/// timer elapses, since an echo alone never finishes a round trip.
pub proof fn lemma_exact_echo_delivered(n: u64, size: nat)
    requires
        size >= SEQ_WIDTH,
    ensures
        RoundTrip::fresh(n).after_echo(payload_for(n, size)).timer_outcome() == Outcome::Delivered,
{
    lemma_payload_len(n, size);
    lemma_encode_decode_roundtrip(n, size);
}

/// Law: against a responder that never replies, the timer classifies the
/// round trip as Missed.
pub proof fn lemma_no_echo_missed(n: u64)
    ensures
        RoundTrip::fresh(n).timer_outcome() == Outcome::Missed,
{
}

/// Law: an echo carrying any sequence number other than the one sent never
/// counts as delivered.
pub proof fn lemma_mismatched_echo_missed(n: u64, m: u64, size: nat)
    requires
        size >= SEQ_WIDTH,
        m != n,
    ensures
        RoundTrip::fresh(n).after_echo(payload_for(m, size)).timer_outcome() == Outcome::Missed,
{
    lemma_payload_len(m, size);
    lemma_encode_decode_roundtrip(m, size);
}

/// Law: only the first received datagram is inspected; once the exchange
/// has seen one, a later datagram changes nothing.
pub proof fn lemma_first_echo_decides(n: u64, first: Seq<u8>, later: Seq<u8>)
    ensures
        RoundTrip::fresh(n).after_echo(first).after_echo(later) == RoundTrip::fresh(n).after_echo(
            first,
        ),
{
}

} // verus!
