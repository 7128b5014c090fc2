use udp_probe::codec::encode_payload;
use udp_probe::probe::{ProbeSequence, Run, NANOS_PER_SEC, RUN_LENGTH};
use udp_probe::roundtrip::{Outcome, RoundTrip};
use udp_probe::stats::{Aggregator, Stat};

#[test]
fn timeout_derived_from_rate() {
    // 1 second / rate: 4 Hz gives 0.25 s, 16 Hz gives 0.0625 s.
    assert_eq!(Run::new(4, 50).timeout_nanos, 250_000_000);
    assert_eq!(Run::new(16, 50).timeout_nanos, 62_500_000);
    assert_eq!(Run::new(8, 100).timeout_nanos, 125_000_000);
    assert_eq!(Run::new(1, 200).timeout_nanos, NANOS_PER_SEC);
}

#[test]
fn run_keeps_its_configuration() {
    let r = Run::new(8, 200);
    assert_eq!(r.hertz, 8);
    assert_eq!(r.byte_size, 200);
}

#[test]
fn probe_sequence_hands_out_numbers_in_order() {
    let mut seq = ProbeSequence::new(RUN_LENGTH);
    for expected in 0..RUN_LENGTH {
        assert_eq!(seq.next(), Some(expected));
    }
    assert_eq!(seq.next(), None);
    assert_eq!(seq.next(), None);
}

#[test]
fn probe_sequence_stops_after_abort() {
    let mut seq = ProbeSequence::new(RUN_LENGTH);
    assert_eq!(seq.next(), Some(0));
    assert_eq!(seq.next(), Some(1));
    seq.abort();
    assert_eq!(seq.next(), None);
}

#[test]
fn stat_starts_at_zero() {
    let s = Stat::default();
    assert_eq!(s.sent, 0);
    assert_eq!(s.missed, 0);
}

#[test]
fn entries_are_created_lazily() {
    let mut agg = Aggregator::new();
    assert_eq!(agg.snapshot().get(0), None);
    agg.record(0, Outcome::Delivered);
    assert_eq!(agg.snapshot().get(0), Some(Stat { sent: 1, missed: 0 }));
    assert_eq!(agg.snapshot().get(1), None);
}

#[test]
fn record_counts_sent_always_and_missed_on_miss() {
    let mut agg = Aggregator::new();
    agg.record(7, Outcome::Missed);
    agg.record(7, Outcome::Delivered);
    agg.record(7, Outcome::Missed);
    let snap = agg.snapshot();
    assert_eq!(snap.get(7), Some(Stat { sent: 3, missed: 2 }));
}

#[test]
fn record_all_matches_one_by_one_recording() {
    let outcomes = vec![
        Outcome::Delivered,
        Outcome::Missed,
        Outcome::Missed,
        Outcome::Delivered,
        Outcome::Missed,
    ];
    let mut one_by_one = Aggregator::new();
    for &o in outcomes.iter() {
        one_by_one.record(5, o);
    }
    let mut all_at_once = Aggregator::new();
    all_at_once.record_all(5, &outcomes);
    assert_eq!(one_by_one.snapshot().get(5), all_at_once.snapshot().get(5));
    assert_eq!(
        all_at_once.snapshot().get(5),
        Some(Stat { sent: 5, missed: 3 })
    );
}

#[test]
fn snapshot_is_an_immutable_copy() {
    let mut agg = Aggregator::new();
    agg.record(1, Outcome::Missed);
    let before = agg.snapshot();
    agg.record(1, Outcome::Delivered);
    agg.record(2, Outcome::Missed);
    assert_eq!(before.get(1), Some(Stat { sent: 1, missed: 1 }));
    assert_eq!(before.get(2), None);
    let after = agg.snapshot();
    assert_eq!(after.get(1), Some(Stat { sent: 2, missed: 1 }));
    assert_eq!(after.get(2), Some(Stat { sent: 1, missed: 1 }));
}

#[test]
fn interleaved_ids_stay_independent_and_consistent() {
    // Interleave outcomes for two configuration ids, snapshotting after
    // every update: each snapshot shows missed <= sent for both ids, and an
    // update for one id never changes the other's totals.
    let mut agg = Aggregator::new();
    let script: [(usize, Outcome); 8] = [
        (0, Outcome::Missed),
        (1, Outcome::Delivered),
        (0, Outcome::Delivered),
        (1, Outcome::Missed),
        (1, Outcome::Missed),
        (0, Outcome::Missed),
        (1, Outcome::Delivered),
        (0, Outcome::Delivered),
    ];
    let mut last: [Option<Stat>; 2] = [None, None];
    for &(id, outcome) in script.iter() {
        let other = 1 - id;
        agg.record(id, outcome);
        let snap = agg.snapshot();
        for checked in 0..2usize {
            if let Some(stat) = snap.get(checked) {
                assert!(stat.missed <= stat.sent);
            }
        }
        assert_eq!(snap.get(other), last[other]);
        last[id] = snap.get(id);
    }
    let snap = agg.snapshot();
    assert_eq!(snap.get(0), Some(Stat { sent: 4, missed: 2 }));
    assert_eq!(snap.get(1), Some(Stat { sent: 4, missed: 2 }));
}

fn run_probe<F>(respond: F) -> Vec<Outcome>
where
    F: Fn(u64, &[u8]) -> Option<Vec<u8>>,
{
    // Drive one probe's full run against a synthetic responder: encode and
    // "send" each sequence number, hand any echo to the round trip, then
    // let the timer elapse and classify.
    let run = Run::new(4, 50);
    let mut seq = ProbeSequence::new(RUN_LENGTH);
    let mut outcomes = Vec::new();
    while let Some(n) = seq.next() {
        let payload = encode_payload(n, run.byte_size).unwrap();
        let mut rt = RoundTrip::new(n);
        if let Some(echo) = respond(n, &payload) {
            rt.on_echo(&echo);
        }
        outcomes.push(rt.on_timer());
    }
    outcomes
}

#[test]
fn full_run_sent_is_run_length_and_missed_bounded() {
    // Responder that echoes all even sequence numbers and drops the rest.
    let outcomes = run_probe(|n, payload| {
        if n % 2 == 0 {
            Some(payload.to_vec())
        } else {
            None
        }
    });
    let mut agg = Aggregator::new();
    agg.record_all(0, &outcomes);
    let stat = agg.snapshot().get(0).unwrap();
    assert_eq!(stat.sent as u64, RUN_LENGTH);
    assert!(stat.missed <= stat.sent);
    assert_eq!(stat.missed as u64, RUN_LENGTH / 2);
}

#[test]
fn echoing_responder_yields_all_delivered() {
    let outcomes = run_probe(|_, payload| Some(payload.to_vec()));
    assert_eq!(outcomes.len() as u64, RUN_LENGTH);
    assert!(outcomes.iter().all(|&o| o == Outcome::Delivered));
    let mut agg = Aggregator::new();
    agg.record_all(3, &outcomes);
    let stat = agg.snapshot().get(3).unwrap();
    assert_eq!(stat.sent as u64, RUN_LENGTH);
    assert_eq!(stat.missed, 0);
}

#[test]
fn silent_responder_yields_all_missed() {
    let outcomes = run_probe(|_, _| None);
    assert!(outcomes.iter().all(|&o| o == Outcome::Missed));
    let mut agg = Aggregator::new();
    agg.record_all(6, &outcomes);
    let stat = agg.snapshot().get(6).unwrap();
    assert_eq!(stat.sent as u64, RUN_LENGTH);
    assert_eq!(stat.missed as u64, RUN_LENGTH);
}

#[test]
fn stale_echo_responder_yields_all_missed() {
    // Responder that always answers with a sequence number one less than
    // the one requested.
    let outcomes = run_probe(|n, _| Some(encode_payload(n.wrapping_sub(1), 50).unwrap()));
    assert!(outcomes.iter().all(|&o| o == Outcome::Missed));
}

#[test]
fn full_sweep_over_all_configurations() {
    // The full sweep: rates {4, 8, 16} Hz crossed with payload sizes
    // {50, 100, 200} bytes, ids assigned in enumeration order, each run for
    // the full length.
    let mut runs = Vec::new();
    for &hertz in &[4u64, 8, 16] {
        for &byte_size in &[50usize, 100, 200] {
            runs.push(Run::new(hertz, byte_size));
        }
    }
    assert_eq!(runs.len(), 9);
    let mut agg = Aggregator::new();
    for (id, run) in runs.iter().enumerate() {
        let mut seq = ProbeSequence::new(RUN_LENGTH);
        while let Some(n) = seq.next() {
            let payload = encode_payload(n, run.byte_size).unwrap();
            let mut rt = RoundTrip::new(n);
            // Echo every third datagram.
            if n % 3 == 0 {
                rt.on_echo(&payload);
            }
            agg.record(id, rt.on_timer());
        }
    }
    let snap = agg.snapshot();
    for id in 0..9usize {
        let stat = snap.get(id).unwrap();
        assert_eq!(stat.sent as u64, RUN_LENGTH);
        assert!(stat.missed <= stat.sent);
        assert_eq!(stat.missed as u64, RUN_LENGTH - 34);
    }
}
