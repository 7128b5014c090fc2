use udp_probe::codec::encode_payload;
use udp_probe::roundtrip::{Outcome, RoundTrip};

#[test]
fn exact_echo_is_delivered_once_timer_elapses() {
    // A responder that echoes the exact received payload immediately: the
    // round trip keeps waiting on its timer after the match and is
    // classified Delivered when the timer elapses.
    for n in [0u64, 1, 50, 99] {
        let payload = encode_payload(n, 50).unwrap();
        let mut rt = RoundTrip::new(n);
        rt.on_echo(&payload);
        assert_eq!(rt.on_timer(), Outcome::Delivered);
    }
}

#[test]
fn no_reply_is_missed() {
    for n in [0u64, 3, 99] {
        let rt = RoundTrip::new(n);
        assert_eq!(rt.on_timer(), Outcome::Missed);
    }
}

#[test]
fn echo_of_previous_sequence_number_is_missed() {
    // A responder that echoes a sequence number one less than requested:
    // a mismatch never counts as delivered.
    for n in [1u64, 2, 57, 99] {
        let wrong = encode_payload(n - 1, 50).unwrap();
        let mut rt = RoundTrip::new(n);
        rt.on_echo(&wrong);
        assert_eq!(rt.on_timer(), Outcome::Missed);
    }
}

#[test]
fn short_echo_is_missed() {
    let mut rt = RoundTrip::new(0);
    rt.on_echo(&[0, 0, 0, 0]);
    assert_eq!(rt.on_timer(), Outcome::Missed);
}

#[test]
fn only_first_echo_is_inspected() {
    let n = 12u64;
    let good = encode_payload(n, 8).unwrap();
    let bad = encode_payload(n + 1, 8).unwrap();

    let mut rt = RoundTrip::new(n);
    rt.on_echo(&good);
    rt.on_echo(&bad);
    assert_eq!(rt.on_timer(), Outcome::Delivered);

    let mut rt = RoundTrip::new(n);
    rt.on_echo(&bad);
    rt.on_echo(&good);
    assert_eq!(rt.on_timer(), Outcome::Missed);
}

#[test]
fn exchange_closes_after_first_echo() {
    let n = 4u64;
    let mut rt = RoundTrip::new(n);
    assert!(rt.exchange_open);
    rt.on_echo(&encode_payload(n, 8).unwrap());
    assert!(!rt.exchange_open);
}
