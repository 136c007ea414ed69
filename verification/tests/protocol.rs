use zenith::protocol::{now_ms, timestamp_ms};

#[test]
fn timestamp_keeps_milliseconds() {
    assert_eq!(timestamp_ms(Some(1_700_000_000_123)), 1_700_000_000_123);
    assert_eq!(timestamp_ms(Some(0)), 0);
}

#[test]
fn timestamp_before_epoch_is_zero() {
    assert_eq!(timestamp_ms(None), 0);
}

#[test]
fn timestamp_cuts_to_64_bits() {
    assert_eq!(timestamp_ms(Some((1u128 << 64) + 7)), 7);
}

#[test]
fn clock_reads_past_epoch() {
    // 2020-01-01 in milliseconds since the epoch.
    assert!(now_ms() > 1_577_836_800_000);
}
