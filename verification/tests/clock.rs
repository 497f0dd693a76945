use dstp_relay::clock::{epoch_millis, now_ms};
use std::time::{SystemTime, UNIX_EPOCH};

#[test]
fn readings_become_milliseconds() {
    assert_eq!(epoch_millis(None), 0);
    assert_eq!(epoch_millis(Some(0)), 0);
    assert_eq!(epoch_millis(Some(1_700_000_000_123)), 1_700_000_000_123);
    assert_eq!(epoch_millis(Some(i64::MAX as u128)), i64::MAX);
    assert_eq!(epoch_millis(Some(i64::MAX as u128 + 1)), i64::MIN);
    assert_eq!(epoch_millis(Some(1 << 64)), 0);
}

#[test]
fn the_clock_is_read() {
    let before = SystemTime::now().duration_since(UNIX_EPOCH).unwrap().as_millis() as i64;
    let now = now_ms();
    let after = SystemTime::now().duration_since(UNIX_EPOCH).unwrap().as_millis() as i64;
    assert!(before <= now && now <= after);
}
