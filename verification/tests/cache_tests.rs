use offtopic_bot::cache::{Cache, CorrelationKey, make_key};
use offtopic_bot::digits::{fmt_i64, fmt_u64};
use offtopic_bot::idbytes::{decode_id, encode_id};

fn k(sender: i64, time: i64) -> CorrelationKey {
    CorrelationKey { sender, time }
}

#[test]
fn decimal_text_exact() {
    assert_eq!(fmt_u64(0), "0");
    assert_eq!(fmt_u64(9), "9");
    assert_eq!(fmt_u64(10), "10");
    assert_eq!(fmt_u64(18446744073709551615), "18446744073709551615");
    assert_eq!(fmt_i64(-1), "-1");
    assert_eq!(fmt_i64(-123), "-123");
    assert_eq!(fmt_i64(i64::MIN), "-9223372036854775808");
    assert_eq!(fmt_i64(i64::MAX), "9223372036854775807");
}

#[test]
fn persisted_key_layout() {
    // The persisted key is "<timestamp>/<sender>".
    assert_eq!(make_key(&k(7, 1000)), "1000/7");
    assert_eq!(make_key(&k(-3, -20)), "-20/-3");
    assert_eq!(make_key(&k(7, 1000)), format!("{}/{}", 1000, 7));
}

#[test]
fn persisted_value_matches_bincode() {
    // The persisted value cell is the fixed binary form of the 64-bit
    // identifier, as the original on-disk layout had it.
    for id in [0i64, 1, -1, 555, i64::MAX, i64::MIN] {
        assert_eq!(encode_id(id), bincode::serialize(&id).unwrap());
        let v = encode_id(id);
        assert_eq!(decode_id(&v), id);
    }
}

#[test]
fn bounded_last_write_wins() {
    let mut c = Cache::new_bounded(8);
    c.set(k(1, 10), 100).unwrap();
    c.set(k(1, 10), 200).unwrap();
    c.set(k(2, 10), 300).unwrap();
    assert_eq!(c.get(k(1, 10)).unwrap(), Some(200));
    assert_eq!(c.get(k(2, 10)).unwrap(), Some(300));
}

#[test]
fn bounded_never_written_absent() {
    let mut c = Cache::new_bounded(4);
    assert_eq!(c.get(k(1, 1)).unwrap(), None);
    c.set(k(1, 1), 5).unwrap();
    // Exact equality on both fields: near misses stay absent.
    assert_eq!(c.get(k(1, 2)).unwrap(), None);
    assert_eq!(c.get(k(2, 1)).unwrap(), None);
}

#[test]
fn bounded_evicts_least_recently_used() {
    let mut c = Cache::new_bounded(2);
    c.set(k(1, 1), 11).unwrap();
    c.set(k(2, 2), 22).unwrap();
    // Refresh the first entry's recency, then insert a third.
    assert_eq!(c.get(k(1, 1)).unwrap(), Some(11));
    c.set(k(3, 3), 33).unwrap();
    assert_eq!(c.get(k(2, 2)).unwrap(), None);
    assert_eq!(c.get(k(1, 1)).unwrap(), Some(11));
    assert_eq!(c.get(k(3, 3)).unwrap(), Some(33));
}

#[test]
fn durable_last_write_wins() {
    let mut c = Cache::new("/tmp/offtopic_bot_test_write").unwrap();
    c.set(k(1, 10), 100).unwrap();
    c.set(k(1, 10), 200).unwrap();
    c.set(k(9, 90), 900).unwrap();
    assert_eq!(c.get(k(1, 10)).unwrap(), Some(200));
    assert_eq!(c.get(k(9, 90)).unwrap(), Some(900));
}

#[test]
fn durable_never_written_absent() {
    let mut c = Cache::new("/tmp/offtopic_bot_test_empty").unwrap();
    assert_eq!(c.get(k(123, 456)).unwrap(), None);
}
