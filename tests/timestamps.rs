use srt_delay::error::Error;
use srt_delay::timestamp::{Timestamp, TimestampRange};

#[test]
fn parses_and_writes_a_timestamp() {
    let t = Timestamp::from_str("12:34:56,789").unwrap();
    assert_eq!(t.milliseconds(), 12 * 3_600_000 + 34 * 60_000 + 56 * 1000 + 789);
    assert_eq!(t.as_string(), "12:34:56,789");
}

#[test]
fn round_trip_keeps_the_duration() {
    for text in ["00:00:00,000", "01:02:03,004", "99:59:59,999", "00:99:99,999"] {
        let first = Timestamp::from_str(text).unwrap();
        let second = Timestamp::from_str(&first.as_string()).unwrap();
        assert_eq!(first, second);
    }
}

#[test]
fn out_of_range_fields_are_normalized() {
    let t = Timestamp::from_str("00:75:00,000").unwrap();
    assert_eq!(t.as_string(), "01:15:00,000");
}

#[test]
fn hours_past_ninety_nine_keep_all_digits() {
    assert_eq!(Timestamp::new(100 * 3_600_000).as_string(), "100:00:00,000");
    assert_eq!(Timestamp::new(5 * 3_600_000 + 7).as_string(), "05:00:00,007");
}

#[test]
fn malformed_timestamps_are_refused() {
    for text in ["0:00:01,000", "00:00:01.000", "00:00:01,0000", "aa:00:01,000", "", " 00:00:01,000"] {
        assert_eq!(
            Timestamp::from_str(text),
            Err(Error::InvalidTimestamp(text.to_string()))
        );
    }
}

#[test]
fn delay_moves_later_and_earlier() {
    let t = Timestamp::new(1500);
    assert_eq!(t.delay(2000).milliseconds(), 3500);
    assert_eq!(t.delay(-500).milliseconds(), 1000);
    assert_eq!(t.delay(-1500).milliseconds(), 0);
}

#[test]
fn delays_compose() {
    let t = Timestamp::new(10_000);
    assert_eq!(t.delay(3000).delay(-4500), t.delay(-1500));
    assert_eq!(t.delay(-10_000).delay(250), t.delay(-9750));
}

#[test]
fn zero_delay_changes_nothing() {
    let t = Timestamp::from_str("00:75:00,000").unwrap();
    assert_eq!(t.delay(0), t);
    assert_eq!(t.delay(0).as_string(), "01:15:00,000");
}

#[test]
fn checked_delay_refuses_negative_results() {
    let t = Timestamp::new(1000);
    assert_eq!(t.checked_delay(-1001), None);
    assert_eq!(t.checked_delay(-1000), Some(Timestamp::new(0)));
    assert_eq!(t.checked_delay(i64::MIN), None);
    assert_eq!(Timestamp::new(u64::MAX).checked_delay(1), None);
}

#[test]
fn range_parses_and_writes() {
    let r = TimestampRange::from_str("00:00:01,500 --> 00:00:03,000").unwrap();
    assert_eq!(r.start().milliseconds(), 1500);
    assert_eq!(r.end().milliseconds(), 3000);
    assert_eq!(r.as_string(), "00:00:01,500 --> 00:00:03,000");
}

#[test]
fn range_need_not_be_ordered() {
    let r = TimestampRange::from_str("00:00:05,000 --> 00:00:01,000").unwrap();
    assert_eq!(r.delay(1000).as_string(), "00:00:06,000 --> 00:00:02,000");
}

#[test]
fn malformed_ranges_are_refused() {
    for text in [
        "00:00:01,500 -> 00:00:03,000",
        "00:00:01,500  --> 00:00:03,000",
        "00:00:01,500 --> 00:00:03,000 ",
        "00:00:01,500 --> 0:00:03,000",
        "42",
    ] {
        assert_eq!(
            TimestampRange::from_str(text),
            Err(Error::InvalidTimestamp(text.to_string()))
        );
    }
}

#[test]
fn range_delay_shifts_both_ends() {
    let r = TimestampRange::new(Timestamp::new(1000), Timestamp::new(2000));
    assert_eq!(r.delay(-500).as_string(), "00:00:00,500 --> 00:00:01,500");
    assert_eq!(r.checked_delay(-1001), None);
    assert_eq!(r.checked_delay(-1000).unwrap().as_string(), "00:00:00,000 --> 00:00:01,000");
}
