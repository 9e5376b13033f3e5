use request_follower::duration::{DurationParseError, FiniteDuration};
use request_follower::http::duration::{FiniteDuration as UptimeDuration, TimeSpan};

#[test]
fn conversions() {
    let fd = FiniteDuration::from_seconds(129601);

    assert_eq!(fd.as_days(), 1);
    assert_eq!(fd.as_hours(), 36);
    assert_eq!(fd.as_minutes(), 2160);
}

#[test]
fn duration_subtract() {
    let fd_1 = FiniteDuration::from_seconds(3160);
    let fd_2 = FiniteDuration::from_seconds(3000);
    let result = fd_1 - fd_2;
    assert_eq!(result.seconds, 160);

    let fd_1 = UptimeDuration::from_seconds(3160);
    let fd_2 = UptimeDuration::from_seconds(3000);
    let result = fd_1 - fd_2;
    assert_eq!(160, result.seconds)
}

#[test]
fn duration_to_string() {
    assert_eq!(FiniteDuration::from_days(2).to_string(), "2d");
    assert_eq!(FiniteDuration::from_hours(36).to_string(), "1d12h");
    assert_eq!(FiniteDuration::from_seconds(129601).to_string(), "1d12h1s");
    assert_eq!(FiniteDuration::from_seconds(0).to_string(), "0s");

    assert_eq!("1d12h1s", UptimeDuration::from_seconds(129601).to_string());
    assert_eq!("0s", UptimeDuration::from_seconds(0).to_string());
}

#[test]
fn deserialize_empty_string() {
    let error = FiniteDuration::parse("").unwrap_err();
    assert_eq!(error.to_string(), "received empty string");
}

#[test]
fn deserialize_invalid_string_repr() {
    let error = FiniteDuration::parse("foo").unwrap_err();
    assert_eq!(
        error.to_string(),
        "invalid string repr of FiniteDuration. expected format is XXdXXhXXmXXs"
    );
}

#[test]
fn deserialize_negative_number() {
    let error = FiniteDuration::parse("-10d").unwrap_err();
    assert_eq!(
        error.to_string(),
        "invalid string repr of FiniteDuration. expected format is XXdXXhXXmXXs"
    );
}

#[test]
fn deserialize_days() {
    let result = FiniteDuration::parse("10d").unwrap();
    assert_eq!(result, FiniteDuration::from_days(10));
}

#[test]
fn deserialize_hours() {
    let result = FiniteDuration::parse("2h").unwrap();
    assert_eq!(result, FiniteDuration::from_hours(2));
}

#[test]
fn deserialize_full_string_repr() {
    let result = FiniteDuration::parse("1d12h1m1s").unwrap();
    assert_eq!(result, FiniteDuration::from_seconds(129661));
}

#[test]
fn from_duration() {
    let duration = TimeSpan::new(129601, 0);
    let finite_duration = UptimeDuration::from(duration);

    assert_eq!(1, finite_duration.days());
    assert_eq!(36, finite_duration.hours());
    assert_eq!(2160, finite_duration.minutes());
}

#[test]
fn to_string_shows_every_component() {
    assert_eq!(FiniteDuration::from_seconds(129661).to_string(), "1d12h1m1s");
    assert_eq!(FiniteDuration::from_minutes(61).to_string(), "1h1m");
    assert_eq!(FiniteDuration::from_seconds(59).to_string(), "59s");
    assert_eq!(FiniteDuration::from_seconds(864000).to_string(), "10d");
}

#[test]
fn to_string_of_negative_span_shows_its_length() {
    assert_eq!(FiniteDuration::from_seconds(-90061).to_string(), "1d1h1m1s");
    assert_eq!(
        FiniteDuration::from_seconds(i64::MIN).to_string(),
        "106751991167300d15h30m8s"
    );
}

#[test]
fn parse_and_render_agree() {
    for text in ["1d", "3h", "45m", "7s", "2d5m", "1h59m59s", "1d12h1m1s"] {
        assert_eq!(FiniteDuration::parse(text).unwrap().to_string(), text);
    }
}

#[test]
fn parse_accepts_zero_components() {
    assert_eq!(FiniteDuration::parse("0d").unwrap().seconds, 0);
    assert_eq!(FiniteDuration::parse("0d0h0m0s").unwrap().seconds, 0);
    assert_eq!(FiniteDuration::parse("90m").unwrap().seconds, 5400);
    assert_eq!(FiniteDuration::parse("007s").unwrap().seconds, 7);
}

#[test]
fn parse_refuses_disordered_or_repeated_units() {
    for text in ["1h1d", "1d1d", "1s1m", "d", "10", "1x", "1d ", " 1d", "1d-1h", "١d"] {
        assert_eq!(
            FiniteDuration::parse(text).unwrap_err(),
            DurationParseError::InvalidFormat,
            "{}",
            text
        );
    }
}

#[test]
fn parse_reports_out_of_range() {
    let error = FiniteDuration::parse("9223372036854775808s").unwrap_err();
    assert_eq!(error, DurationParseError::OutOfRange);
    assert_eq!(error.to_string(), "duration does not fit in 64-bit seconds");
    assert_eq!(
        FiniteDuration::parse("106751991167301d").unwrap_err(),
        DurationParseError::OutOfRange
    );
    assert_eq!(
        FiniteDuration::parse("9223372036854775807s").unwrap().seconds,
        i64::MAX
    );
    assert_eq!(
        FiniteDuration::parse("99999999999999999999d1x").unwrap_err(),
        DurationParseError::InvalidFormat
    );
}

#[test]
fn conversions_round_toward_zero() {
    let fd = FiniteDuration::from_seconds(-129601);
    assert_eq!(fd.as_days(), -1);
    assert_eq!(fd.as_hours(), -36);
    assert_eq!(fd.as_minutes(), -2160);
}

#[test]
fn difference_is_symmetric_and_saturates() {
    let a = FiniteDuration::from_seconds(3000);
    let b = FiniteDuration::from_seconds(3160);
    assert_eq!(a.difference(&b).seconds, 160);
    assert_eq!(b.difference(&a).seconds, 160);
    let low = FiniteDuration::from_seconds(i64::MIN);
    let high = FiniteDuration::from_seconds(i64::MAX);
    assert_eq!(low.difference(&high).seconds, i64::MAX);
}

#[test]
fn between_counts_seconds_and_saturates() {
    assert_eq!(FiniteDuration::between(1_000_100, 1_000_000).seconds, 100);
    assert_eq!(FiniteDuration::between(1_000_000, 1_000_100).seconds, -100);
    assert_eq!(FiniteDuration::between(i64::MAX, -10).seconds, i64::MAX);
    assert_eq!(UptimeDuration::between(500, 200).seconds, 300);
}

#[test]
fn uptime_constructors() {
    assert_eq!(UptimeDuration::from_days(1).seconds, 86400);
    assert_eq!(UptimeDuration::from_hours(2).seconds, 7200);
    assert_eq!(UptimeDuration::from_minutes(3).seconds, 180);
    assert_eq!(UptimeDuration::from(TimeSpan::new(-5, -999_999_999)).seconds, -5);
}
