use ribbot::api::{
    checked_rate_limit_values, closed_issues_url, get_rate_limit_values, reset_instant, issues_listing_url, merged_pulls_url, must_wait,
    open_issues_url, response_action, HeaderError, IntErrorKind, RateLimitValues, ResponseAction,
};
use ribbot::dates::{begin_and_end, time_to_wait, Timestamp, FIRST_DAY, LAST_DAY};

fn limits(remaining: u64) -> RateLimitValues {
    RateLimitValues { limit: 5000, remaining, reset: 1_700_000_000 }
}

#[test]
fn rate_limit_headers_are_read() {
    let v = get_rate_limit_values(b"5000", b"4999", b"1661990400").unwrap();
    assert_eq!(v, RateLimitValues { limit: 5000, remaining: 4999, reset: 1661990400 });
    let v = get_rate_limit_values(b"+7", b"0", b"18446744073709551615").unwrap();
    assert_eq!(v, RateLimitValues { limit: 7, remaining: 0, reset: u64::MAX });
}

#[test]
fn rate_limit_header_errors() {
    assert_eq!(get_rate_limit_values(b"", b"1", b"1"), Err(HeaderError::BadInteger(IntErrorKind::Empty)));
    assert_eq!(get_rate_limit_values(b"+", b"1", b"1"), Err(HeaderError::BadInteger(IntErrorKind::InvalidDigit)));
    assert_eq!(get_rate_limit_values(b"1", b"-1", b"1"), Err(HeaderError::BadInteger(IntErrorKind::InvalidDigit)));
    assert_eq!(
        get_rate_limit_values(b"1", b"1", b"18446744073709551616"),
        Err(HeaderError::BadInteger(IntErrorKind::PosOverflow))
    );
    assert_eq!(
        get_rate_limit_values(b"99999999999999999999x", b"1", b"1"),
        Err(HeaderError::BadInteger(IntErrorKind::PosOverflow))
    );
    assert_eq!(
        get_rate_limit_values(b"1844674407370955161x", b"1", b"1"),
        Err(HeaderError::BadInteger(IntErrorKind::InvalidDigit))
    );
    assert_eq!(get_rate_limit_values(b"\t5", b"1", b"1"), Err(HeaderError::BadInteger(IntErrorKind::InvalidDigit)));
    assert_eq!(get_rate_limit_values(b"5", b"\x7f", b"1"), Err(HeaderError::NotVisibleAscii));
    // The first header that cannot be read gives the error.
    assert_eq!(get_rate_limit_values(b"x", b"\x7f", b""), Err(HeaderError::BadInteger(IntErrorKind::InvalidDigit)));
}

#[test]
fn decimal_text_reads_back() {
    for n in [0u64, 7, 10, 4999, 1661990400, u64::MAX] {
        let text = n.to_string();
        assert_eq!(get_rate_limit_values(text.as_bytes(), b"0", b"0").unwrap().limit, n);
    }
}

#[test]
fn response_actions() {
    assert_eq!(response_action(200, limits(0)), ResponseAction::Accept);
    assert_eq!(response_action(403, limits(0)), ResponseAction::WaitAndRetry);
    assert_eq!(response_action(403, limits(12)), ResponseAction::UnexpectedForbidden);
    assert_eq!(response_action(404, limits(0)), ResponseAction::UnexpectedResponse);
    assert_eq!(response_action(500, limits(3)), ResponseAction::UnexpectedResponse);
}

#[test]
fn rate_limit_wait() {
    assert!(!must_wait(None));
    assert!(!must_wait(Some(limits(1))));
    assert!(must_wait(Some(limits(0))));
}

#[test]
fn listing_urls() {
    assert_eq!(
        merged_pulls_url("AleoHQ/aleo"),
        "https://api.github.com/repos/AleoHQ/aleo/pulls?state=closed&sort=updated&direction=desc"
    );
    assert_eq!(
        issues_listing_url("o/r", "open", "S"),
        "https://api.github.com/repos/o/r/issues?state=open&sort=updated&direction=desc&since=S"
    );
}

#[test]
fn issue_listing_urls_carry_the_window_start() {
    // 2022-09-01 is day 738399 counted from January 1 of year 1.
    let (begin, end) = begin_and_end(738399, 738429).unwrap();
    assert_eq!(begin, Timestamp { secs: 1661990400, nanos: 0 });
    assert_eq!(end, Timestamp { secs: 1664582400, nanos: 0 });
    assert_eq!(
        closed_issues_url("o/r", 738399).unwrap(),
        "https://api.github.com/repos/o/r/issues?state=closed&sort=updated&direction=desc&since=2022-09-01T00:00:00.000Z"
    );
    assert_eq!(
        open_issues_url("o/r", 738399).unwrap(),
        "https://api.github.com/repos/o/r/issues?state=open&sort=updated&direction=desc&since=2022-09-01T00:00:00.000Z"
    );
}

#[test]
fn begin_and_end_epoch() {
    assert_eq!(
        begin_and_end(719163, 719164),
        Some((Timestamp { secs: 0, nanos: 0 }, Timestamp { secs: 86400, nanos: 0 }))
    );
    assert_eq!(begin_and_end(i32::MAX, 1), None);
}

#[test]
fn waiting_time() {
    let a = Timestamp { secs: 100, nanos: 500 };
    let b = Timestamp { secs: 103, nanos: 200 };
    assert_eq!(time_to_wait(a, b), Some((2, 999_999_700)));
    assert_eq!(time_to_wait(b, a), None);
    assert_eq!(time_to_wait(a, a), None);
    assert_eq!(time_to_wait(a, Timestamp { secs: 100, nanos: 501 }), Some((0, 1)));
}

#[test]
fn waiting_time_across_a_leap_second() {
    // 59.5 s into a leap second of the minute ending at second 59, then 0.2 s past 60.
    let now = Timestamp { secs: 59, nanos: 1_500_000_000 };
    let until = Timestamp { secs: 60, nanos: 200_000_000 };
    assert_eq!(time_to_wait(now, until), Some((0, 700_000_000)));
    // Not an instant chrono can hold: a leap second outside the last second of a minute.
    assert_eq!(time_to_wait(Timestamp { secs: 58, nanos: 1_500_000_000 }, until), None);
}

#[test]
fn chrono_day_range_bounds() {
    assert!(begin_and_end(FIRST_DAY, LAST_DAY).is_some());
    assert_eq!(begin_and_end(FIRST_DAY - 1, LAST_DAY), None);
    assert_eq!(begin_and_end(FIRST_DAY, LAST_DAY + 1), None);
    assert_eq!(begin_and_end(i32::MIN, 0), None);
}

#[test]
fn issue_listing_url_out_of_range() {
    assert!(closed_issues_url("o/r", FIRST_DAY).is_some());
    assert_eq!(closed_issues_url("o/r", FIRST_DAY - 1), None);
    assert!(open_issues_url("o/r", LAST_DAY).is_some());
    assert_eq!(open_issues_url("o/r", LAST_DAY + 1), None);
    assert_eq!(open_issues_url("o/r", i32::MIN), None);
}

#[test]
fn rate_limit_reset_must_be_representable() {
    // `u64::MAX as i64` is -1, one second before the epoch.
    let v = checked_rate_limit_values(b"1", b"2", b"18446744073709551615").unwrap().unwrap();
    assert_eq!(reset_instant(v), Timestamp { secs: -1, nanos: 0 });
    let last_end = (LAST_DAY as i64 - 719163 + 1) * 86400;
    let inside = (last_end - 1).to_string();
    let outside = last_end.to_string();
    assert!(checked_rate_limit_values(b"1", b"2", inside.as_bytes()).unwrap().is_ok());
    assert!(checked_rate_limit_values(b"1", b"2", outside.as_bytes()).is_none());
    // A header that does not read is an error before the reset is looked at.
    assert_eq!(
        checked_rate_limit_values(b"x", b"2", outside.as_bytes()),
        Some(Err(HeaderError::BadInteger(IntErrorKind::InvalidDigit)))
    );
    assert_eq!(
        checked_rate_limit_values(b"1", b"2", b"5"),
        Some(Ok(RateLimitValues { limit: 1, remaining: 2, reset: 5 }))
    );
}
