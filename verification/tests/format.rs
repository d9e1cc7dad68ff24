use x2_colon_api::format::{digit_of, format_duration, push_decimal};
use x2_colon_api::timestamp::{validate_range, RangeError, Timestamp};

fn time(hours: u32, minutes: u32, seconds: u32) -> Timestamp {
    Timestamp { hours, minutes, seconds }
}

#[test]
fn duration_is_minutes_and_two_places_of_seconds() {
    assert_eq!(format_duration(0), "0:00");
    assert_eq!(format_duration(9), "0:09");
    assert_eq!(format_duration(59), "0:59");
    assert_eq!(format_duration(60), "1:00");
    assert_eq!(format_duration(83), "1:23");
    assert_eq!(format_duration(600), "10:00");
    assert_eq!(format_duration(3599), "59:59");
    assert_eq!(format_duration(3600), "60:00");
    assert_eq!(format_duration(5400), "90:00");
    assert_eq!(format_duration(u32::MAX), "71582788:15");
}

#[test]
fn formatted_duration_reads_back() {
    for seconds in [0u32, 1, 59, 60, 61, 119, 120, 3599, 3600, 86_399, 86_400, 1_000_000, u32::MAX] {
        let text = format_duration(seconds);
        let (minutes, rest) = text.split_once(':').expect("a colon");
        assert!(!minutes.is_empty() && minutes.bytes().all(|b| b.is_ascii_digit()));
        assert!(rest.len() == 2 && rest.bytes().all(|b| b.is_ascii_digit()));
        let minutes: u64 = minutes.parse().unwrap();
        let rest: u64 = rest.parse().unwrap();
        assert!(rest <= 59);
        assert_eq!(minutes * 60 + rest, seconds as u64);
    }
}

#[test]
fn decimal_is_appended() {
    let mut text = String::from("n=");
    push_decimal(&mut text, 0);
    text.push(',');
    push_decimal(&mut text, 7);
    text.push(',');
    push_decimal(&mut text, 1090);
    text.push(',');
    push_decimal(&mut text, u64::MAX);
    assert_eq!(text, "n=0,7,1090,18446744073709551615");
}

#[test]
fn digits_are_ascii() {
    let digits: String = (0u8..10).map(digit_of).collect();
    assert_eq!(digits, "0123456789");
}

#[test]
fn timestamp_in_seconds() {
    assert_eq!(time(0, 0, 0).to_seconds(), 0);
    assert_eq!(time(0, 1, 23).to_seconds(), 83);
    assert_eq!(time(1, 1, 1).to_seconds(), 3661);
    assert_eq!(time(0, 75, 90).to_seconds(), 4590);
    assert_eq!(
        time(u32::MAX, u32::MAX, u32::MAX).to_seconds(),
        u32::MAX as u64 * 3661
    );
}

#[test]
fn range_verdicts() {
    assert_eq!(validate_range(time(0, 1, 0), time(0, 2, 0)), Ok(60));
    assert_eq!(validate_range(time(1, 0, 0), time(2, 30, 0)), Ok(5400));
    assert_eq!(validate_range(time(3, 59, 59), time(3, 59, 59)), Ok(0));
    assert_eq!(
        validate_range(time(0, 0, 0), time(u32::MAX, 59, 59)),
        Ok(u32::MAX as u64 * 3600 + 3599)
    );
    assert_eq!(validate_range(time(0, 60, 61), time(0, 62, 63)), Err(RangeError::InvalidMinutes(60)));
    assert_eq!(validate_range(time(0, 59, 61), time(0, 62, 63)), Err(RangeError::InvalidMinutes(62)));
    assert_eq!(validate_range(time(0, 59, 61), time(0, 0, 63)), Err(RangeError::InvalidSeconds(61)));
    assert_eq!(validate_range(time(9, 59, 59), time(0, 0, 63)), Err(RangeError::InvalidSeconds(63)));
    assert_eq!(validate_range(time(0, 0, 1), time(0, 0, 0)), Err(RangeError::EndBeforeStart));
    assert_eq!(validate_range(time(1, 0, 0), time(0, 59, 59)), Err(RangeError::EndBeforeStart));
}
