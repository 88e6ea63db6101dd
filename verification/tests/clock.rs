use owners_ledger::clock::{parse_hh_mm, split_day};
use owners_ledger::numeral::{parse_i64, print_i64};

#[test]
fn days_start_at_midnight_on_either_side_of_the_epoch() {
    assert_eq!(split_day(0), (0, 0));
    assert_eq!(split_day(86_399), (0, 86_399));
    assert_eq!(split_day(86_400), (1, 0));
    assert_eq!(split_day(-1), (-1, 86_399));
    for time in [i64::MIN, i64::MIN + 1, -86_400, 1_700_000_000, i64::MAX] {
        assert_eq!(split_day(time), (time.div_euclid(86_400), time.rem_euclid(86_400)));
    }
}

#[test]
fn clock_times_are_hours_and_minutes() {
    assert_eq!(parse_hh_mm("09:00"), Some(9 * 3600));
    assert_eq!(parse_hh_mm("9:5"), Some(9 * 3600 + 5 * 60));
    assert_eq!(parse_hh_mm("-1:30"), Some(-3600 + 30 * 60));
    for text in ["", ":", "9", "9:", ":9", "9:00:00", "a:b", "9 :00"] {
        assert_eq!(parse_hh_mm(text), None);
    }
}

#[test]
fn numerals_are_read_as_the_standard_library_reads_them() {
    let texts = [
        "0", "-0", "+0", "7", "+7", "-7", "007", "", "-", "+", "--1", "1-", " 1", "1 ", "0x1", "1_0",
        "9223372036854775807", "9223372036854775808", "-9223372036854775808",
        "-9223372036854775809", "00000000000000000000000000001", "\u{661}",
    ];
    for text in texts {
        assert_eq!(parse_i64(text), text.parse::<i64>().ok());
    }
}

#[test]
fn numerals_are_printed_as_the_standard_library_prints_them() {
    for n in [0, 1, -1, 10, -10, 19_675, i64::MAX, i64::MIN] {
        assert_eq!(print_i64(n), n.to_string());
    }
}
