//! Times of day and days of the week, in UTC.

use vstd::prelude::*;
use vstd::string::*;

use crate::arith::fits;
use crate::numeral::{integer_text, parse_i64, read};

verus! {

/// The day of a time, counted from the epoch.
pub open spec fn day_of(time: i64) -> int {
    time as int / 86400
}

/// The seconds of a time since midnight.
pub open spec fn second_of_day(time: i64) -> int {
    time as int % 86400
}

/// The day of a time, counted from the epoch, and its seconds since midnight.
pub fn split_day(time: i64) -> (r: (i64, i64))
    ensures
        r.0 == day_of(time),
        r.1 == second_of_day(time),
{
    // So many days that any time is after the epoch once they are added.
    let ahead: i128 = 106_751_991_167_301;
    let shifted: i128 = time as i128 + ahead * 86400;
    let day: i128 = shifted / 86400 - ahead;
    let second: i128 = shifted % 86400;
    (day as i64, second as i64)
}

/// The first and the last day that have a weekday here: those of the years -262143 to 262142.
pub open spec fn has_weekday(time: i64) -> bool {
    -96_465_292 <= day_of(time) <= 95_026_236
}

/// The weekday of a time, `0` for Monday to `6` for Sunday. The epoch was a Thursday.
pub open spec fn weekday_of(time: i64) -> u32 {
    ((day_of(time) + 3) % 7) as u32
}

/// The weekday of a time: `chrono`'s `Utc.timestamp_opt`, then `weekday` and
/// `num_days_from_monday`. What is claimed is the calendar's cycle of seven days, and that a time
/// has a weekday exactly where its day is one that `chrono::NaiveDate` can hold.
#[verifier::external_body]
pub(crate) fn weekday(time: i64) -> (r: Option<u32>)
    ensures
        r == (if has_weekday(time) {
            Some(weekday_of(time))
        } else {
            None
        }),
{
    let at = chrono::TimeZone::timestamp_opt(&chrono::Utc, time, 0).single()?;
    Some(chrono::Datelike::weekday(&at).num_days_from_monday())
}

/// The seconds since midnight that a text `h:m` stands for, cut at its first colon; `None` where
/// a part is not a whole number, or the seconds do not fit in 64 bits.
pub open spec fn clock_seconds(s: Seq<char>) -> Option<i64> {
    match s.index_of_first(':') {
        None => None,
        Some(i) => match (read(s.take(i)), read(s.skip(i + 1))) {
            (Some(h), Some(m)) => if fits(h * 3600 + m * 60) {
                Some((h * 3600 + m * 60) as i64)
            } else {
                None
            },
            _ => None,
        },
    }
}

/// Where the first colon of a text stands.
fn find_colon(s: &str) -> (r: Option<usize>)
    ensures
        match r {
            Some(i) => s@.index_of_first(':') == Some(i as int) && i < s@.len(),
            None => s@.index_of_first(':') is None,
        },
{
    let n = s.unicode_len();
    let mut i: usize = 0;
    proof {
        s@.index_of_first_ensures(':');
    }
    while i < n
        invariant
            n == s@.len(),
            i <= n,
            forall|j: int| 0 <= j < i ==> s@[j] != ':',
            match s@.index_of_first(':') {
                Some(k) => 0 <= k < n && s@[k] == ':' && forall|j: int| 0 <= j < k ==> s@[j] != ':',
                None => !s@.contains(':'),
            },
        decreases n - i,
    {
        if s.get_char(i) == ':' {
            assert(s@.contains(s@[i as int]));
            return Some(i);
        }
        i = i + 1;
    }
    None
}

/// Reads a time of day.
pub fn parse_hh_mm(s: &str) -> (r: Option<i64>)
    ensures
        r == clock_seconds(s@),
{
    let i = match find_colon(s) {
        Some(i) => i,
        None => {
            return None;
        },
    };
    let n = s.unicode_len();
    let h = s.substring_char(0, i);
    let m = s.substring_char(i + 1, n);
    assert(h@ =~= s@.take(i as int));
    assert(m@ =~= s@.skip(i + 1));
    match (parse_i64(h), parse_i64(m)) {
        (Some(h), Some(m)) => {
            let seconds: i128 = h as i128 * 3600 + m as i128 * 60;
            if -0x8000_0000_0000_0000i128 <= seconds && seconds <= 0x7fff_ffff_ffff_ffffi128 {
                Some(seconds as i64)
            } else {
                None
            }
        },
        _ => None,
    }
}

/// A time splits into its day and its seconds since midnight, and is made of nothing else.
pub proof fn law_a_time_is_its_day_and_its_seconds(time: i64, r: (i64, i64))
    requires
        split_day.ensures((time,), r),
    ensures
        r.0 * 86400 + r.1 == time,
        0 <= r.1 < 86400,
{
}

/// The weekdays follow each other day by day, seven of them, and the epoch was the fourth.
pub proof fn law_weekdays_follow_each_other(time: i64)
    ensures
        weekday_of(time) < 7,
        time <= i64::MAX - 86400 ==> weekday_of((time + 86400) as i64) == (weekday_of(time) + 1) % 7,
        0 <= time < 86400 ==> weekday_of(time) == 3,
        has_weekday(time) <==> -96_465_292 * 86400 <= time < 95_026_237 * 86400,
{
}

/// A time of day is an hour and a minute, parted by a colon.
pub proof fn law_times_of_day_are_read(h: i64, m: i64)
    ensures
        clock_seconds(integer_text(h as int) + seq![':'] + integer_text(m as int)) == (if i64::MIN
            <= h * 3600 + m * 60 <= i64::MAX {
            Some((h * 3600 + m * 60) as i64)
        } else {
            None
        }),
{
    let a = integer_text(h as int);
    let b = integer_text(m as int);
    let s = a + seq![':'] + b;
    let i = a.len() as int;
    assert(s[i] == ':');
    assert(s.contains(':'));
    s.index_of_first_ensures(':');
    let k = s.index_of_first(':')->0;
    assert forall|j: int| 0 <= j < i implies s[j] != ':' by {
        crate::numeral::law_numbers_are_written_in_digits(h, j);
        assert(s[j] == a[j]);
    }
    assert(k == i);
    assert(s.take(i) =~= a);
    assert(s.skip(i + 1) =~= b);
    crate::numeral::law_numbers_are_read_back(h);
    crate::numeral::law_numbers_are_read_back(m);
}

/// Without a colon there is no time of day.
pub proof fn law_no_colon_no_time(s: Seq<char>)
    requires
        !s.contains(':'),
    ensures
        clock_seconds(s) is None,
{
    s.index_of_first_ensures(':');
}

} // verus!
