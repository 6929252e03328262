//! The time that log records are stamped with, and spans of time.

use std::time::Duration;
use vstd::prelude::*;

verus! {

/// Whether a text has decimal digits only.
pub open spec fn digits(s: Seq<char>) -> bool {
    forall|i: int| 0 <= i < s.len() ==> '0' <= #[trigger] s[i] <= '9'
}

/// Whether a text is a number of two digits in a range.
pub open spec fn two_digits(s: Seq<char>, low: int, high: int) -> bool {
    &&& s.len() == 2
    &&& digits(s)
    &&& low <= (s[0] as int - '0' as int) * 10 + (s[1] as int - '0' as int) <= high
}

/// Whether a text is a year: four digits, or a plus sign and the five or six digits of a year that
/// needs more.
pub open spec fn year_text(s: Seq<char>) -> bool {
    ||| s.len() == 4 && digits(s)
    ||| (s.len() == 6 || s.len() == 7) && s[0] == '+' && s[1] != '0' && digits(s.skip(1))
}

/// Whether a text is a year, a month and a day, as in `2025-06-18`.
pub open spec fn date_text(s: Seq<char>) -> bool {
    &&& s.len() >= 6
    &&& {
        let n = s.len() - 6;
        &&& year_text(s.take(n))
        &&& s[n] == '-'
        &&& two_digits(s.subrange(n + 1, n + 3), 1, 12)
        &&& s[n + 3] == '-'
        &&& two_digits(s.subrange(n + 4, n + 6), 1, 31)
    }
}

/// Whether a text is an hour, a minute and a second, as in `23:59:59`.
pub open spec fn time_text(s: Seq<char>) -> bool {
    &&& s.len() == 8
    &&& two_digits(s.subrange(0, 2), 0, 23)
    &&& s[2] == ':'
    &&& two_digits(s.subrange(3, 5), 0, 59)
    &&& s[5] == ':'
    &&& two_digits(s.subrange(6, 8), 0, 59)
}

/// Whether a text is a fraction of a second: nothing, or a point and thousandths, millionths or
/// billionths.
pub open spec fn fraction_text(s: Seq<char>) -> bool {
    ||| s.len() == 0
    ||| (s.len() == 4 || s.len() == 7 || s.len() == 10) && s[0] == '.' && digits(s.skip(1))
}

/// Whether a text is a time in UTC by RFC 3339 whose date has `n` characters: the date, a `T`, the
/// time of day, the fraction of the second if there is one, and the offset zero.
pub open spec fn dated_stamp(s: Seq<char>, n: int) -> bool {
    &&& s.len() >= n + 15
    &&& date_text(s.take(n))
    &&& s[n] == 'T'
    &&& time_text(s.subrange(n + 1, n + 9))
    &&& fraction_text(s.subrange(n + 9, s.len() - 6))
    &&& s.skip(s.len() - 6) == "+00:00"@
}

/// Whether a text is a time in UTC by RFC 3339. Years from 10000 on make the date longer.
pub open spec fn utc_stamp(s: Seq<char>) -> bool {
    dated_stamp(s, 10) || dated_stamp(s, 12) || dated_stamp(s, 13)
}

/// `chrono::Utc::now` and `chrono::DateTime::to_rfc3339`: the current time in UTC by RFC 3339, with
/// as many digits of the second as are not zero, in groups of three. Which time it is, the
/// contract leaves open. A system clock before 1970, or after the last year that chrono has, makes
/// the call panic.
#[verifier::external_body]
pub(crate) fn utc_now() -> (r: String)
    ensures
        utc_stamp(r@),
{
    chrono::Utc::now().to_rfc3339()
}

/// The length of a span of time in nanoseconds.
pub uninterp spec fn duration_nanos(span: Duration) -> nat;

/// `Duration::from_secs`: the span of this many whole seconds.
#[verifier::external_body]
pub(crate) fn whole_seconds(secs: u64) -> (r: Duration)
    ensures
        duration_nanos(r) == secs * 1_000_000_000,
{
    Duration::from_secs(secs)
}

/// A stamp is a date and a time of day in digits, each in its place, a fraction of three, six or
/// nine digits or none, and the offset zero. `r` is the place of the `T`.
pub proof fn law_stamps_are_times(s: Seq<char>) -> (r: int)
    requires
        utc_stamp(s),
    ensures
        r == 10 || r == 12 || r == 13,
        s.len() == r + 15 || s.len() == r + 19 || s.len() == r + 22 || s.len() == r + 25,
        s[r - 6] == '-' && s[r - 3] == '-' && s[r] == 'T' && s[r + 3] == ':' && s[r + 6] == ':',
        s.len() > r + 15 ==> s[r + 9] == '.',
        r > 10 ==> s[0] == '+',
        forall|i: int|
            0 <= i < s.len() - 6 && i != r - 6 && i != r - 3 && i != r && i != r + 3 && i != r + 6
                && i != r + 9 && (i > 0 || r == 10) ==> '0' <= #[trigger] s[i] <= '9',
        '0' <= s[r - 5] <= '1' && '0' <= s[r - 2] <= '3',
        '0' <= s[r + 1] <= '2' && '0' <= s[r + 4] <= '5' && '0' <= s[r + 7] <= '5',
        s[s.len() - 6] == '+' && s[s.len() - 5] == '0' && s[s.len() - 4] == '0' && s[s.len() - 3]
            == ':' && s[s.len() - 2] == '0' && s[s.len() - 1] == '0',
{
    let n: int = if dated_stamp(s, 10) {
        10
    } else if dated_stamp(s, 12) {
        12
    } else {
        13
    };
    assert(dated_stamp(s, n));
    reveal_strlit("+00:00");
    let end = s.skip(s.len() - 6);
    assert(end[0] == s[s.len() - 6] && end[1] == s[s.len() - 5] && end[2] == s[s.len() - 4]
        && end[3] == s[s.len() - 3] && end[4] == s[s.len() - 2] && end[5] == s[s.len() - 1]);
    let date = s.take(n);
    let y = n - 6;
    let year = date.take(y);
    let month = date.subrange(y + 1, y + 3);
    let day = date.subrange(y + 4, y + 6);
    let time = s.subrange(n + 1, n + 9);
    let hour = time.subrange(0, 2);
    let minute = time.subrange(3, 5);
    let second = time.subrange(6, 8);
    let fraction = s.subrange(n + 9, s.len() - 6);
    assert(date[y] == s[n - 6] && date[y + 3] == s[n - 3]);
    assert(time[2] == s[n + 3] && time[5] == s[n + 6]);
    assert(month[0] == s[n - 5] && month[1] == s[n - 4]);
    assert(day[0] == s[n - 2] && day[1] == s[n - 1]);
    assert(hour[0] == s[n + 1] && hour[1] == s[n + 2]);
    assert(minute[0] == s[n + 4] && minute[1] == s[n + 5]);
    assert(second[0] == s[n + 7] && second[1] == s[n + 8]);
    assert(digits(month) && digits(day) && digits(hour) && digits(minute) && digits(second));
    if fraction.len() > 0 {
        assert(fraction[0] == s[n + 9]);
    }
    if n > 10 {
        assert(year[0] == s[0]);
    }
    assert forall|i: int|
        0 <= i < s.len() - 6 && i != n - 6 && i != n - 3 && i != n && i != n + 3 && i != n + 6 && i
            != n + 9 && (i > 0 || n == 10) implies '0' <= #[trigger] s[i] <= '9' by {
        if i < y {
            assert(year[i] == s[i]);
            if n > 10 {
                assert(year.skip(1)[i - 1] == s[i]);
            }
        } else if i > n + 9 {
            assert(fraction.skip(1)[i - n - 10] == s[i]);
        }
    }
    n
}

} // verus!
