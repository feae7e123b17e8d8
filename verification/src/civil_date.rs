//! Provenance dates: the Gregorian calendar date of a day count, with no
//! date library behind it.

use vstd::prelude::*;
use crate::text::{push_char, push_padded, zero_padded};

verus! {

/// Days from the start of a 400-year era (1 March of its first year) to
/// 1 March of its `k`-th year.
pub open spec fn year_start(k: int) -> int { 365 * k + k / 4 - k / 100 }

/// Gregorian leap years.
pub open spec fn is_leap(y: int) -> bool { y % 4 == 0 && (y % 100 != 0 || y % 400 == 0) }

/// Days in month `m` of year `y`.
pub open spec fn month_len(y: int, m: int) -> int {
    if m == 2 { if is_leap(y) { 29 } else { 28 } } else if m == 4 || m == 6 || m == 9 || m == 11 { 30 } else { 31 }
}

/// Day number (days since 1970-01-01) of a proleptic Gregorian date.
pub open spec fn days_from_civil(y: int, m: int, d: int) -> int {
    let y1 = if m <= 2 { y - 1 } else { y };
    let era = y1 / 400;
    let yoe = y1 - era * 400;
    let mp = if m > 2 { m - 3 } else { m + 9 };
    let doy = (153 * mp + 2) / 5 + d - 1;
    let doe = year_start(yoe) + doy;
    era * 146097 + doe - 719468
}

/// A real calendar date.
pub open spec fn valid_date(y: int, m: int, d: int) -> bool {
    1 <= m <= 12 && 1 <= d <= month_len(y, m)
}

#[verifier::rlimit(40)]
proof fn yoe_fact(doe: int)
    requires 0 <= doe <= 146096,
    ensures ({
        let yoe = (doe - doe / 1460 + doe / 36524 - doe / 146096) / 365;
        0 <= yoe <= 399 && year_start(yoe) <= doe && (doe < year_start(yoe + 1) || (yoe == 399 && doe <= 146096))
    }),
{
}

proof fn year_len_fact(yoe: int)
    requires 0 <= yoe <= 398,
    ensures year_start(yoe + 1) - year_start(yoe) == if is_leap(yoe + 1) { 366int } else { 365int },
{
}


/// The date of day `z` since 1970-01-01, computed era by era.
pub open spec fn civil_spec(z: int) -> (int, int, int) {
    let z1 = z + 719_468;
    let era = z1 / 146_097;
    let doe = z1 - era * 146_097;
    let yoe = (doe - doe / 1460 + doe / 36_524 - doe / 146_096) / 365;
    let y = yoe + era * 400;
    let doy = doe - year_start(yoe);
    let mp = (5 * doy + 2) / 153;
    let d = doy - (153 * mp + 2) / 5 + 1;
    let m = if mp < 10 { mp + 3 } else { mp - 9 };
    (if m <= 2 { y + 1 } else { y }, m, d)
}

/// The calendar month of the `mp`-th month of a year that starts in March.
pub open spec fn month_of_mp(mp: int) -> int {
    if mp < 10 { mp + 3 } else { mp - 9 }
}

proof fn month_parts(doy: int, y: int)
    requires
        0 <= doy <= 365,
    ensures
        0 <= (5 * doy + 2) / 153 <= 11,
        1 <= doy - (153 * ((5 * doy + 2) / 153) + 2) / 5 + 1,
        (5 * doy + 2) / 153 <= 10 ==> doy - (153 * ((5 * doy + 2) / 153) + 2) / 5 + 1
            <= month_len(y, month_of_mp((5 * doy + 2) / 153)),
        (5 * doy + 2) / 153 == 11 ==> doy - (153 * ((5 * doy + 2) / 153) + 2) / 5 + 1 == doy
            - 336,
{
    let mp = (5 * doy + 2) / 153;
    assert(0 <= mp <= 11);
    if mp == 0 { } else if mp == 1 { } else if mp == 2 { } else if mp == 3 { } else if mp == 4 {
    } else if mp == 5 { } else if mp == 6 { } else if mp == 7 { } else if mp == 8 { } else if mp
        == 9 { } else if mp == 10 { } else { }
}

proof fn era_of_year(yoe: int, era: int)
    requires
        0 <= yoe <= 399,
    ensures
        (yoe + era * 400) / 400 == era,
        (yoe + era * 400) - ((yoe + era * 400) / 400) * 400 == yoe,
{
}

proof fn leap_shift(a: int, era: int)
    ensures
        is_leap(a + era * 400) == is_leap(a),
{
}

/// Every day number names exactly the valid date it came from.
pub proof fn civil_spec_correct(z: int)
    ensures
        days_from_civil(civil_spec(z).0, civil_spec(z).1, civil_spec(z).2) == z,
        valid_date(civil_spec(z).0, civil_spec(z).1, civil_spec(z).2),
{
    let z1 = z + 719_468;
    let era = z1 / 146_097;
    let doe = z1 - era * 146_097;
    yoe_fact(doe);
    let yoe = (doe - doe / 1460 + doe / 36_524 - doe / 146_096) / 365;
    let y = yoe + era * 400;
    let doy = doe - year_start(yoe);
    let (yy, m, d) = civil_spec(z);
    month_parts(doy, yy);
    era_of_year(yoe, era);
    let mp = (5 * doy + 2) / 153;
    assert(m == month_of_mp(mp));
    if yoe <= 398 {
        year_len_fact(yoe);
    }
    if mp == 11 {
        leap_shift(yoe + 1, era);
        assert(yy == yoe + 1 + era * 400);
    }
}

/// The Gregorian date `(year, month, day)` of day `z`, counted from
/// 1970-01-01 as day 0: the inverse of `days_from_civil`.
#[verifier::rlimit(40)]
pub fn civil_from_days(z: i64) -> (r: (i64, u32, u32))
    requires
        z <= i64::MAX - 719_468,
    ensures
        days_from_civil(r.0 as int, r.1 as int, r.2 as int) == z,
        valid_date(r.0 as int, r.1 as int, r.2 as int),
        r.0 as int == civil_spec(z as int).0,
        r.1 as int == civil_spec(z as int).1,
        r.2 as int == civil_spec(z as int).2,
{
    proof {
        civil_spec_correct(z as int);
    }
    let z = z + 719_468;
    let era = if z >= 0 { z } else { z - 146_096 } / 146_097;
    let doe = (z - era * 146_097) as u64;
    proof { yoe_fact(doe as int); }
    let yoe = (doe - doe / 1460 + doe / 36_524 - doe / 146_096) / 365;
    let y = yoe as i64 + era * 400;
    let doy = doe - (365 * yoe + yoe / 4 - yoe / 100);
    let mp = (5 * doy + 2) / 153;
    let d = (doy - (153 * mp + 2) / 5 + 1) as u32;
    let m = if mp < 10 { mp + 3 } else { mp - 9 } as u32;
    (if m <= 2 { y + 1 } else { y }, m, d)
}

/// A capture date for provenance captions, `YYYY-MM-DD`, for a clock reading
/// `secs` seconds after the Unix epoch.
pub fn date_stamp(secs: u64) -> (s: String)
    ensures
        s@ == zero_padded(civil_spec((secs / 86_400) as int).0 as nat, 4) + seq!['-']
            + zero_padded(civil_spec((secs / 86_400) as int).1 as nat, 2) + seq!['-']
            + zero_padded(civil_spec((secs / 86_400) as int).2 as nat, 2),
{
    let days = (secs / 86_400) as i64;
    let (y, m, d) = civil_from_days(days);
    let mut s = String::new();
    push_padded(&mut s, y as u64, 4);
    push_char(&mut s, '-');
    push_padded(&mut s, m as u64, 2);
    push_char(&mut s, '-');
    push_padded(&mut s, d as u64, 2);
    s
}

} // verus!
