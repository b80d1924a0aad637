//! Timestamps and display dates.
//!
//! The primary feed timestamps events in epoch nanoseconds; canonical
//! records keep epoch seconds plus a UTC display date (`dd-mm-yyyy`)
//! and time (`hh:mmam`).  The storage layer wants dates reordered as
//! `yyyy-mm-dd`, which is parsed and validated here as a proper
//! calendar date.

use vstd::prelude::*;

use chrono::TimeZone;

use crate::num::{
    all_digits, check_all_digits, pad2, pad4, parse_u64, str_to_nat, u64_to_pad2_string,
    u64_to_pad4_string,
};
use crate::scan::{find_first, lemma_find_first_is, lemma_find_first_none};

verus! {

/// Error for a string that does not denote a valid date or timestamp.
#[derive(Debug, PartialEq, Eq, Structural, Clone, Copy)]
pub struct DateParseError;

/// The `dd-mm-yyyy` UTC rendering of an epoch-second timestamp; only
/// the calendar computation decides it.
pub uninterp spec fn date_display_of(secs: int) -> Seq<char>;

/// The `hh:mmam`/`hh:mmpm` UTC rendering of an epoch-second
/// timestamp; only the calendar computation decides it.
pub uninterp spec fn time_display_of(secs: int) -> Seq<char>;

/// Relies on chrono: `Utc.timestamp_opt(secs, 0)` followed by
/// formatting with `"%d-%m-%Y"` and with `"%I:%M%p"` lowercased.  The
/// two renderings are functions of the UTC timestamp alone, and every
/// timestamp from the epoch up to year 9999 lies inside chrono's
/// documented representable range, so formatting it cannot fail.
#[verifier::external_body]
fn utc_display_strings(secs: i64) -> (r: Option<(String, String)>)
    ensures
        r matches Some(p) ==> p.0@ == date_display_of(secs as int) && p.1@ == time_display_of(
            secs as int,
        ),
        0 <= secs < 253402300800 ==> r is Some,
{
    match chrono::Utc.timestamp_opt(secs, 0).single() {
        Some(dt) => {
            let date = dt.format("%d-%m-%Y").to_string();
            let time = dt.format("%I:%M%p").to_string().to_lowercase();
            Some((date, time))
        },
        None => None,
    }
}

/// Whether `s` is a digit string denoting an epoch-nanosecond
/// timestamp that fits a signed 64-bit integer.
pub open spec fn valid_epoch_nanos(s: Seq<char>) -> bool {
    s.len() > 0 && all_digits(s) && str_to_nat(s) <= i64::MAX as nat
}

/// The whole seconds of an epoch-nanosecond digit string.
pub open spec fn epoch_secs_of(s: Seq<char>) -> int {
    str_to_nat(s) as int / 1_000_000_000
}

/// Converts an epoch-nanosecond string into the UTC display date and
/// time of the canonical record.
pub fn format_epoch_timestamp(epoch_nanos: &str) -> (r: Result<(String, String), DateParseError>)
    ensures
        r is Ok <==> valid_epoch_nanos(epoch_nanos@),
        r matches Ok(p) ==> p.0@ == date_display_of(epoch_secs_of(epoch_nanos@)) && p.1@
            == time_display_of(epoch_secs_of(epoch_nanos@)),
{
    let nanos = match parse_u64(epoch_nanos) {
        Ok(v) => v,
        Err(_) => {
            return Err(DateParseError);
        },
    };
    if nanos > 0x7fff_ffff_ffff_ffff {
        return Err(DateParseError);
    }
    let secs_u = nanos / 1_000_000_000;
    assert(secs_u < 253402300800) by (nonlinear_arith)
        requires
            nanos <= 0x7fff_ffff_ffff_ffff,
            secs_u == nanos / 1_000_000_000,
    ;
    let secs = secs_u as i64;
    match utc_display_strings(secs) {
        Some(p) => Ok(p),
        None => {
            proof {
                assert(false);
            }
            Err(DateParseError)
        },
    }
}

pub open spec fn is_leap_year(y: nat) -> bool {
    (y % 4 == 0 && y % 100 != 0) || y % 400 == 0
}

/// Days of month `m` (1-based) in year `y` of the proleptic Gregorian
/// calendar.
pub open spec fn days_in_month(y: nat, m: nat) -> nat {
    if m == 2 {
        if is_leap_year(y) {
            29
        } else {
            28
        }
    } else if m == 4 || m == 6 || m == 9 || m == 11 {
        30
    } else {
        31
    }
}

/// A proper calendar date.
pub open spec fn valid_date(y: nat, m: nat, d: nat) -> bool {
    1 <= m <= 12 && 1 <= d <= days_in_month(y, m)
}

pub open spec fn dash_pred() -> spec_fn(char) -> bool {
    |c: char| c == '-'
}

/// The `(day, month, year)` fields of a `d-m-yyyy` date string: three
/// dash-separated digit runs of at most 2, 2 and 4 digits.
pub open spec fn date_fields(s: Seq<char>) -> Option<(nat, nat, nat)> {
    let i = find_first(s, dash_pred());
    if i == -1 {
        None
    } else {
        let rest = s.skip(i + 1);
        let j = find_first(rest, dash_pred());
        if j == -1 {
            None
        } else {
            let day = s.take(i);
            let mon = rest.take(j);
            let year = rest.skip(j + 1);
            if 1 <= day.len() <= 2 && all_digits(day) && 1 <= mon.len() <= 2 && all_digits(mon)
                && 1 <= year.len() <= 4 && all_digits(year) {
                Some((str_to_nat(day), str_to_nat(mon), str_to_nat(year)))
            } else {
                None
            }
        }
    }
}

/// The `yyyy-mm-dd` reordering of a valid `d-m-yyyy` date string;
/// `None` when the input is not a proper calendar date.
pub open spec fn spec_format_date_for_sql(s: Seq<char>) -> Option<Seq<char>> {
    match date_fields(s) {
        None => None,
        Some(f) => {
            let (d, m, y) = f;
            if valid_date(y, m, d) {
                Some(pad4(y) + seq!['-'] + pad2(m) + seq!['-'] + pad2(d))
            } else {
                None
            }
        },
    }
}

/// A digit string of `k` digits denotes less than `10^k`.
proof fn lemma_str_to_nat_bound(s: Seq<char>)
    requires
        all_digits(s),
    ensures
        str_to_nat(s) < crate::amount::pow10(s.len()),
    decreases s.len(),
{
    if s.len() > 0 {
        lemma_str_to_nat_bound(s.drop_last());
        assert(crate::num::digit_val(s.last()) <= 9);
        assert(crate::amount::pow10(s.len()) == 10 * crate::amount::pow10((s.len() - 1) as nat));
        assert(str_to_nat(s.drop_last()) * 10 + 9 < 10 * crate::amount::pow10(
            (s.len() - 1) as nat,
        )) by (nonlinear_arith)
            requires
                str_to_nat(s.drop_last()) < crate::amount::pow10((s.len() - 1) as nat),
        ;
    }
}

fn scan_dash(s: &str, from: usize) -> (r: usize)
    requires
        from <= s@.len(),
    ensures
        from <= r <= s@.len(),
        forall|k: int| from <= k < r ==> #[trigger] s@[k] != '-',
        r < s@.len() ==> s@[r as int] == '-',
{
    let n = s.unicode_len();
    let mut i = from;
    while i < n
        invariant
            from <= i <= n == s@.len(),
            forall|k: int| from <= k < i ==> #[trigger] s@[k] != '-',
        decreases n - i,
    {
        if s.get_char(i) == '-' {
            return i;
        }
        i = i + 1;
    }
    n
}

fn days_in_month_exec(y: u64, m: u64) -> (r: u64)
    ensures
        r == days_in_month(y as nat, m as nat),
{
    if m == 2 {
        if (y % 4 == 0 && y % 100 != 0) || y % 400 == 0 {
            29
        } else {
            28
        }
    } else if m == 4 || m == 6 || m == 9 || m == 11 {
        30
    } else {
        31
    }
}

/// Reorders a `d-m-yyyy` date string into `yyyy-mm-dd` for storage,
/// rejecting anything that is not a proper calendar date.
pub fn format_date_for_sql(date_str: &str) -> (r: Result<String, DateParseError>)
    ensures
        r is Ok <==> spec_format_date_for_sql(date_str@) is Some,
        r matches Ok(d) ==> Some(d@) == spec_format_date_for_sql(date_str@),
{
    let n = date_str.unicode_len();
    let i = scan_dash(date_str, 0);
    if i == n {
        proof {
            lemma_find_first_none(date_str@, dash_pred());
        }
        return Err(DateParseError);
    }
    proof {
        lemma_find_first_is(date_str@, dash_pred(), i as int);
    }
    let j = scan_dash(date_str, i + 1);
    proof {
        let rest = date_str@.skip(i + 1);
        assert(forall|m: int| 0 <= m < rest.len() ==> rest[m] == date_str@[i + 1 + m]);
        if j == n {
            lemma_find_first_none(rest, dash_pred());
        } else {
            lemma_find_first_is(rest, dash_pred(), j - i - 1);
        }
    }
    if j == n {
        return Err(DateParseError);
    }
    let day_s = date_str.substring_char(0, i);
    let mon_s = date_str.substring_char(i + 1, j);
    let year_s = date_str.substring_char(j + 1, n);
    proof {
        let rest = date_str@.skip(i + 1);
        assert(day_s@ =~= date_str@.take(i as int));
        assert(mon_s@ =~= rest.take(j - i - 1));
        assert(year_s@ =~= rest.skip(j - i));
    }
    if i < 1 || i > 2 || j - i - 1 < 1 || j - i - 1 > 2 || n - j - 1 < 1 || n - j - 1 > 4 {
        return Err(DateParseError);
    }
    if !check_all_digits(day_s) || !check_all_digits(mon_s) || !check_all_digits(year_s) {
        return Err(DateParseError);
    }
    proof {
        lemma_str_to_nat_bound(day_s@);
        lemma_str_to_nat_bound(mon_s@);
        lemma_str_to_nat_bound(year_s@);
        crate::amount::lemma_pow10_vals();
    }
    let d = match parse_u64(day_s) {
        Ok(v) => v,
        Err(_) => {
            proof {
                assert(false);
            }
            return Err(DateParseError);
        },
    };
    let m = match parse_u64(mon_s) {
        Ok(v) => v,
        Err(_) => {
            proof {
                assert(false);
            }
            return Err(DateParseError);
        },
    };
    let y = match parse_u64(year_s) {
        Ok(v) => v,
        Err(_) => {
            proof {
                assert(false);
            }
            return Err(DateParseError);
        },
    };
    if m < 1 || m > 12 || d < 1 || d > days_in_month_exec(y, m) {
        return Err(DateParseError);
    }
    proof {
        reveal_strlit("-");
    }
    let mut out = u64_to_pad4_string(y);
    out.append("-");
    let mon_out = u64_to_pad2_string(m);
    out.append(mon_out.as_str());
    out.append("-");
    let day_out = u64_to_pad2_string(d);
    out.append(day_out.as_str());
    proof {
        assert(out@ =~= pad4(y as nat) + seq!['-'] + pad2(m as nat) + seq!['-'] + pad2(d as nat));
    }
    Ok(out)
}

} // verus!
