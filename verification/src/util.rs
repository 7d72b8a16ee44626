//! Pure text-shaping helpers: decimal rendering, human-readable sizes and
//! calendar dates.

use vstd::prelude::*;

verus! {

use vstd::arithmetic::div_mod::{
    lemma_fundamental_div_mod,
    lemma_fundamental_div_mod_converse,
    lemma_div_is_ordered,
};

/// The decimal digit for a value between 0 and 9.
pub open spec fn digit_char(d: int) -> char {
    if d == 0 {
        '0'
    } else if d == 1 {
        '1'
    } else if d == 2 {
        '2'
    } else if d == 3 {
        '3'
    } else if d == 4 {
        '4'
    } else if d == 5 {
        '5'
    } else if d == 6 {
        '6'
    } else if d == 7 {
        '7'
    } else if d == 8 {
        '8'
    } else {
        '9'
    }
}

/// The decimal rendering of a non-negative integer, without padding.
pub open spec fn dec_rep(n: int) -> Seq<char>
    recommends
        n >= 0,
    decreases (if n < 0 { 0int } else { n }),
{
    if n < 10 {
        seq![digit_char(n)]
    } else {
        dec_rep(n / 10) + seq![digit_char(n % 10)]
    }
}

/// Decimal rendering padded with zeroes to at least two digits.
pub open spec fn pad2_rep(n: int) -> Seq<char>
    recommends
        n >= 0,
{
    if n < 10 {
        seq!['0'] + dec_rep(n)
    } else {
        dec_rep(n)
    }
}

/// Decimal rendering padded with zeroes to at least four digits.
pub open spec fn pad4_rep(n: int) -> Seq<char>
    recommends
        n >= 0,
{
    if n < 10 {
        seq!['0', '0', '0'] + dec_rep(n)
    } else if n < 100 {
        seq!['0', '0'] + dec_rep(n)
    } else if n < 1000 {
        seq!['0'] + dec_rep(n)
    } else {
        dec_rep(n)
    }
}

/// The string slice for a single decimal digit.
fn digit_str(d: u64) -> (r: &'static str)
    requires
        d < 10,
    ensures
        r@ == seq![digit_char(d as int)],
{
    proof {
        reveal_strlit("0");
        reveal_strlit("1");
        reveal_strlit("2");
        reveal_strlit("3");
        reveal_strlit("4");
        reveal_strlit("5");
        reveal_strlit("6");
        reveal_strlit("7");
        reveal_strlit("8");
        reveal_strlit("9");
    }
    match d {
        0 => "0",
        1 => "1",
        2 => "2",
        3 => "3",
        4 => "4",
        5 => "5",
        6 => "6",
        7 => "7",
        8 => "8",
        _ => "9",
    }
}

/// Renders an unsigned integer in decimal.
pub fn u64_to_string(n: u64) -> (s: String)
    ensures
        s@ == dec_rep(n as int),
    decreases n,
{
    if n < 10 {
        digit_str(n).to_owned()
    } else {
        let mut s = u64_to_string(n / 10);
        s.append(digit_str(n % 10));
        s
    }
}

/// Renders an unsigned integer in decimal, zero-padded to two digits.
pub fn pad2_string(n: u64) -> (s: String)
    ensures
        s@ == pad2_rep(n as int),
{
    proof {
        reveal_strlit("0");
    }
    if n < 10 {
        let s = String::from_str("0").concat(digit_str(n));
        proof {
            assert(s@ =~= pad2_rep(n as int));
        }
        s
    } else {
        u64_to_string(n)
    }
}

/// Renders an unsigned integer in decimal, zero-padded to four digits.
pub fn pad4_string(n: u64) -> (s: String)
    ensures
        s@ == pad4_rep(n as int),
{
    proof {
        reveal_strlit("0");
        reveal_strlit("00");
        reveal_strlit("000");
    }
    if n < 10 {
        let s = String::from_str("000").concat(digit_str(n));
        proof {
            assert(s@ =~= pad4_rep(n as int));
        }
        s
    } else if n < 100 {
        let s = String::from_str("00").concat(u64_to_string(n).as_str());
        proof {
            assert(s@ =~= pad4_rep(n as int));
        }
        s
    } else if n < 1000 {
        let s = String::from_str("0").concat(u64_to_string(n).as_str());
        proof {
            assert(s@ =~= pad4_rep(n as int));
        }
        s
    } else {
        u64_to_string(n)
    }
}

/// The number of tenths of a unit in `b`, rounded to nearest with ties to
/// even, mirroring how a quotient would be printed with one decimal place.
pub open spec fn round_half_even_tenths(b: int, unit: int) -> int
    recommends
        b >= 0,
        unit >= 1,
{
    let t = b * 10 / unit;
    let r = b * 10 % unit;
    if 2 * r > unit {
        t + 1
    } else if 2 * r == unit && t % 2 == 1 {
        t + 1
    } else {
        t
    }
}

/// A quantity of tenths rendered with one decimal place.
pub open spec fn one_dec_rep(tenths: int) -> Seq<char>
    recommends
        tenths >= 0,
{
    dec_rep(tenths / 10) + seq!['.'] + seq![digit_char(tenths % 10)]
}

/// The human-readable size string: whole bytes below 1 KB, otherwise one
/// decimal place in the largest unit below the next threshold.
pub open spec fn spec_format_size(bytes: int) -> Seq<char>
    recommends
        bytes >= 0,
{
    if bytes < 1024 {
        dec_rep(bytes) + (" B")@
    } else if bytes < 1048576 {
        one_dec_rep(round_half_even_tenths(bytes, 1024)) + (" KB")@
    } else if bytes < 1073741824 {
        one_dec_rep(round_half_even_tenths(bytes, 1048576)) + (" MB")@
    } else {
        one_dec_rep(round_half_even_tenths(bytes, 1073741824)) + (" GB")@
    }
}

/// Renders `b` scaled by `unit` with one decimal place, rounding half to
/// even.
fn one_decimal_scaled(b: u64, unit: u64) -> (s: String)
    requires
        1024 <= unit <= 1073741824,
    ensures
        s@ == one_dec_rep(round_half_even_tenths(b as int, unit as int)),
{
    proof {
        reveal_strlit(".");
    }
    let whole = b / unit;
    let rem = b % unit;
    proof {
        lemma_fundamental_div_mod(b as int, unit as int);
        assert(whole as int * 10 + 10 <= u64::MAX as int) by (nonlinear_arith)
            requires
                unit as int * whole as int + rem as int == b as int,
                0 <= rem as int,
                unit >= 1024,
                b <= u64::MAX,
                whole as int >= 0,
        ;
    }
    let tfrac = (rem * 10) / unit;
    let tr = (rem * 10) % unit;
    proof {
        lemma_fundamental_div_mod(rem as int * 10, unit as int);
        assert(tfrac < 10) by (nonlinear_arith)
            requires
                unit as int * tfrac as int + tr as int == rem as int * 10,
                0 <= tr as int,
                rem < unit,
                unit >= 1024,
                tfrac as int >= 0,
        ;
    }
    let mut t = whole * 10 + tfrac;
    proof {
        assert(b as int * 10 == (whole * 10 + tfrac) as int * unit as int + tr as int)
            by (nonlinear_arith)
            requires
                unit as int * whole as int + rem as int == b as int,
                unit as int * tfrac as int + tr as int == rem as int * 10,
        ;
        lemma_fundamental_div_mod_converse(
            b as int * 10,
            unit as int,
            (whole * 10 + tfrac) as int,
            tr as int,
        );
    }
    let round_up: bool = if 2 * tr > unit {
        true
    } else if 2 * tr == unit && t % 2 == 1 {
        true
    } else {
        false
    };
    if round_up {
        t = t + 1;
    }
    let s = u64_to_string(t / 10).concat(".").concat(digit_str(t % 10));
    proof {
        assert(s@ =~= one_dec_rep(round_half_even_tenths(b as int, unit as int)));
    }
    s
}

/// Format a byte count as a human-readable size string.
pub fn format_size(bytes: u64) -> (s: String)
    ensures
        s@ == spec_format_size(bytes as int),
{
    proof {
        reveal_strlit(" B");
        reveal_strlit(" KB");
        reveal_strlit(" MB");
        reveal_strlit(" GB");
    }
    if bytes < 1024 {
        u64_to_string(bytes).concat(" B")
    } else if bytes < 1048576 {
        one_decimal_scaled(bytes, 1024).concat(" KB")
    } else if bytes < 1073741824 {
        one_decimal_scaled(bytes, 1048576).concat(" MB")
    } else {
        one_decimal_scaled(bytes, 1073741824).concat(" GB")
    }
}

/// The civil calendar date for a day number, with day 0 being 1970-01-01.
///
/// The date is computed over 400-year eras: `era`/`doe` split the day
/// number into the era and the day within it, `yoe` recovers the year
/// within the era from the leap-year pattern, `doy` is the day within a
/// March-first year, and `mp` the month within it; the final step shifts
/// the year to start in January.  The year-start correction is clamped at
/// zero so that the whole computation stays within the naturals; the
/// clamp never takes effect for the day-of-era range the split yields.
pub open spec fn spec_civil_from_days(days: int) -> (int, int, int) {
    let z = days + 719468;
    let era = z / 146097;
    let doe = z % 146097;
    let yoe = (doe - doe / 1460 + doe / 36524 - doe / 146096) / 365;
    let y = yoe + era * 400;
    let sub = 365 * yoe + yoe / 4 - yoe / 100;
    let doy = if sub <= doe {
        doe - sub
    } else {
        0
    };
    let mp = (5 * doy + 2) / 153;
    let d = doy - (153 * mp + 2) / 5 + 1;
    let m = if mp < 10 {
        mp + 3
    } else {
        mp - 9
    };
    (
        if m <= 2 {
            y + 1
        } else {
            y
        },
        m,
        d,
    )
}

/// Splits a day number into era and day-of-era, with the day-of-era in
/// `[0, 146097)`.
fn era_split(z: i64) -> (r: (i64, u64))
    requires
        i64::MIN < z <= i64::MAX - 719468,
    ensures
        r.0 as int == (z as int) / 146097,
        r.1 as int == (z as int) % 146097,
        r.1 < 146097,
{
    if z >= 0 {
        let zu = z as u64;
        let q = zu / 146097;
        let doe = zu % 146097;
        proof {
            lemma_fundamental_div_mod(zu as int, 146097);
        }
        (q as i64, doe)
    } else {
        let m = (-z) as u64;
        let qm = (m - 1) / 146097;
        proof {
            lemma_fundamental_div_mod(m as int - 1, 146097);
        }
        let q = qm + 1;
        let doe = q * 146097 - m;
        proof {
            lemma_fundamental_div_mod_converse(
                z as int,
                146097,
                -(q as int),
                doe as int,
            );
        }
        (-(q as i64), doe)
    }
}

/// The civil calendar date for a day number that may lie far outside the
/// 32-bit range.
fn day_number_to_civil(days: i64) -> (r: (i64, u64, u64))
    requires
        days <= i64::MAX - 719468 - 719468,
    ensures
        (r.0 as int, r.1 as int, r.2 as int) == spec_civil_from_days(days as int),
{
    let z: i64 = days + 719468;
    let (era, doe) = era_split(z);
    let q1 = doe / 1460;
    let q2 = doe / 36524;
    let q3 = doe / 146096;
    proof {
        lemma_fundamental_div_mod(doe as int, 1460);
        lemma_fundamental_div_mod(doe as int, 146096);
        lemma_div_is_ordered(doe as int, 146099, 1460);
        lemma_div_is_ordered(doe as int, 146099, 36524);
    }
    let x = doe - q1 + q2 - q3;
    let yoe = x / 365;
    proof {
        lemma_div_is_ordered(x as int, 146200, 365);
        lemma_fundamental_div_mod(x as int, 365);
    }
    let y: i64 = yoe as i64 + era * 400;
    let q4 = yoe / 4;
    let q100 = yoe / 100;
    proof {
        lemma_fundamental_div_mod(yoe as int, 4);
        lemma_fundamental_div_mod(yoe as int, 100);
    }
    let sub = 365 * yoe + q4 - q100;
    let doy = if sub <= doe {
        doe - sub
    } else {
        0
    };
    let mp = (5 * doy + 2) / 153;
    proof {
        lemma_fundamental_div_mod(5 * doy as int + 2, 153);
        lemma_div_is_ordered(153 * mp as int + 2, 5 * doy as int + 4, 5);
        lemma_fundamental_div_mod_converse(5 * doy as int + 4, 5, doy as int, 4);
    }
    let d = doy - (153 * mp + 2) / 5 + 1;
    let m = if mp < 10 {
        mp + 3
    } else {
        mp - 9
    };
    let yy: i64 = if m <= 2 {
        y + 1
    } else {
        y
    };
    (yy, m, d)
}

/// Converts days since 1970-01-01 to a `(year, month, day)` civil date.
pub fn civil_from_days(days: i32) -> (r: (i32, u32, u32))
    ensures
        (r.0 as int, r.1 as int, r.2 as int) == spec_civil_from_days(days as int),
{
    let c = day_number_to_civil(days as i64);
    proof {
        let z = days as int + 719468;
        lemma_fundamental_div_mod(z, 146097);
        assert(c.1 <= 4784);
        assert(c.2 <= 146098);
    }
    (c.0 as i32, c.1 as u32, c.2 as u32)
}

/// The `YYYY-MM-DD` rendering of the date for a count of seconds since
/// 1970-01-01 00:00:00 UTC.
pub open spec fn spec_format_date(secs: int) -> Seq<char>
    recommends
        secs >= 0,
{
    let c = spec_civil_from_days(secs / 86400);
    pad4_rep(c.0) + seq!['-'] + pad2_rep(c.1) + seq!['-'] + pad2_rep(c.2)
}

/// Format a count of seconds since 1970-01-01 00:00:00 UTC as a
/// `YYYY-MM-DD` date string.
pub fn format_date(secs: u64) -> (s: String)
    ensures
        s@ == spec_format_date(secs as int),
{
    proof {
        reveal_strlit("-");
    }
    let days = secs / 86400;
    proof {
        lemma_fundamental_div_mod(secs as int, 86400);
        assert(days as int * 86400 <= secs as int) by (nonlinear_arith)
            requires
                86400 * (secs as int / 86400) + secs as int % 86400 == secs as int,
                0 <= secs as int % 86400,
                days as int == secs as int / 86400,
        ;
    }
    let c = day_number_to_civil(days as i64);
    proof {
        let z = days as int + 719468;
        lemma_fundamental_div_mod(z, 146097);
        vstd::arithmetic::div_mod::lemma_div_pos_is_pos(z, 146097);
        assert(c.0 >= 0);
    }
    let s = pad4_string(c.0 as u64).concat("-").concat(pad2_string(c.1).as_str()).concat(
        "-",
    ).concat(pad2_string(c.2).as_str());
    proof {
        assert(s@ =~= spec_format_date(secs as int));
    }
    s
}

} // verus!
