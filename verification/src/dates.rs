//! Calendar dates in `YYYY-MM-DD` form, and the month index a date maps to.
//!
//! A date is valid when it has exactly that shape, its month lies in 1..=12
//! and its day in 1..=31. A date in year `y`, month `m` maps to month index
//! `(y - epoch) * 12 + m`, counting months elapsed since the configured
//! epoch year, one-based.

use vstd::prelude::*;
use crate::money::{is_dec_digit, digit_val, digits_val};

verus! {

/// Whether `s` has the shape `YYYY-MM-DD` with a month in 1..=12 and a
/// day in 1..=31.
pub open spec fn valid_date_str(s: Seq<char>) -> bool {
    &&& s.len() == 10
    &&& s[4] == '-'
    &&& s[7] == '-'
    &&& is_dec_digit(s[0])
    &&& is_dec_digit(s[1])
    &&& is_dec_digit(s[2])
    &&& is_dec_digit(s[3])
    &&& is_dec_digit(s[5])
    &&& is_dec_digit(s[6])
    &&& is_dec_digit(s[8])
    &&& is_dec_digit(s[9])
    &&& 1 <= date_month(s) <= 12
    &&& 1 <= date_day(s) <= 31
}

/// The four-digit year of a date string.
pub open spec fn date_year(s: Seq<char>) -> int {
    digits_val(s.subrange(0, 4))
}

/// The two-digit month of a date string.
pub open spec fn date_month(s: Seq<char>) -> int {
    digit_val(s[5]) * 10 + digit_val(s[6])
}

/// The two-digit day of a date string.
pub open spec fn date_day(s: Seq<char>) -> int {
    digit_val(s[8]) * 10 + digit_val(s[9])
}

/// The one-based month index of a date in year `year`, month `month`,
/// counted from the start of the epoch year.
pub open spec fn month_index_of(year: int, month: int, epoch: int) -> int {
    (year - epoch) * 12 + month
}

/// Parses a `YYYY-MM-DD` date. Returns year, month and day exactly when
/// the string is a valid date.
pub fn parse_date(s: &str) -> (r: Option<(u16, u8, u8)>)
    ensures
        r is Some <==> valid_date_str(s@),
        r is Some ==> {
            let (y, m, dd) = r->0;
            &&& y == date_year(s@)
            &&& m == date_month(s@)
            &&& dd == date_day(s@)
        },
{
    let n = s.unicode_len();
    if n != 10 {
        return None;
    }
    let c4 = s.get_char(4);
    let c7 = s.get_char(7);
    if c4 != '-' || c7 != '-' {
        return None;
    }
    let d0 = match digit_of(s, 0) {
        Some(v) => v,
        None => {
            return None;
        },
    };
    let d1 = match digit_of(s, 1) {
        Some(v) => v,
        None => {
            return None;
        },
    };
    let d2 = match digit_of(s, 2) {
        Some(v) => v,
        None => {
            return None;
        },
    };
    let d3 = match digit_of(s, 3) {
        Some(v) => v,
        None => {
            return None;
        },
    };
    let d5 = match digit_of(s, 5) {
        Some(v) => v,
        None => {
            return None;
        },
    };
    let d6 = match digit_of(s, 6) {
        Some(v) => v,
        None => {
            return None;
        },
    };
    let d8 = match digit_of(s, 8) {
        Some(v) => v,
        None => {
            return None;
        },
    };
    let d9 = match digit_of(s, 9) {
        Some(v) => v,
        None => {
            return None;
        },
    };
    let y: u16 = ((d0 as u16) * 10 + d1 as u16) * 100 + (d2 as u16) * 10 + d3 as u16;
    let m: u8 = d5 * 10 + d6;
    let dd: u8 = d8 * 10 + d9;
    proof {
        let t1 = s@.subrange(0, 1);
        let t2 = s@.subrange(0, 2);
        let t3 = s@.subrange(0, 3);
        let t4 = s@.subrange(0, 4);
        assert(t1.drop_last() =~= Seq::<char>::empty());
        assert(t2.drop_last() =~= t1);
        assert(t3.drop_last() =~= t2);
        assert(t4.drop_last() =~= t3);
        assert(digits_val(Seq::<char>::empty()) == 0);
        assert(t1.last() == s@[0] && t2.last() == s@[1] && t3.last() == s@[2] && t4.last()
            == s@[3]);
        assert(digits_val(t1) == digit_val(s@[0]));
        assert(digits_val(t2) == digit_val(s@[0]) * 10 + digit_val(s@[1]));
        assert(digits_val(t3) == digits_val(t2) * 10 + digit_val(s@[2]));
        assert(digits_val(t4) == digits_val(t3) * 10 + digit_val(s@[3]));
        assert(y == date_year(s@));
    }
    if m < 1 || m > 12 {
        return None;
    }
    if dd < 1 || dd > 31 {
        return None;
    }
    Some((y, m, dd))
}

/// Reads position `i` of `s` as a decimal digit.
fn digit_of(s: &str, i: usize) -> (r: Option<u8>)
    requires
        i < s@.len(),
    ensures
        r is Some <==> is_dec_digit(s@[i as int]),
        r is Some ==> r->0 == digit_val(s@[i as int]) && r->0 <= 9,
{
    let c = s.get_char(i);
    let cv = c as u32;
    if 48 <= cv && cv <= 57 {
        Some((cv - 48) as u8)
    } else {
        None
    }
}

} // verus!
