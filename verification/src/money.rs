//! Exact fixed-point money: amounts and balances are integer cents.
//!
//! An amount string is one or more decimal digits, optionally followed by
//! a dot and one or two fraction digits. Parsing yields cents exactly;
//! formatting renders cents back to text and rounds nowhere.

use vstd::prelude::*;
use vstd::arithmetic::div_mod::lemma_fundamental_div_mod;

verus! {

/// Whether `c` is a decimal digit.
pub open spec fn is_dec_digit(c: char) -> bool {
    48 <= c as int && c as int <= 57
}

/// Numeric value of a digit character.
pub open spec fn digit_val(c: char) -> int {
    c as int - 48
}

/// Whether every character of `s` is a decimal digit.
pub open spec fn seq_digits(s: Seq<char>) -> bool {
    forall|i: int| 0 <= i < s.len() ==> is_dec_digit(s[i])
}

/// Value of a digit string read in base ten.
pub open spec fn digits_val(s: Seq<char>) -> int
    decreases s.len(),
{
    if s.len() == 0 {
        0
    } else {
        digits_val(s.drop_last()) * 10 + digit_val(s.last())
    }
}

/// Index of the first `'.'` at or after position `i`, or `s.len()` if none.
pub open spec fn first_dot(s: Seq<char>, i: int) -> int
    decreases s.len() - i,
{
    if i < 0 || i >= s.len() {
        s.len() as int
    } else if s[i] == '.' {
        i
    } else {
        first_dot(s, i + 1)
    }
}

/// The accepted shape of an amount string: digits, optionally a dot and
/// one or two fraction digits.
pub open spec fn valid_amount(s: Seq<char>) -> bool {
    let d = first_dot(s, 0);
    if d == s.len() {
        s.len() > 0 && seq_digits(s)
    } else {
        &&& 1 <= d
        &&& d + 1 < s.len()
        &&& s.len() <= d + 3
        &&& seq_digits(s.subrange(0, d))
        &&& seq_digits(s.subrange(d + 1, s.len() as int))
    }
}

/// The cents denoted by a valid amount string: the integer part times
/// one hundred plus the fraction read as hundredths.
pub open spec fn amount_cents(s: Seq<char>) -> int {
    let d = first_dot(s, 0);
    if d == s.len() {
        digits_val(s) * 100
    } else {
        let f = s.subrange(d + 1, s.len() as int);
        if f.len() == 1 {
            digits_val(s.subrange(0, d)) * 100 + digits_val(f) * 10
        } else {
            digits_val(s.subrange(0, d)) * 100 + digits_val(f)
        }
    }
}

proof fn lemma_digits_val_nonneg(s: Seq<char>)
    requires
        seq_digits(s),
    ensures
        digits_val(s) >= 0,
    decreases s.len(),
{
    if s.len() > 0 {
        assert(seq_digits(s.drop_last()));
        lemma_digits_val_nonneg(s.drop_last());
    }
}

proof fn lemma_digits_val_prefix(s: Seq<char>, k: int)
    requires
        seq_digits(s),
        0 <= k <= s.len(),
    ensures
        digits_val(s) >= digits_val(s.subrange(0, k)),
    decreases s.len(),
{
    if k == s.len() {
        assert(s.subrange(0, k) =~= s);
    } else {
        let t = s.drop_last();
        assert(seq_digits(t));
        assert(t.subrange(0, k) =~= s.subrange(0, k));
        lemma_digits_val_prefix(t, k);
        lemma_digits_val_nonneg(t);
        assert(digits_val(s) == digits_val(t) * 10 + digit_val(s.last()));
        assert(digits_val(t) * 10 >= digits_val(t));
    }
}

/// Parses an amount string. Returns the cents if and only if the string
/// is a well-shaped decimal amount whose value is positive and fits a
/// 64-bit count of cents.
pub fn parse_amount(s: &str) -> (r: Option<i64>)
    ensures
        r is Some <==> valid_amount(s@) && 0 < amount_cents(s@) <= i64::MAX,
        r is Some ==> r->0 == amount_cents(s@),
{
    let n = s.unicode_len();

    // locate the first dot, if any
    let mut dot: usize = n;
    let mut i: usize = 0;
    while i < n
        invariant_except_break
            dot == n,
        invariant
            0 <= i <= n,
            n == s@.len(),
            dot <= n,
            dot == n ==> first_dot(s@, 0) == first_dot(s@, i as int),
            dot < n ==> first_dot(s@, 0) == dot,
        ensures
            dot <= n,
            dot == n ==> first_dot(s@, 0) == n,
            dot < n ==> first_dot(s@, 0) == dot,
        decreases n - i,
    {
        let c = s.get_char(i);
        if c == '.' {
            assert(first_dot(s@, i as int) == i);
            dot = i;
            break;
        }
        i += 1;
        assert(i == n ==> first_dot(s@, i as int) == n);
    }
    let ghost d = first_dot(s@, 0);

    let int_end: usize = dot;
    if int_end == 0 {
        // empty string, or a dot in first position: not a valid shape
        return None;
    }

    // read the integer part
    let mut acc: i64 = 0;
    let mut k: usize = 0;
    while k < int_end
        invariant
            0 <= k <= int_end,
            int_end <= n,
            n == s@.len(),
            int_end == d,
            d == first_dot(s@, 0),
            seq_digits(s@.subrange(0, k as int)),
            acc == digits_val(s@.subrange(0, k as int)),
            acc >= 0,
        decreases int_end - k,
    {
        let c = s.get_char(k);
        let cv = c as u32;
        if cv < 48 || cv > 57 {
            assert(!is_dec_digit(s@[k as int]));
            assert(s@.subrange(0, d)[k as int] == s@[k as int]);
            assert(!seq_digits(s@.subrange(0, d)));
            assert(d < s@.len() ==> !valid_amount(s@));
            assert(d == s@.len() ==> !seq_digits(s@)) by {
                if d == s@.len() {
                    assert(s@.subrange(0, d) =~= s@);
                }
            }
            return None;
        }
        let dv: i64 = (cv - 48) as i64;
        assert(s@.subrange(0, k + 1).drop_last() =~= s@.subrange(0, k as int));
        assert(s@.subrange(0, k + 1).last() == s@[k as int]);
        match acc.checked_mul(10) {
            Some(t) => {
                match t.checked_add(dv) {
                    Some(t2) => {
                        acc = t2;
                    },
                    None => {
                        proof {
                            lemma_amount_over(s@, k as int);
                        }
                        return None;
                    },
                }
            },
            None => {
                proof {
                    lemma_amount_over(s@, k as int);
                }
                return None;
            },
        }
        k += 1;
    }
    assert(seq_digits(s@.subrange(0, d)));
    assert(acc == digits_val(s@.subrange(0, d)));

    // read the fraction part, if a dot was found
    let mut frac: i64 = 0;
    if dot < n {
        let flen = n - dot - 1;
        if flen == 0 || flen > 2 {
            return None;
        }
        let c1 = s.get_char(dot + 1);
        let cv1 = c1 as u32;
        if cv1 < 48 || cv1 > 57 {
            assert(!is_dec_digit(s@[d + 1]));
            assert(!seq_digits(s@.subrange(d + 1, s@.len() as int))) by {
                assert(s@.subrange(d + 1, s@.len() as int)[0] == s@[d + 1]);
            }
            return None;
        }
        if flen == 1 {
            frac = ((cv1 - 48) * 10) as i64;
            proof {
                let f = s@.subrange(d + 1, s@.len() as int);
                assert(f.len() == 1);
                assert(f.drop_last() =~= Seq::<char>::empty());
                assert(digits_val(Seq::<char>::empty()) == 0);
                assert(digits_val(f) == digit_val(f.last()));
                assert(f.last() == s@[d + 1]);
                assert(f[0] == s@[d + 1]);
                assert(seq_digits(f));
            }
        } else {
            let c2 = s.get_char(dot + 2);
            let cv2 = c2 as u32;
            if cv2 < 48 || cv2 > 57 {
                assert(!is_dec_digit(s@[d + 2]));
                assert(!seq_digits(s@.subrange(d + 1, s@.len() as int))) by {
                    assert(s@.subrange(d + 1, s@.len() as int)[1] == s@[d + 2]);
                }
                return None;
            }
            frac = ((cv1 - 48) * 10 + (cv2 - 48)) as i64;
            proof {
                let f = s@.subrange(d + 1, s@.len() as int);
                assert(f.len() == 2);
                assert(f.drop_last() =~= seq![s@[d + 1]]);
                assert(f.drop_last().drop_last() =~= Seq::<char>::empty());
                assert(f.last() == s@[d + 2]);
                assert(f.drop_last().last() == s@[d + 1]);
                assert(digits_val(Seq::<char>::empty()) == 0);
                assert(digits_val(f.drop_last()) == digit_val(s@[d + 1]));
                assert(digits_val(f) == digit_val(s@[d + 1]) * 10 + digit_val(s@[d + 2]));
                assert(f[0] == s@[d + 1]);
                assert(f[1] == s@[d + 2]);
                assert(seq_digits(f));
            }
        }
        assert(valid_amount(s@));
    } else {
        assert(s@.subrange(0, d) =~= s@);
        assert(valid_amount(s@));
    }

    // combine: cents = integer part * 100 + fraction
    assert(0 <= frac <= 99);
    match acc.checked_mul(100) {
        Some(t) => {
            match t.checked_add(frac) {
                Some(cents) => {
                    assert(cents == amount_cents(s@));
                    if cents == 0 {
                        return None;
                    }
                    Some(cents)
                },
                None => {
                    assert(amount_cents(s@) > i64::MAX);
                    None
                },
            }
        },
        None => {
            proof {
                lemma_digits_val_nonneg(s@.subrange(0, d));
                assert(acc * 100 > i64::MAX);
                assert(amount_cents(s@) >= acc * 100);
            }
            None
        },
    }
}

/// If extending the integer part by one more digit leaves the value of a
/// 64-bit count behind, the whole amount does too.
proof fn lemma_amount_over(s: Seq<char>, k: int)
    requires
        0 <= k < first_dot(s, 0) <= s.len(),
        seq_digits(s.subrange(0, k)),
        is_dec_digit(s[k]),
        digits_val(s.subrange(0, k + 1)) > i64::MAX,
    ensures
        valid_amount(s) ==> amount_cents(s) > i64::MAX,
{
    let d = first_dot(s, 0);
    if valid_amount(s) {
        if d == s.len() {
            lemma_digits_val_prefix(s, k + 1);
            lemma_digits_val_nonneg(s);
            assert(digits_val(s) > i64::MAX);
            assert(amount_cents(s) == digits_val(s) * 100);
            assert(digits_val(s) * 100 >= digits_val(s));
        } else {
            let ip = s.subrange(0, d);
            assert(ip.subrange(0, k + 1) =~= s.subrange(0, k + 1));
            lemma_digits_val_prefix(ip, k + 1);
            lemma_digits_val_nonneg(ip);
            assert(digits_val(ip) > i64::MAX);
            let f = s.subrange(d + 1, s.len() as int);
            lemma_digits_val_nonneg(f);
            assert(digits_val(ip) * 100 >= digits_val(ip));
        }
    }
}

/// One character per decimal digit value.
pub open spec fn digit_char(d: int) -> char {
    if d == 0 {
        '0'
    } else if d == 1 {
        '1'
    } else if d == 2 {
        '2'
    } else if d == 3 {
        '3'
    } else if d == 4 {
        '4'
    } else if d == 5 {
        '5'
    } else if d == 6 {
        '6'
    } else if d == 7 {
        '7'
    } else if d == 8 {
        '8'
    } else {
        '9'
    }
}

/// Decimal digit characters of a non-negative number, most significant first.
pub open spec fn dec_digits(n: int) -> Seq<char>
    decreases n,
{
    if n <= 9 {
        seq![digit_char(n)]
    } else {
        dec_digits(n / 10).push(digit_char(n % 10))
    }
}

/// Balance text with exactly two fraction digits, minus sign if negative.
pub open spec fn balance_text(c: int) -> Seq<char> {
    let sgn: Seq<char> = if c < 0 {
        seq!['-']
    } else {
        Seq::empty()
    };
    let m = if c < 0 {
        -c
    } else {
        c
    };
    let q = m / 100;
    let f = m % 100;
    sgn + dec_digits(q) + seq!['.', digit_char(f / 10), digit_char(f % 10)]
}

/// Balance text with trailing fraction zeros trimmed: whole cents lose the
/// point, a fraction ending in zero keeps one digit.
pub open spec fn balance_text_short(c: int) -> Seq<char> {
    let sgn: Seq<char> = if c < 0 {
        seq!['-']
    } else {
        Seq::empty()
    };
    let m = if c < 0 {
        -c
    } else {
        c
    };
    let q = m / 100;
    let f = m % 100;
    if f == 0 {
        sgn + dec_digits(q)
    } else if f % 10 == 0 {
        sgn + dec_digits(q) + seq!['.', digit_char(f / 10)]
    } else {
        sgn + dec_digits(q) + seq!['.', digit_char(f / 10), digit_char(f % 10)]
    }
}

/// The one-character string of a digit value.
fn digit_str(d: u8) -> (r: &'static str)
    requires
        d <= 9,
    ensures
        r@ =~= seq![digit_char(d as int)],
{
    let r: &'static str = if d == 0 {
        "0"
    } else if d == 1 {
        "1"
    } else if d == 2 {
        "2"
    } else if d == 3 {
        "3"
    } else if d == 4 {
        "4"
    } else if d == 5 {
        "5"
    } else if d == 6 {
        "6"
    } else if d == 7 {
        "7"
    } else if d == 8 {
        "8"
    } else {
        "9"
    };
    proof {
        reveal_strlit("0");
        reveal_strlit("1");
        reveal_strlit("2");
        reveal_strlit("3");
        reveal_strlit("4");
        reveal_strlit("5");
        reveal_strlit("6");
        reveal_strlit("7");
        reveal_strlit("8");
        reveal_strlit("9");
    }
    r
}

/// Appends the decimal digits of `n` to `out`.
fn push_dec_digits(n: u128, out: &mut String)
    ensures
        final(out)@ == old(out)@ + dec_digits(n as int),
    decreases n,
{
    if n <= 9 {
        out.append(digit_str(n as u8));
    } else {
        assert(n / 10 < n) by {
            lemma_fundamental_div_mod(n as int, 10);
        };
        assert(n % 10 <= 9) by {
            lemma_fundamental_div_mod(n as int, 10);
        };
        push_dec_digits(n / 10, out);
        out.append(digit_str((n % 10) as u8));
        assert((n % 10) as int == n as int % 10);
        assert((n / 10) as int == n as int / 10);
    }
}

/// Renders cents with exactly two fraction digits.
pub fn format_cents(c: i128) -> (r: String)
    requires
        c > i128::MIN,
    ensures
        r@ == balance_text(c as int),
{
    let mut out = String::new();
    if c < 0 {
        out.append("-");
        proof {
            reveal_strlit("-");
        }
    }
    let m: u128 = if c < 0 {
        (-c) as u128
    } else {
        c as u128
    };
    let q = m / 100;
    let f = m % 100;
    push_dec_digits(q, &mut out);
    out.append(".");
    proof {
        reveal_strlit(".");
    }
    out.append(digit_str((f / 10) as u8));
    out.append(digit_str((f % 10) as u8));
    proof {
        let mi = if c < 0 {
            -(c as int)
        } else {
            c as int
        };
        assert(q as int == mi / 100);
        assert(f as int == mi % 100);
        assert((f / 10) as int == (mi % 100) / 10);
        assert((f % 10) as int == (mi % 100) % 10) by {
            lemma_fundamental_div_mod(f as int, 10);
        };
        assert(out@ =~= balance_text(c as int));
    }
    out
}

/// Renders cents with trailing fraction zeros trimmed.
pub fn format_cents_short(c: i128) -> (r: String)
    requires
        c > i128::MIN,
    ensures
        r@ == balance_text_short(c as int),
{
    let mut out = String::new();
    if c < 0 {
        out.append("-");
        proof {
            reveal_strlit("-");
        }
    }
    let m: u128 = if c < 0 {
        (-c) as u128
    } else {
        c as u128
    };
    let q = m / 100;
    let f = m % 100;
    push_dec_digits(q, &mut out);
    proof {
        let mi = if c < 0 {
            -(c as int)
        } else {
            c as int
        };
        assert(q as int == mi / 100);
        assert(f as int == mi % 100);
        assert((f / 10) as int == (mi % 100) / 10);
        assert((f % 10) as int == (mi % 100) % 10) by {
            lemma_fundamental_div_mod(f as int, 10);
        };
    }
    if f != 0 {
        out.append(".");
        proof {
            reveal_strlit(".");
        }
        out.append(digit_str((f / 10) as u8));
        if f % 10 != 0 {
            out.append(digit_str((f % 10) as u8));
        }
    }
    proof {
        assert(out@ =~= balance_text_short(c as int));
    }
    out
}

} // verus!
