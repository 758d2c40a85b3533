//! Parsing of signed 64-bit integers written in a given radix, with the semantics of
//! `i64::from_str_radix`: an optional sign followed by at least one digit, the value in range.
use vstd::prelude::*;

verus! {

/// The value of the digit `c` in `radix` (as `char::to_digit`), if it is one.
pub open spec fn digit_value(c: char, radix: nat) -> Option<nat> {
    let v: int = if '0' <= c && c <= '9' {
        c as int - '0' as int
    } else if 'a' <= c && c <= 'z' {
        c as int - 'a' as int + 10
    } else if 'A' <= c && c <= 'Z' {
        c as int - 'A' as int + 10
    } else {
        radix as int
    };
    if v < radix {
        Some(v as nat)
    } else {
        None
    }
}

/// The value of the digit string `s` in `radix`, if every character is a digit.
pub open spec fn digits_value(s: Seq<char>, radix: nat) -> Option<nat>
    decreases s.len(),
{
    if s.len() == 0 {
        Some(0)
    } else {
        match (digits_value(s.drop_last(), radix), digit_value(s.last(), radix)) {
            (Some(a), Some(d)) => Some(a * radix + d),
            _ => None,
        }
    }
}

/// The value of `s` read as a signed integer in `radix`: an optional `+` or `-` followed by at
/// least one digit; `None` when `s` is not of that form or its value does not fit in an `i64`.
pub open spec fn radix_value(s: Seq<char>, radix: nat) -> Option<i64> {
    if s.len() == 0 {
        None
    } else if (s[0] == '+' || s[0] == '-') && s.len() == 1 {
        None
    } else {
        let neg = s[0] == '-';
        let digits = if s[0] == '+' || s[0] == '-' { s.drop_first() } else { s };
        match digits_value(digits, radix) {
            Some(v) => {
                let x: int = if neg { -v } else { v as int };
                if i64::MIN <= x && x <= i64::MAX {
                    Some(x as i64)
                } else {
                    None
                }
            },
            None => None,
        }
    }
}

fn digit_of(c: char, radix: u32) -> (res: Option<u32>)
    requires
        2 <= radix <= 36,
    ensures
        match digit_value(c, radix as nat) {
            Some(v) => res == Some(v as u32),
            None => res is None,
        },
{
    let v: u32 = if '0' <= c && c <= '9' {
        (c as u32) - ('0' as u32)
    } else if 'a' <= c && c <= 'z' {
        (c as u32) - ('a' as u32) + 10
    } else if 'A' <= c && c <= 'Z' {
        (c as u32) - ('A' as u32) + 10
    } else {
        radix
    };
    if v < radix {
        Some(v)
    } else {
        None
    }
}

proof fn lemma_digits_prefix(s: Seq<char>, k: int, radix: nat)
    requires
        0 <= k <= s.len(),
        radix >= 2,
        digits_value(s, radix) is Some,
    ensures
        digits_value(s.take(k), radix) is Some,
        digits_value(s.take(k), radix)->0 <= digits_value(s, radix)->0,
    decreases s.len(),
{
    if k == s.len() {
        assert(s.take(k) =~= s);
    } else {
        lemma_digits_prefix(s.drop_last(), k, radix);
        assert(s.drop_last().take(k) =~= s.take(k));
        let a = digits_value(s.drop_last(), radix)->0;
        assert(a <= a * radix) by (nonlinear_arith)
            requires
                radix >= 2,
        ;
    }
}

proof fn lemma_digits_step(s: Seq<char>, k: int, radix: nat)
    requires
        0 <= k < s.len(),
    ensures
        digits_value(s.take(k + 1), radix) == (match (
            digits_value(s.take(k), radix),
            digit_value(s[k], radix),
        ) {
            (Some(a), Some(d)) => Some(a * radix + d),
            _ => None,
        }),
{
    assert(s.take(k + 1).drop_last() =~= s.take(k));
}

/// Parses `s` (given as its characters, in `s[start..]`) as an integer in `radix`, with the
/// semantics of `i64::from_str_radix` on `s[start..]`.
pub fn parse_radix(s: &Vec<char>, start: usize, radix: u32) -> (res: Option<i64>)
    requires
        2 <= radix <= 36,
        start <= s@.len(),
    ensures
        res == radix_value(s@.skip(start as int), radix as nat),
{
    let ghost t = s@.skip(start as int);
    let n = s.len();
    if start == n {
        return None;
    }
    let first = s[start];
    if (first == '+' || first == '-') && n - start == 1 {
        return None;
    }
    let neg = first == '-';
    let mut i: usize = if first == '+' || first == '-' { start + 1 } else { start };
    let ghost d0 = i;
    let ghost digits = s@.skip(d0 as int);
    assert(digits =~= (if first == '+' || first == '-' { t.drop_first() } else { t }));
    // the running value, negated for negative numbers so that `i64::MIN` can be reached
    let mut acc: i64 = 0;
    assert(digits.take(0) =~= Seq::<char>::empty());
    while i < n
        invariant
            2 <= radix <= 36,
            n == s@.len(),
            d0 <= i <= n,
            digits == s@.skip(d0 as int),
            t == s@.skip(start as int),
            t.len() > 0,
            !((t[0] == '+' || t[0] == '-') && t.len() == 1),
            neg == (t[0] == '-'),
            digits == (if t[0] == '+' || t[0] == '-' { t.drop_first() } else { t }),
            digits_value(digits.take(i - d0), radix as nat) is Some,
            neg ==> acc as int == -(digits_value(digits.take(i - d0), radix as nat)->0 as int),
            !neg ==> acc as int == digits_value(digits.take(i - d0), radix as nat)->0 as int,
        decreases n - i,
    {
        let ghost k = i - d0;
        proof {
            lemma_digits_step(digits, k, radix as nat);
            assert(digits[k] == s@[i as int]);
        }
        let d = match digit_of(s[i], radix) {
            Some(d) => d,
            None => {
                proof {
                    assert(digits_value(digits.take(k + 1), radix as nat) is None);
                    if digits_value(digits, radix as nat) is Some {
                        lemma_digits_prefix(digits, k + 1, radix as nat);
                    }
                }
                return None;
            },
        };
        let ghost a = digits_value(digits.take(k), radix as nat)->0;
        let m = acc.checked_mul(radix as i64);
        let next = match m {
            Some(m) => if neg { m.checked_sub(d as i64) } else { m.checked_add(d as i64) },
            None => None,
        };
        proof {
            if neg {
                assert(acc * radix == -(a * radix)) by (nonlinear_arith)
                    requires
                        acc == -a,
                ;
            } else {
                assert(acc * radix == a * radix) by (nonlinear_arith)
                    requires
                        acc == a,
                ;
            }
            assert(a * radix >= 0) by (nonlinear_arith)
                requires
                    a >= 0,
                    radix >= 2,
            ;
        }
        match next {
            Some(v) => {
                acc = v;
            },
            None => {
                proof {
                    let b = a * radix + d;
                    assert(digits_value(digits.take(k + 1), radix as nat) == Some(b as nat));
                    if digits_value(digits, radix as nat) is Some {
                        lemma_digits_prefix(digits, k + 1, radix as nat);
                    }
                }
                return None;
            },
        }
        i = i + 1;
    }
    assert(digits.take(n - d0) =~= digits);
    Some(acc)
}

/// The character of the digit `d` (`0`-`9`, then upper-case `A`-`Z`).
pub open spec fn digit_char(d: nat) -> char {
    if d < 10 {
        (48 + d) as char
    } else {
        (55 + d) as char
    }
}

/// The digits of `v` in `radix`, the most significant first, without leading zeros (`0` for
/// zero): how `{}`, `{:X}` and `{:o}` write a number for the radices 10, 16 and 8.
pub open spec fn digits_of(v: nat, radix: nat) -> Seq<char>
    recommends
        2 <= radix <= 36,
    decreases v,
{
    if radix < 2 || v < radix {
        seq![digit_char(v)]
    } else {
        proof {
            assert(v / radix < v) by (nonlinear_arith)
                requires
                    radix >= 2,
                    v >= radix,
            ;
        }
        digits_of(v / radix, radix).push(digit_char(v % radix))
    }
}

proof fn lemma_digit_char(d: nat, radix: nat)
    requires
        2 <= radix <= 36,
        d < radix,
    ensures
        digit_value(digit_char(d), radix) == Some(d),
        d < 10 ==> '0' <= digit_char(d) <= '9',
        digit_char(d) != '+' && digit_char(d) != '-',
        d > 0 ==> digit_char(d) != '0',
{
    if d < 10 {
        assert((48 + d) as char as int == 48 + d);
    } else {
        assert((55 + d) as char as int == 55 + d);
    }
}

/// Reading the digits of `v` back gives `v`; they start with a non-zero digit when `v` is not
/// zero.
pub proof fn lemma_digits_of(v: nat, radix: nat)
    requires
        2 <= radix <= 36,
    ensures
        digits_value(digits_of(v, radix), radix) == Some(v),
        digits_of(v, radix).len() >= 1,
        digit_value(digits_of(v, radix)[0], radix) is Some,
        digits_of(v, radix)[0] != '+' && digits_of(v, radix)[0] != '-',
        v > 0 ==> digits_of(v, radix)[0] != '0',
        v >= radix ==> digits_of(v, radix).len() >= 2,
    decreases v,
{
    if v < radix {
        lemma_digit_char(v, radix);
        let s = digits_of(v, radix);
        assert(s.drop_last() =~= Seq::<char>::empty());
        assert(s.last() == digit_char(v));
        assert(digits_value(s.drop_last(), radix) == Some(0nat));
        assert(0 * radix + v == v) by (nonlinear_arith);
        assert(digits_value(s, radix) == Some((0 * radix + v) as nat));
    } else {
        let q = v / radix;
        let r = v % radix;
        assert(q * radix + r == v && r < radix && 1 <= q < v) by (nonlinear_arith)
            requires
                2 <= radix,
                v >= radix,
                q == v / radix,
                r == v % radix,
        ;
        lemma_digits_of(q, radix);
        lemma_digit_char(r, radix);
        let s = digits_of(v, radix);
        assert(s.drop_last() =~= digits_of(q, radix));
        assert(s.last() == digit_char(r));
        assert(digits_value(s, radix) == Some((q * radix + r) as nat));
        assert(s[0] == digits_of(q, radix)[0]);
    }
}

} // verus!
