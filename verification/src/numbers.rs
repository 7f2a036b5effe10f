//! Decimal numerals: rendering an unsigned integer and parsing one back the
//! way Rust's `u32` parser does (optional leading `+`, digits only, rejected
//! on overflow), with the version logic's "unparsable counts as zero" rule.

use vstd::prelude::*;
use vstd::arithmetic::div_mod::lemma_fundamental_div_mod;

verus! {

pub open spec fn is_digit(c: char) -> bool {
    '0' <= c && c <= '9'
}

pub open spec fn digit_val(c: char) -> nat {
    (c as u32 - '0' as u32) as nat
}

pub open spec fn digit_char(d: nat) -> char {
    if d == 0 {
        '0'
    } else if d == 1 {
        '1'
    } else if d == 2 {
        '2'
    } else if d == 3 {
        '3'
    } else if d == 4 {
        '4'
    } else if d == 5 {
        '5'
    } else if d == 6 {
        '6'
    } else if d == 7 {
        '7'
    } else if d == 8 {
        '8'
    } else {
        '9'
    }
}

/// The decimal numeral of `n`, most significant digit first.
pub open spec fn dec_digits(n: nat) -> Seq<char>
    decreases n,
{
    if n < 10 {
        seq![digit_char(n)]
    } else {
        dec_digits(n / 10).push(digit_char(n % 10))
    }
}

/// The value of a digit string, read most significant digit first.
pub open spec fn digits_value(s: Seq<char>) -> nat
    decreases s.len(),
{
    if s.len() == 0 {
        0
    } else {
        digits_value(s.drop_last()) * 10 + digit_val(s.last())
    }
}

pub open spec fn all_digits(s: Seq<char>) -> bool {
    forall|i: int| 0 <= i < s.len() ==> is_digit(s[i])
}

/// The digit part of a numeral: everything after an optional leading `+`.
pub open spec fn numeral_body(s: Seq<char>) -> Seq<char> {
    if s.len() > 0 && s[0] == '+' {
        s.drop_first()
    } else {
        s
    }
}

/// What `str::parse::<u32>` followed by `unwrap_or(0)` yields: the numeric
/// value for a well-formed in-range numeral, and zero otherwise.
pub open spec fn parse_u32_or_zero_spec(s: Seq<char>) -> u32 {
    let body = numeral_body(s);
    if body.len() > 0 && all_digits(body) && digits_value(body) <= u32::MAX {
        digits_value(body) as u32
    } else {
        0
    }
}

proof fn lemma_digit_roundtrip(d: nat)
    requires
        d < 10,
    ensures
        is_digit(digit_char(d)),
        digit_val(digit_char(d)) == d,
{
}

/// Rendering a number yields digits only, so reparsing it restores the value.
pub proof fn lemma_dec_digits_wf(n: nat)
    ensures
        dec_digits(n).len() >= 1,
        all_digits(dec_digits(n)),
        digits_value(dec_digits(n)) == n,
    decreases n,
{
    if n < 10 {
        lemma_digit_roundtrip(n);
        let s1 = seq![digit_char(n)];
        assert(dec_digits(n) =~= s1);
        assert(s1.drop_last() =~= Seq::<char>::empty());
        assert(digits_value(Seq::<char>::empty()) == 0);
        assert(s1.last() == digit_char(n));
        assert(digits_value(s1) == digits_value(s1.drop_last()) * 10 + digit_val(s1.last()));
        assert(digits_value(s1) == n);
    } else {
        lemma_digit_roundtrip(n % 10);
        lemma_dec_digits_wf(n / 10);
        lemma_fundamental_div_mod(n as int, 10);
        let s = dec_digits(n);
        assert(s =~= dec_digits(n / 10).push(digit_char(n % 10)));
        assert(s.drop_last() =~= dec_digits(n / 10));
        assert forall|i: int| 0 <= i < s.len() implies is_digit(s[i]) by {
            if i < s.len() - 1 {
                assert(s[i] == dec_digits(n / 10)[i]);
            }
        }
        assert(digits_value(s) == digits_value(s.drop_last()) * 10 + digit_val(s.last()));
        assert(digits_value(s.drop_last()) == n / 10);
        assert(digit_val(s.last()) == n % 10);
        assert(n / 10 * 10 + n % 10 == n);
    }
}

fn digit_str(d: u64) -> (r: String)
    requires
        d < 10,
    ensures
        r@ == seq![digit_char(d as nat)],
{
    proof {
        reveal_strlit("0");
        reveal_strlit("1");
        reveal_strlit("2");
        reveal_strlit("3");
        reveal_strlit("4");
        reveal_strlit("5");
        reveal_strlit("6");
        reveal_strlit("7");
        reveal_strlit("8");
        reveal_strlit("9");
    }
    let s: &str = if d == 0 {
        "0"
    } else if d == 1 {
        "1"
    } else if d == 2 {
        "2"
    } else if d == 3 {
        "3"
    } else if d == 4 {
        "4"
    } else if d == 5 {
        "5"
    } else if d == 6 {
        "6"
    } else if d == 7 {
        "7"
    } else if d == 8 {
        "8"
    } else {
        "9"
    };
    let r = s.to_owned();
    proof {
        assert(r@ =~= seq![digit_char(d as nat)]);
    }
    r
}

/// Renders `n` in decimal.
pub fn u64_to_string(n: u64) -> (r: String)
    ensures
        r@ == dec_digits(n as nat),
    decreases n,
{
    if n < 10 {
        digit_str(n)
    } else {
        let mut r = u64_to_string(n / 10);
        let d = digit_str(n % 10);
        r.append(d.as_str());
        proof {
            assert(r@ =~= dec_digits((n / 10) as nat).push(digit_char((n % 10) as nat)));
        }
        r
    }
}

/// `digits_value` capped at one past `u32::MAX`, the saturation point the
/// parser tracks so that any overflow is detected without the full value.
pub open spec fn capped_value(s: Seq<char>) -> nat {
    if digits_value(s) > 0x1_0000_0000 {
        0x1_0000_0000
    } else {
        digits_value(s)
    }
}

/// Parses `s` as Rust's `u32` parser does, yielding zero when that parser
/// would fail (empty body, a non-digit, or overflow).
pub fn parse_u32_or_zero(s: &str) -> (r: u32)
    ensures
        r == parse_u32_or_zero_spec(s@),
{
    let n = s.unicode_len();
    let mut off: usize = 0;
    if n > 0 && s.get_char(0) == '+' {
        off = 1;
    }
    let ghost body = numeral_body(s@);
    proof {
        assert(body =~= s@.subrange(off as int, n as int));
    }
    if off >= n {
        return 0;
    }
    let mut acc: u64 = 0;
    let mut j: usize = off;
    while j < n
        invariant
            n == s@.len(),
            off <= j <= n,
            body == numeral_body(s@),
            body == s@.subrange(off as int, n as int),
            all_digits(body.take(j - off)),
            acc == capped_value(body.take(j - off)),
            acc <= 0x1_0000_0000,
        decreases n - j,
    {
        let c = s.get_char(j);
        let cu = c as u32;
        if cu < '0' as u32 || cu > '9' as u32 {
            proof {
                assert(body[j - off] == s@[j as int]);
                assert(!is_digit(body[j - off]));
                assert(!all_digits(body));
            }
            return 0;
        }
        let d: u64 = (cu - '0' as u32) as u64;
        let raw: u64 = acc * 10 + d;
        let ghost prefix = body.take(j - off);
        let ghost prefix1 = body.take(j + 1 - off);
        proof {
            assert(prefix1.drop_last() =~= prefix);
            assert(prefix1.last() == s@[j as int]);
            assert(digits_value(prefix1) == digits_value(prefix) * 10 + digit_val(
                s@[j as int],
            ));
        }
        if raw > 0x1_0000_0000 {
            acc = 0x1_0000_0000;
        } else {
            acc = raw;
        }
        j = j + 1;
    }
    proof {
        assert(body.take(n - off) =~= body);
    }
    if acc <= 0xFFFF_FFFF {
        acc as u32
    } else {
        0
    }
}

} // verus!
