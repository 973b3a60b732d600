//! Decimal numbers in text: parsing with exact overflow behaviour, and
//! formatting, both modelled over `Seq<char>`.

use vstd::prelude::*;
use vstd::arithmetic::div_mod::lemma_fundamental_div_mod;

verus! {

// ---------------------------------------------------------------------------
// Digits, modelled
// ---------------------------------------------------------------------------

pub open spec fn is_digit(c: char) -> bool {
    '0' <= c && c <= '9'
}

pub open spec fn digit_val(c: char) -> int {
    c as int - '0' as int
}

pub open spec fn all_digits(s: Seq<char>) -> bool {
    forall|i: int| 0 <= i < s.len() ==> is_digit(#[trigger] s[i])
}

/// The value of a run of decimal digits.
pub open spec fn digits_val(s: Seq<char>) -> int
    decreases s.len(),
{
    if s.len() == 0 {
        0
    } else {
        digits_val(s.drop_last()) * 10 + digit_val(s.last())
    }
}

pub proof fn lemma_digits_val_nonneg(s: Seq<char>)
    requires
        all_digits(s),
    ensures
        digits_val(s) >= 0,
    decreases s.len(),
{
    if s.len() > 0 {
        assert(all_digits(s.drop_last()));
        lemma_digits_val_nonneg(s.drop_last());
        let v = digits_val(s.drop_last());
        assert(v * 10 >= v) by (nonlinear_arith)
            requires
                v >= 0,
        ;
    }
}

/// A digit run's value never falls below the value of any of its prefixes.
pub proof fn lemma_digits_val_prefix_le(s: Seq<char>, i: int)
    requires
        all_digits(s),
        0 <= i <= s.len(),
    ensures
        digits_val(s.subrange(0, i)) <= digits_val(s),
    decreases s.len() - i,
{
    if i == s.len() {
        assert(s.subrange(0, i) =~= s);
    } else {
        let p = s.subrange(0, i);
        let q = s.subrange(0, i + 1);
        assert(q.drop_last() =~= p);
        assert(all_digits(p));
        lemma_digits_val_nonneg(p);
        let v = digits_val(p);
        assert(v * 10 >= v) by (nonlinear_arith)
            requires
                v >= 0,
        ;
        assert(digits_val(q) == v * 10 + digit_val(s[i]));
        lemma_digits_val_prefix_le(s, i + 1);
    }
}

/// An unsigned decimal: an optional `+`, then at least one digit.
pub open spec fn parse_unsigned_spec(s: Seq<char>) -> Option<int> {
    let ds = if s.len() > 0 && s[0] == '+' {
        s.skip(1)
    } else {
        s
    };
    if ds.len() == 0 || !all_digits(ds) {
        None
    } else {
        Some(digits_val(ds))
    }
}

/// A signed decimal: an optional `+` or `-`, then at least one digit.
pub open spec fn parse_signed_spec(s: Seq<char>) -> Option<int> {
    if s.len() > 0 && (s[0] == '+' || s[0] == '-') {
        let ds = s.skip(1);
        if ds.len() == 0 || !all_digits(ds) {
            None
        } else if s[0] == '-' {
            Some(-digits_val(ds))
        } else {
            Some(digits_val(ds))
        }
    } else {
        if s.len() == 0 || !all_digits(s) {
            None
        } else {
            Some(digits_val(s))
        }
    }
}

pub open spec fn parse_u32_spec(s: Seq<char>) -> Option<u32> {
    match parse_unsigned_spec(s) {
        None => None,
        Some(v) => if v <= u32::MAX {
            Some(v as u32)
        } else {
            None
        },
    }
}

pub open spec fn parse_usize_spec(s: Seq<char>) -> Option<usize> {
    match parse_unsigned_spec(s) {
        None => None,
        Some(v) => if v <= usize::MAX {
            Some(v as usize)
        } else {
            None
        },
    }
}

pub open spec fn parse_i64_spec(s: Seq<char>) -> Option<i64> {
    match parse_signed_spec(s) {
        None => None,
        Some(v) => if i64::MIN <= v <= i64::MAX {
            Some(v as i64)
        } else {
            None
        },
    }
}

// ---------------------------------------------------------------------------
// Digits, executable
// ---------------------------------------------------------------------------

/// Reads the digit run `s[from..]` into an accumulator, refusing a value
/// above `u64::MAX` the way std's integer parsing refuses overflow.
fn parse_digits_u64(s: &str, from: usize) -> (r: Option<u64>)
    requires
        from <= s@.len(),
    ensures
        match r {
            Some(v) => {
                &&& s@.skip(from as int).len() > 0
                &&& all_digits(s@.skip(from as int))
                &&& v == digits_val(s@.skip(from as int))
            },
            None => s@.skip(from as int).len() == 0 || !all_digits(s@.skip(from as int))
                || digits_val(s@.skip(from as int)) > u64::MAX,
        },
{
    let n = s.unicode_len();
    if from >= n {
        return None;
    }
    let ghost whole = s@.skip(from as int);
    let mut acc: u64 = 0;
    let mut i: usize = from;
    proof {
        assert(s@.subrange(from as int, from as int) =~= whole.subrange(0, 0));
    }
    while i < n
        invariant
            from <= i <= n,
            n == s@.len(),
            whole == s@.skip(from as int),
            all_digits(whole.subrange(0, i - from)),
            acc == digits_val(whole.subrange(0, i - from)),
        decreases n - i,
    {
        let c = s.get_char(i);
        proof {
            assert(whole[i - from] == s@[i as int]);
        }
        if c < '0' || c > '9' {
            proof {
                assert(!is_digit(whole[i - from]));
            }
            return None;
        }
        let d: u64 = (c as u32 - 48) as u64;
        proof {
            assert(d == digit_val(whole[i - from]));
        }
        let limit: u64 = (u64::MAX - d) / 10;
        let ghost p = whole.subrange(0, i - from);
        let ghost q = whole.subrange(0, i - from + 1);
        proof {
            assert(q.drop_last() =~= p);
            assert(q.last() == whole[i - from]);
            assert(digits_val(q) == digits_val(p) * 10 + d);
            lemma_fundamental_div_mod(u64::MAX - d, 10);
        }
        if acc > limit {
            proof {
                let lm = limit as int;
                assert(acc * 10 >= (lm + 1) * 10) by (nonlinear_arith)
                    requires
                        acc >= lm + 1,
                ;
                assert((lm + 1) * 10 == lm * 10 + 10);
                assert(lm * 10 + 10 + d > u64::MAX);
                assert(digits_val(q) > u64::MAX);
                if all_digits(whole) {
                    lemma_digits_val_prefix_le(whole, i - from + 1);
                }
            }
            return None;
        }
        proof {
            let lm = limit as int;
            assert(acc * 10 <= lm * 10) by (nonlinear_arith)
                requires
                    0 <= acc <= lm,
            ;
            assert(lm * 10 <= u64::MAX - d);
        }
        acc = acc * 10 + d;
        i += 1;
    }
    proof {
        assert(whole.subrange(0, n - from) =~= whole);
    }
    Some(acc)
}

/// Parses an unsigned decimal with an optional leading `+`, as std parses a
/// `usize`: any non-digit, an empty digit run, or overflow is a failure.
pub fn parse_usize(s: &str) -> (r: Option<usize>)
    ensures
        r == parse_usize_spec(s@),
{
    let n = s.unicode_len();
    let from: usize = if n > 0 && s.get_char(0) == '+' {
        1
    } else {
        0
    };
    proof {
        if from == 0 {
            assert(s@.skip(0) =~= s@);
        }
    }
    match parse_digits_u64(s, from) {
        None => None,
        Some(v) => {
            if v > usize::MAX as u64 {
                None
            } else {
                Some(v as usize)
            }
        },
    }
}

/// Parses an unsigned decimal with an optional leading `+`, as std parses a
/// `u32`.
pub fn parse_u32(s: &str) -> (r: Option<u32>)
    ensures
        r == parse_u32_spec(s@),
{
    let n = s.unicode_len();
    let from: usize = if n > 0 && s.get_char(0) == '+' {
        1
    } else {
        0
    };
    proof {
        if from == 0 {
            assert(s@.skip(0) =~= s@);
        }
    }
    match parse_digits_u64(s, from) {
        None => None,
        Some(v) => {
            if v > u32::MAX as u64 {
                None
            } else {
                Some(v as u32)
            }
        },
    }
}

/// Parses a signed decimal with an optional leading `+` or `-`, as std
/// parses an `i64`: values outside the type's range are a failure.
pub fn parse_i64(s: &str) -> (r: Option<i64>)
    ensures
        r == parse_i64_spec(s@),
{
    let n = s.unicode_len();
    let mut negative = false;
    let mut from: usize = 0;
    if n > 0 {
        let c = s.get_char(0);
        if c == '+' {
            from = 1;
        } else if c == '-' {
            from = 1;
            negative = true;
        }
    }
    proof {
        if from == 0 {
            assert(s@.skip(0) =~= s@);
        }
    }
    if n == 0 {
        return None;
    }
    match parse_digits_u64(s, from) {
        None => None,
        Some(v) => {
            if negative {
                if v > 9223372036854775808u64 {
                    None
                } else if v == 9223372036854775808u64 {
                    Some(i64::MIN)
                } else {
                    Some(-(v as i64))
                }
            } else {
                if v > i64::MAX as u64 {
                    None
                } else {
                    Some(v as i64)
                }
            }
        },
    }
}

// ---------------------------------------------------------------------------
// Formatting
// ---------------------------------------------------------------------------

pub open spec fn dec_digit(d: int) -> char {
    if d == 0 {
        '0'
    } else if d == 1 {
        '1'
    } else if d == 2 {
        '2'
    } else if d == 3 {
        '3'
    } else if d == 4 {
        '4'
    } else if d == 5 {
        '5'
    } else if d == 6 {
        '6'
    } else if d == 7 {
        '7'
    } else if d == 8 {
        '8'
    } else {
        '9'
    }
}

/// The decimal digits of a non-negative number, most significant first.
pub open spec fn dec_str(n: int) -> Seq<char>
    decreases n,
{
    if n < 10 {
        seq![dec_digit(n)]
    } else {
        dec_str(n / 10).push(dec_digit(n % 10))
    }
}

fn digit_str(d: u64) -> (r: &'static str)
    requires
        d < 10,
    ensures
        r@ == seq![dec_digit(d as int)],
{
    let r: &'static str = if d == 0 {
        "0"
    } else if d == 1 {
        "1"
    } else if d == 2 {
        "2"
    } else if d == 3 {
        "3"
    } else if d == 4 {
        "4"
    } else if d == 5 {
        "5"
    } else if d == 6 {
        "6"
    } else if d == 7 {
        "7"
    } else if d == 8 {
        "8"
    } else {
        "9"
    };
    proof {
        reveal_strlit("0");
        reveal_strlit("1");
        reveal_strlit("2");
        reveal_strlit("3");
        reveal_strlit("4");
        reveal_strlit("5");
        reveal_strlit("6");
        reveal_strlit("7");
        reveal_strlit("8");
        reveal_strlit("9");
        assert(r@ =~= seq![dec_digit(d as int)]);
    }
    r
}

/// Writes a number in decimal.
pub fn u64_to_string(n: u64) -> (r: String)
    ensures
        r@ == dec_str(n as int),
    decreases n,
{
    if n < 10 {
        digit_str(n).to_owned()
    } else {
        let mut prefix = u64_to_string(n / 10);
        let last = digit_str(n % 10);
        let ghost p = prefix@;
        prefix.append(last);
        proof {
            assert(prefix@ =~= p.push(dec_digit((n % 10) as int)));
        }
        prefix
    }
}

} // verus!
