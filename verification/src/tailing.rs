//! Tail-style line and byte selection: a count argument is parsed into a
//! take-value, and a take-value plus a total gives the index to start
//! printing from.

use vstd::prelude::*;
use crate::digits::{parse_i64, parse_i64_spec};
use crate::text::{contains_sub, contains_sub_exec, match_at, str_eq};

verus! {

/// How many lines or bytes to take: `+0` means the whole input, a signed
/// count means a position from the start (positive) or the end (negative).
#[derive(Debug, PartialEq)]
pub enum TakeValue {
    PlusZero,
    TakeNum(i64),
}

/// How a count argument reads: `+0` is the whole input; otherwise a signed
/// decimal, where a bare number (no written sign) is taken from the end, so
/// its sign flips.  Anything else is an error carrying the argument itself.
pub open spec fn parse_num_spec(s: Seq<char>) -> Result<TakeValue, Seq<char>> {
    if s == "+0"@ {
        Ok(TakeValue::PlusZero)
    } else {
        match parse_i64_spec(s) {
            None => Err(s),
            Some(v) => if !contains_sub(s, "+"@) && !contains_sub(s, "-"@) {
                Ok(TakeValue::TakeNum((-(v as int)) as i64))
            } else {
                Ok(TakeValue::TakeNum(v))
            },
        }
    }
}

/// Parses a count argument.
pub fn parse_num(val: String) -> (r: Result<TakeValue, String>)
    ensures
        match r {
            Ok(t) => parse_num_spec(val@) == Ok::<TakeValue, Seq<char>>(t),
            Err(e) => parse_num_spec(val@) == Err::<TakeValue, Seq<char>>(e@),
        },
{
    proof {
        reveal_strlit("+0");
        reveal_strlit("+");
        reveal_strlit("-");
    }
    if str_eq(val.as_str(), "+0") {
        return Ok(TakeValue::PlusZero);
    }
    match parse_i64(val.as_str()) {
        None => Err(val),
        Some(v) => {
            let has_plus = contains_sub_exec(val.as_str(), "+");
            let has_minus = contains_sub_exec(val.as_str(), "-");
            if !has_plus && !has_minus {
                proof {
                    if val@.len() > 0 && (val@[0] == '+' || val@[0] == '-') {
                        if val@[0] == '+' {
                            assert(val@.subrange(0, 1) =~= "+"@);
                            assert(match_at(val@, "+"@, 0));
                        } else {
                            assert(val@.subrange(0, 1) =~= "-"@);
                            assert(match_at(val@, "-"@, 0));
                        }
                    }
                    crate::digits::lemma_digits_val_nonneg(val@);
                }
                Ok(TakeValue::TakeNum(-v))
            } else {
                Ok(TakeValue::TakeNum(v))
            }
        },
    }
}

/// Where printing starts when taking from a file's tail: `+0` prints
/// a non-empty input whole; a zero count or an empty input selects nothing; a
/// negative count further back than the start prints the whole input; a
/// count within the total is an offset from the matching end; anything else
/// selects nothing.
pub open spec fn start_index_spec(t: TakeValue, total: i64) -> Option<u64> {
    match t {
        TakeValue::PlusZero => if total > 0 {
            Some(0u64)
        } else {
            None
        },
        TakeValue::TakeNum(p) => {
            let pos = p as int;
            let mag = if pos < 0 {
                -pos
            } else {
                pos
            };
            if pos == 0 || total == 0 {
                None
            } else if mag >= total && pos < 0 {
                Some(0u64)
            } else if mag <= total {
                if pos > 0 {
                    Some((pos - 1) as u64)
                } else {
                    Some((total + pos) as u64)
                }
            } else {
                None
            }
        },
    }
}

/// Computes the start index for a take-value against a total.
pub fn get_start_index(take_val: &TakeValue, total: i64) -> (r: Option<u64>)
    ensures
        r == start_index_spec(*take_val, total),
{
    match take_val {
        TakeValue::PlusZero => {
            if total > 0 {
                Some(0)
            } else {
                None
            }
        },
        TakeValue::TakeNum(ind) => {
            let pos: i64 = *ind;
            if pos == 0 || total == 0 {
                return None;
            }
            if total < 0 {
                if pos < 0 {
                    return Some(0);
                } else {
                    return None;
                }
            }
            let tot: u64 = total as u64;
            let mag: u64 = if pos >= 0 {
                pos as u64
            } else {
                ((-(pos + 1)) as u64) + 1
            };
            if mag >= tot && pos < 0 {
                return Some(0);
            }
            if mag <= tot {
                if pos > 0 {
                    Some((pos - 1) as u64)
                } else {
                    Some((total + pos) as u64)
                }
            } else {
                None
            }
        },
    }
}

} // verus!
