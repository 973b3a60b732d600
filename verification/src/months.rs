//! Month arguments: a number in range, or a unique case-insensitive prefix
//! of a month name.

use vstd::prelude::*;
use crate::digits::{dec_str, parse_u32, parse_u32_spec, u64_to_string};
use crate::text::{is_prefix_of, lower, match_at_exec, to_lower};

verus! {

/// The name of month `i`, counted from one.
pub open spec fn month_name_spec(i: int) -> Seq<char> {
    if i == 1 {
        "January"@
    } else if i == 2 {
        "February"@
    } else if i == 3 {
        "March"@
    } else if i == 4 {
        "April"@
    } else if i == 5 {
        "May"@
    } else if i == 6 {
        "June"@
    } else if i == 7 {
        "July"@
    } else if i == 8 {
        "August"@
    } else if i == 9 {
        "September"@
    } else if i == 10 {
        "October"@
    } else if i == 11 {
        "November"@
    } else if i == 12 {
        "December"@
    } else {
        Seq::<char>::empty()
    }
}

fn month_name(i: u32) -> (r: &'static str)
    requires
        1 <= i <= 12,
    ensures
        r@ == month_name_spec(i as int),
{
    proof {
        reveal_strlit("January");
        reveal_strlit("February");
        reveal_strlit("March");
        reveal_strlit("April");
        reveal_strlit("May");
        reveal_strlit("June");
        reveal_strlit("July");
        reveal_strlit("August");
        reveal_strlit("September");
        reveal_strlit("October");
        reveal_strlit("November");
        reveal_strlit("December");
    }
    match i {
        1 => "January",
        2 => "February",
        3 => "March",
        4 => "April",
        5 => "May",
        6 => "June",
        7 => "July",
        8 => "August",
        9 => "September",
        10 => "October",
        11 => "November",
        12 => "December",
        _ => "",
    }
}

/// The argument, case-folded, is a prefix of month `i`'s name, case-folded.
pub open spec fn month_matches(m: Seq<char>, i: int) -> bool {
    is_prefix_of(lower(m), lower(month_name_spec(i)))
}

/// How many months from `i` up match the argument.
pub open spec fn candidates_from(m: Seq<char>, i: int) -> nat
    decreases 13 - i,
{
    if i < 1 || i > 12 {
        0
    } else {
        (if month_matches(m, i) {
            1nat
        } else {
            0nat
        }) + candidates_from(m, i + 1)
    }
}

/// The first month from `i` up that matches the argument.
pub open spec fn first_candidate(m: Seq<char>, i: int) -> Option<int>
    decreases 13 - i,
{
    if i < 1 || i > 12 {
        None
    } else if month_matches(m, i) {
        Some(i)
    } else {
        first_candidate(m, i + 1)
    }
}

/// The message rejecting an unknown or ambiguous month argument.
pub open spec fn invalid_month_msg(m: Seq<char>) -> Seq<char> {
    "Invalid month \""@ + m + "\""@
}

/// The message rejecting a month number outside one through twelve.
pub open spec fn month_range_msg(v: int) -> Seq<char> {
    "month \""@ + dec_str(v) + "\" not in the range 1 through 12"@
}

/// How a month argument reads: a number must lie in one through twelve; any
/// other text must be a case-insensitive prefix of exactly one month name,
/// and names that month's number.
pub open spec fn parse_month_spec(m: Seq<char>) -> Result<u32, Seq<char>> {
    match parse_u32_spec(m) {
        Some(v) => if 1 <= v <= 12 {
            Ok(v)
        } else {
            Err(month_range_msg(v as int))
        },
        None => if candidates_from(m, 1) > 1 {
            Err(invalid_month_msg(m))
        } else {
            match first_candidate(m, 1) {
                None => Err(invalid_month_msg(m)),
                Some(i) => Ok(i as u32),
            }
        },
    }
}

/// Builds the message rejecting an unknown or ambiguous month argument.
fn invalid_msg(m: &str) -> (r: String)
    ensures
        r@ == invalid_month_msg(m@),
{
    proof {
        reveal_strlit("Invalid month \"");
        reveal_strlit("\"");
    }
    let mut s = "Invalid month \"".to_owned();
    s.append(m);
    s.append("\"");
    s
}

/// Reads a month argument: a number in range, or a unique case-insensitive
/// prefix of a month name.
pub fn parse_month(month: String) -> (r: Result<u32, String>)
    ensures
        match r {
            Ok(v) => parse_month_spec(month@) == Ok::<u32, Seq<char>>(v),
            Err(e) => parse_month_spec(month@) == Err::<u32, Seq<char>>(e@),
        },
{
    match parse_u32(month.as_str()) {
        Some(val) => {
            if 1 <= val && val <= 12 {
                Ok(val)
            } else {
                proof {
                    reveal_strlit("month \"");
                    reveal_strlit("\" not in the range 1 through 12");
                }
                let mut s = "month \"".to_owned();
                let d = u64_to_string(val as u64);
                s.append(d.as_str());
                s.append("\" not in the range 1 through 12");
                Err(s)
            }
        },
        None => {
            let low = to_lower(month.as_str());
            let low_len = low.as_str().unicode_len();
            let mut num_candidates: u32 = 0;
            let mut found: u32 = 0;
            let mut i: u32 = 1;
            while i <= 12
                invariant
                    1 <= i <= 13,
                    low@ == lower(month@),
                    low_len == low@.len(),
                    num_candidates + candidates_from(month@, i as int) == candidates_from(
                        month@,
                        1,
                    ),
                    num_candidates <= i - 1,
                    if found == 0 {
                        first_candidate(month@, 1) == first_candidate(month@, i as int)
                    } else {
                        1 <= found < i && first_candidate(month@, 1) == Some(found as int)
                    },
                decreases 13 - i,
            {
                let name = month_name(i);
                let name_low = to_lower(name);
                let name_len = name_low.as_str().unicode_len();
                let matches_here = if low_len <= name_len {
                    match_at_exec(name_low.as_str(), low.as_str(), 0)
                } else {
                    false
                };
                proof {
                    assert(matches_here == month_matches(month@, i as int));
                }
                if matches_here {
                    num_candidates += 1;
                    if found == 0 {
                        found = i;
                    }
                }
                i += 1;
            }
            if num_candidates > 1 {
                Err(invalid_msg(month.as_str()))
            } else if found == 0 {
                Err(invalid_msg(month.as_str()))
            } else {
                Ok(found)
            }
        },
    }
}


/// The decimal form of a number up to four digits long is at most four
/// characters.
proof fn lemma_dec_str_len_four(y: int)
    requires
        0 <= y <= 9999,
    ensures
        dec_str(y).len() <= 4,
{
    if y >= 10 {
        let y1 = y / 10;
        assert(0 <= y1 <= 999);
        if y1 >= 10 {
            let y2 = y1 / 10;
            assert(0 <= y2 <= 99);
            if y2 >= 10 {
                let y3 = y2 / 10;
                assert(0 <= y3 <= 9);
                assert(dec_str(y3).len() == 1);
            }
            assert(dec_str(y2).len() <= 2);
        }
        assert(dec_str(y1).len() <= 3);
    }
}

/// The nineteen blanks a header row starts from.
pub open spec fn header_blanks() -> Seq<char> {
    "                   "@
}

/// A month header: the month's name, the year after it when asked, centred
/// in a twenty-column field inside a row cut to twenty-two columns.
pub open spec fn header_row_spec(year: int, month: int, print_year: bool) -> Seq<char> {
    let name = month_name_spec(month);
    let header = if print_year {
        name + " "@ + dec_str(year)
    } else {
        name
    };
    let lead = (20 - header.len() as int) / 2;
    (header_blanks().subrange(0, lead) + header + header_blanks().subrange(lead, 19)).take(22)
}

/// Builds the header row of a month display.
pub fn generate_header_row(year: i32, month: u32, print_year: bool) -> (r: String)
    requires
        1 <= month <= 12,
        0 <= year <= 9999,
    ensures
        r@ == header_row_spec(year as int, month as int, print_year),
{
    proof {
        reveal_strlit("                   ");
        reveal_strlit(" ");
        reveal_strlit("January");
        reveal_strlit("February");
        reveal_strlit("March");
        reveal_strlit("April");
        reveal_strlit("May");
        reveal_strlit("June");
        reveal_strlit("July");
        reveal_strlit("August");
        reveal_strlit("September");
        reveal_strlit("October");
        reveal_strlit("November");
        reveal_strlit("December");
        lemma_dec_str_len_four(year as int);
        assert(3 <= month_name_spec(month as int).len() <= 9);
    }
    let name = month_name(month);
    let mut header: String = name.to_owned();
    if print_year {
        header.append(" ");
        let y = u64_to_string(year as u64);
        header.append(y.as_str());
    }
    let h_len = header.as_str().unicode_len();
    let pad = "                   ";
    let lead = (20 - h_len) / 2;
    let mut out = pad.substring_char(0, lead).to_owned();
    out.append(header.as_str());
    out.append(pad.substring_char(lead, 19));
    let r = out.as_str().substring_char(0, 22).to_owned();
    proof {
        assert(r@ =~= header_row_spec(year as int, month as int, print_year));
    }
    r
}

} // verus!
