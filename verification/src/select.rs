//! Cut-style selection: a position list is parsed from text, and ranges of
//! characters, bytes or fields are picked out of a line.

use vstd::prelude::*;
use vstd::string::StringSliceAdditionalSpecFns;
use core::ops::Range;
use crate::digits::{dec_str, parse_usize, parse_usize_spec, u64_to_string};
use crate::text::{contains_sub, contains_sub_exec, split_by, split_by_exec, str_eq};

verus! {

// ---------------------------------------------------------------------------
// Selection by ranges
// ---------------------------------------------------------------------------

/// The elements of `s` with index in `[start, end)`, clipped to `s`.
pub open spec fn clipped<T>(s: Seq<T>, start: int, end: int) -> Seq<T> {
    let lo = if start <= s.len() {
        start
    } else {
        s.len() as int
    };
    let hi = if end <= s.len() {
        end
    } else {
        s.len() as int
    };
    if 0 <= lo && lo <= hi {
        s.subrange(lo, hi)
    } else {
        Seq::<T>::empty()
    }
}

/// The elements picked by a position list: each range contributes its clipped
/// slice, ranges in the order given, overlaps and repetitions kept.
pub open spec fn selected<T>(s: Seq<T>, ranges: Seq<Range<usize>>) -> Seq<T>
    decreases ranges.len(),
{
    if ranges.len() == 0 {
        Seq::<T>::empty()
    } else {
        clipped(s, ranges[0].start as int, ranges[0].end as int) + selected(s, ranges.skip(1))
    }
}

/// Picks the characters of `line` selected by the position list.
pub fn extract_chars(line: &str, char_pos: &[Range<usize>]) -> (r: String)
    ensures
        r@ == selected(line@, char_pos@),
{
    let n = line.unicode_len();
    let m = char_pos.len();
    let mut out = String::new();
    let mut i: usize = 0;
    proof {
        assert(char_pos@.skip(0) =~= char_pos@);
        assert(out@ + selected(line@, char_pos@) =~= selected(line@, char_pos@));
    }
    while i < m
        invariant
            i <= m,
            m == char_pos@.len(),
            n == line@.len(),
            out@ + selected(line@, char_pos@.skip(i as int)) == selected(line@, char_pos@),
        decreases m - i,
    {
        let start = char_pos[i].start;
        let end = char_pos[i].end;
        let lo = if start <= n {
            start
        } else {
            n
        };
        let hi = if end <= n {
            end
        } else {
            n
        };
        proof {
            assert(char_pos@.skip(i as int)[0] == char_pos@[i as int]);
            assert(char_pos@.skip(i as int).skip(1) =~= char_pos@.skip(i + 1));
        }
        let ghost prev = out@;
        if lo <= hi {
            let piece = line.substring_char(lo, hi);
            out.append(piece);
        }
        proof {
            assert(out@ + selected(line@, char_pos@.skip(i + 1)) =~= prev + (clipped(
                line@,
                char_pos@[i as int].start as int,
                char_pos@[i as int].end as int,
            ) + selected(line@, char_pos@.skip(i + 1))));
        }
        i += 1;
    }
    proof {
        assert(selected(line@, char_pos@.skip(m as int)) =~= Seq::<char>::empty());
        assert(out@ =~= out@ + selected(line@, char_pos@.skip(m as int)));
    }
    out
}

/// What decoding arbitrary bytes as UTF-8 yields, invalid sequences shown as
/// replacement characters; a function of the bytes alone.
pub uninterp spec fn lossy_decode(bytes: Seq<u8>) -> Seq<char>;

/// Relies on String::from_utf8_lossy: decodes bytes as UTF-8, putting the
/// replacement character where the bytes are not valid UTF-8; the result
/// depends on the bytes alone, and valid UTF-8 decodes with no replacement
/// at all.
#[verifier::external_body]
fn utf8_lossy(bytes: &Vec<u8>) -> (r: String)
    ensures
        r@ == lossy_decode(bytes@),
        vstd::utf8::valid_utf8(bytes@) ==> r@ == vstd::utf8::decode_utf8(bytes@),
{
    String::from_utf8_lossy(bytes).into_owned()
}

/// Picks the bytes of `line` selected by the position list and decodes what
/// came out as UTF-8, lossily.
pub fn extract_bytes(line: &str, byte_pos: &[Range<usize>]) -> (r: String)
    ensures
        r@ == lossy_decode(selected(line.spec_bytes(), byte_pos@)),
        vstd::utf8::valid_utf8(selected(line.spec_bytes(), byte_pos@)) ==> r@
            == vstd::utf8::decode_utf8(selected(line.spec_bytes(), byte_pos@)),
{
    let bytes = line.as_bytes();
    let n = bytes.len();
    let m = byte_pos.len();
    let mut picked: Vec<u8> = Vec::new();
    let mut i: usize = 0;
    proof {
        assert(byte_pos@.skip(0) =~= byte_pos@);
        assert(picked@ + selected(bytes@, byte_pos@) =~= selected(bytes@, byte_pos@));
    }
    while i < m
        invariant
            i <= m,
            m == byte_pos@.len(),
            n == bytes@.len(),
            bytes@ == line.spec_bytes(),
            picked@ + selected(bytes@, byte_pos@.skip(i as int)) == selected(bytes@, byte_pos@),
        decreases m - i,
    {
        let start = byte_pos[i].start;
        let end = byte_pos[i].end;
        let lo = if start <= n {
            start
        } else {
            n
        };
        let hi = if end <= n {
            end
        } else {
            n
        };
        proof {
            assert(byte_pos@.skip(i as int)[0] == byte_pos@[i as int]);
            assert(byte_pos@.skip(i as int).skip(1) =~= byte_pos@.skip(i + 1));
        }
        let ghost prev = picked@;
        if lo <= hi {
            let mut j: usize = lo;
            while j < hi
                invariant
                    lo <= j <= hi,
                    hi <= n,
                    n == bytes@.len(),
                    picked@ == prev + bytes@.subrange(lo as int, j as int),
                decreases hi - j,
            {
                proof {
                    assert(bytes@.subrange(lo as int, j + 1) =~= bytes@.subrange(
                        lo as int,
                        j as int,
                    ).push(bytes@[j as int]));
                }
                picked.push(bytes[j]);
                j += 1;
            }
        }
        proof {
            assert(picked@ + selected(bytes@, byte_pos@.skip(i + 1)) =~= prev + (clipped(
                bytes@,
                byte_pos@[i as int].start as int,
                byte_pos@[i as int].end as int,
            ) + selected(bytes@, byte_pos@.skip(i + 1))));
        }
        i += 1;
    }
    proof {
        assert(selected(bytes@, byte_pos@.skip(m as int)) =~= Seq::<u8>::empty());
        assert(picked@ =~= picked@ + selected(bytes@, byte_pos@.skip(m as int)));
    }
    utf8_lossy(&picked)
}

/// Picks the fields of a record selected by the position list.
pub fn extract_fields(record: &Vec<String>, field_pos: &[Range<usize>]) -> (r: Vec<String>)
    ensures
        r.deep_view() == selected(record.deep_view(), field_pos@),
{
    let n = record.len();
    let m = field_pos.len();
    let ghost fields = record.deep_view();
    let mut out: Vec<String> = Vec::new();
    let mut i: usize = 0;
    proof {
        assert(field_pos@.skip(0) =~= field_pos@);
        assert(out.deep_view() + selected(fields, field_pos@) =~= selected(fields, field_pos@));
    }
    while i < m
        invariant
            i <= m,
            m == field_pos@.len(),
            n == record@.len(),
            fields == record.deep_view(),
            out.deep_view() + selected(fields, field_pos@.skip(i as int)) == selected(
                fields,
                field_pos@,
            ),
        decreases m - i,
    {
        let start = field_pos[i].start;
        let end = field_pos[i].end;
        let lo = if start <= n {
            start
        } else {
            n
        };
        let hi = if end <= n {
            end
        } else {
            n
        };
        proof {
            assert(field_pos@.skip(i as int)[0] == field_pos@[i as int]);
            assert(field_pos@.skip(i as int).skip(1) =~= field_pos@.skip(i + 1));
        }
        let ghost prev = out.deep_view();
        if lo <= hi {
            let mut j: usize = lo;
            while j < hi
                invariant
                    lo <= j <= hi,
                    hi <= n,
                    n == record@.len(),
                    fields == record.deep_view(),
                    out.deep_view() == prev + fields.subrange(lo as int, j as int),
                decreases hi - j,
            {
                let ghost before = out.deep_view();
                out.push(record[j].clone());
                proof {
                    assert(out.deep_view() =~= before.push(fields[j as int]));
                    assert(fields.subrange(lo as int, j + 1) =~= fields.subrange(
                        lo as int,
                        j as int,
                    ).push(fields[j as int]));
                    assert(out.deep_view() =~= prev + fields.subrange(lo as int, j + 1));
                }
                j += 1;
            }
        }
        proof {
            assert(out.deep_view() + selected(fields, field_pos@.skip(i + 1)) =~= prev + (clipped(
                fields,
                field_pos@[i as int].start as int,
                field_pos@[i as int].end as int,
            ) + selected(fields, field_pos@.skip(i + 1))));
        }
        i += 1;
    }
    proof {
        assert(selected(fields, field_pos@.skip(m as int)) =~= Seq::<Seq<char>>::empty());
        assert(out.deep_view() =~= out.deep_view() + selected(fields, field_pos@.skip(m as int)));
    }
    out
}

// ---------------------------------------------------------------------------
// Parsing a position list
// ---------------------------------------------------------------------------

/// The message rejecting one illegal list value.
pub open spec fn illegal_of(x: Seq<char>) -> Seq<char> {
    "illegal list value: \""@ + x + "\""@
}

/// The message rejecting a pair whose first number is not lower.
pub open spec fn order_msg_of(down: int, up: int) -> Seq<char> {
    "First number in range ("@ + dec_str(down) + ") must be lower than second number ("@ + dec_str(
        up,
    ) + ")"@
}

/// How one comma-separated piece reads: one number `N` selects `[N-1, N)`, a
/// pair `A-B` with `A < B` selects `[A-1, B)`; a literal `0` part, a number
/// that does not parse, a pair out of order, a zero lower bound, or any other
/// shape is rejected with its message.
pub open spec fn parse_piece_spec(piece: Seq<char>, whole: Seq<char>) -> Result<
    (int, int),
    Seq<char>,
> {
    let parts = split_by(piece, "-"@);
    if exists|i: int| 0 <= i < parts.len() && #[trigger] parts[i] == "0"@ {
        Err(illegal_of("0"@))
    } else if parts.len() == 1 {
        match parse_usize_spec(parts[0]) {
            None => Err(illegal_of(parts[0])),
            Some(up) => if up == 0 {
                Err(illegal_of("0"@))
            } else {
                Ok((up - 1, up as int))
            },
        }
    } else if parts.len() == 2 {
        match parse_usize_spec(parts[0]) {
            None => Err(illegal_of(whole)),
            Some(down) => match parse_usize_spec(parts[1]) {
                None => Err(illegal_of(whole)),
                Some(up) => if up <= down {
                    Err(order_msg_of(down as int, up as int))
                } else if down == 0 {
                    Err(illegal_of("0"@))
                } else {
                    Ok((down - 1, up as int))
                },
            },
        }
    } else {
        Err(illegal_of(whole))
    }
}

/// How the comma-separated pieces read, left to right, the first rejection
/// winning.
pub open spec fn parse_pieces_spec(pieces: Seq<Seq<char>>, whole: Seq<char>) -> Result<
    Seq<(int, int)>,
    Seq<char>,
>
    decreases pieces.len(),
{
    if pieces.len() == 0 {
        Ok(Seq::<(int, int)>::empty())
    } else {
        match parse_piece_spec(pieces[0], whole) {
            Err(e) => Err(e),
            Ok(rg) => match parse_pieces_spec(pieces.skip(1), whole) {
                Err(e) => Err(e),
                Ok(rest) => Ok(seq![rg] + rest),
            },
        }
    }
}

/// How a position list reads: empty input or any `+` is rejected outright,
/// else the comma-separated pieces are read in order.
pub open spec fn parse_pos_spec(s: Seq<char>) -> Result<Seq<(int, int)>, Seq<char>> {
    if s.len() == 0 || contains_sub(s, "+"@) {
        Err(illegal_of(s))
    } else {
        parse_pieces_spec(split_by(s, ","@), s)
    }
}

/// Builds the message rejecting one illegal list value.
fn illegal_msg(x: &str) -> (r: String)
    ensures
        r@ == illegal_of(x@),
{
    proof {
        reveal_strlit("illegal list value: \"");
        reveal_strlit("\"");
    }
    let mut m = "illegal list value: \"".to_owned();
    m.append(x);
    m.append("\"");
    m
}

/// Builds the message rejecting a pair whose first number is not lower.
fn order_msg(down: usize, up: usize) -> (r: String)
    ensures
        r@ == order_msg_of(down as int, up as int),
{
    proof {
        reveal_strlit("First number in range (");
        reveal_strlit(") must be lower than second number (");
        reveal_strlit(")");
    }
    let mut m = "First number in range (".to_owned();
    let d = u64_to_string(down as u64);
    m.append(d.as_str());
    m.append(") must be lower than second number (");
    let u = u64_to_string(up as u64);
    m.append(u.as_str());
    m.append(")");
    m
}

/// Reads one comma-separated piece.
fn parse_piece(piece: &str, whole: &str) -> (r: Result<(usize, usize), String>)
    ensures
        match r {
            Ok(p) => parse_piece_spec(piece@, whole@) == Ok::<(int, int), Seq<char>>(
                (p.0 as int, p.1 as int),
            ) && p.0 < p.1,
            Err(e) => parse_piece_spec(piece@, whole@) == Err::<(int, int), Seq<char>>(e@),
        },
{
    proof {
        reveal_strlit("-");
        reveal_strlit("0");
    }
    let parts = split_by_exec(piece, "-");
    let m = parts.len();
    let mut i: usize = 0;
    while i < m
        invariant
            i <= m,
            m == parts@.len(),
            parts.deep_view() == split_by(piece@, "-"@),
            forall|j: int| 0 <= j < i ==> #[trigger] parts.deep_view()[j] != "0"@,
        decreases m - i,
    {
        proof {
            assert(parts@[i as int]@ == parts.deep_view()[i as int]);
        }
        if str_eq(parts[i].as_str(), "0") {
            return Err(illegal_msg("0"));
        }
        i += 1;
    }
    if m == 1 {
        proof {
            assert(parts@[0]@ == parts.deep_view()[0]);
        }
        match parse_usize(parts[0].as_str()) {
            None => Err(illegal_msg(parts[0].as_str())),
            Some(up) => {
                if up == 0 {
                    Err(illegal_msg("0"))
                } else {
                    Ok((up - 1, up))
                }
            },
        }
    } else if m == 2 {
        proof {
            assert(parts@[0]@ == parts.deep_view()[0]);
            assert(parts@[1]@ == parts.deep_view()[1]);
        }
        let down = match parse_usize(parts[0].as_str()) {
            None => {
                return Err(illegal_msg(whole));
            },
            Some(d) => d,
        };
        let up = match parse_usize(parts[1].as_str()) {
            None => {
                return Err(illegal_msg(whole));
            },
            Some(u) => u,
        };
        if up <= down {
            Err(order_msg(down, up))
        } else if down == 0 {
            Err(illegal_msg("0"))
        } else {
            Ok((down - 1, up))
        }
    } else {
        Err(illegal_msg(whole))
    }
}

/// The ranges a list of index pairs stands for.
pub open spec fn pairs_of(v: Seq<Range<usize>>) -> Seq<(int, int)> {
    Seq::new(v.len(), |j: int| (v[j].start as int, v[j].end as int))
}

/// Reads a position list: comma-separated numbers and `A-B` pairs, one-based
/// and inclusive on the left, into zero-based half-open ranges.
pub fn parse_pos(range: String) -> (r: Result<Vec<Range<usize>>, String>)
    ensures
        match r {
            Ok(v) => parse_pos_spec(range@) == Ok::<Seq<(int, int)>, Seq<char>>(pairs_of(v@)),
            Err(e) => parse_pos_spec(range@) == Err::<Seq<(int, int)>, Seq<char>>(e@),
        },
{
    proof {
        reveal_strlit("+");
        reveal_strlit(",");
    }
    let n = range.as_str().unicode_len();
    if n == 0 || contains_sub_exec(range.as_str(), "+") {
        return Err(illegal_msg(range.as_str()));
    }
    let pieces = split_by_exec(range.as_str(), ",");
    let m = pieces.len();
    let mut out: Vec<Range<usize>> = Vec::new();
    let ghost all = split_by(range@, ","@);
    let mut i: usize = 0;
    proof {
        assert(all.skip(0) =~= all);
        assert(pairs_of(out@) + Seq::<(int, int)>::empty() =~= pairs_of(out@));
    }
    while i < m
        invariant
            i <= m,
            m == pieces@.len(),
            pieces.deep_view() == all,
            all == split_by(range@, ","@),
            range@.len() != 0,
            !contains_sub(range@, "+"@),
            match parse_pieces_spec(all.skip(i as int), range@) {
                Err(e) => parse_pieces_spec(all, range@) == Err::<Seq<(int, int)>, Seq<char>>(e),
                Ok(rest) => parse_pieces_spec(all, range@) == Ok::<Seq<(int, int)>, Seq<char>>(
                    pairs_of(out@) + rest,
                ),
            },
        decreases m - i,
    {
        proof {
            assert(pieces@[i as int]@ == pieces.deep_view()[i as int]);
            assert(all.skip(i as int)[0] == all[i as int]);
            assert(all.skip(i as int).skip(1) =~= all.skip(i + 1));
        }
        let ghost prev = out@;
        match parse_piece(pieces[i].as_str(), range.as_str()) {
            Err(e) => {
                proof {
                    assert(all.len() == m);
                    assert(all.skip(i as int).len() > 0);
                    assert(parse_pieces_spec(all.skip(i as int), range@) == Err::<
                        Seq<(int, int)>,
                        Seq<char>,
                    >(e@));
                    assert(parse_pieces_spec(all, range@) == Err::<Seq<(int, int)>, Seq<char>>(
                        e@,
                    ));
                    assert(range@.len() != 0 && !contains_sub(range@, "+"@));
                    assert(parse_pos_spec(range@) == Err::<Seq<(int, int)>, Seq<char>>(e@));
                }
                return Err(e);
            },
            Ok((lo, hi)) => {
                out.push(lo..hi);
                proof {
                    assert(out@[prev.len() as int].start == lo);
                    match parse_pieces_spec(all.skip(i + 1), range@) {
                        Err(e) => {},
                        Ok(rest) => {
                            assert(pairs_of(out@) =~= pairs_of(prev) + seq![(lo as int, hi as int)]);
                            assert(pairs_of(prev) + (seq![(lo as int, hi as int)] + rest) =~= pairs_of(
                                out@,
                            ) + rest);
                        },
                    }
                }
            },
        }
        i += 1;
    }
    proof {
        assert(all.skip(m as int) =~= Seq::<Seq<char>>::empty());
        assert(pairs_of(out@) + Seq::<(int, int)>::empty() =~= pairs_of(out@));
    }
    Ok(out)
}

} // verus!
