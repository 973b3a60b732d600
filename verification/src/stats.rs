//! Source and binary file metrics: lines of code, comment lines, blank
//! lines, and file weight.

use vstd::prelude::*;
use crate::text::{
    first_char, is_prefix_of, lemma_first_char_from, find_char, match_at_exec, trim_start_exec,
    trimmed_start,
};

verus! {

/// Metrics of source text.
#[derive(Debug, PartialEq)]
pub struct SrcStats {
    pub number_of_files: u32,
    pub lines_of_code: u32,
    pub comments: u32,
    pub blanks: u32,
}

/// Metrics of a binary file.
#[derive(Debug, PartialEq)]
pub struct BinStats {
    pub number_of_files: u32,
    pub weight: u32,
}

/// What went wrong while computing metrics.
#[derive(Debug, PartialEq)]
pub struct StatsError {
    pub warn: String,
}

/// One piece of text before a line feed, its closing carriage return
/// dropped.
pub open spec fn line_body(p: Seq<char>) -> Seq<char> {
    if p.len() > 0 && p.last() == '\r' {
        p.drop_last()
    } else {
        p
    }
}

/// The lines of a text the way `str::lines` yields them: split at each line
/// feed, a carriage return before the line feed dropped, the final line
/// ending optional.
pub open spec fn src_lines(s: Seq<char>) -> Seq<Seq<char>>
    decreases s.len(),
    via src_lines_decreases
{
    if s.len() == 0 {
        Seq::<Seq<char>>::empty()
    } else {
        match first_char(s, '\n') {
            None => seq![s],
            Some(i) => seq![line_body(s.subrange(0, i))] + src_lines(s.skip(i + 1)),
        }
    }
}

#[via_fn]
proof fn src_lines_decreases(s: Seq<char>) {
    lemma_first_char_from(s, '\n', 0);
}

pub open spec fn is_blank_line(l: Seq<char>) -> bool {
    l.len() == 0
}

pub open spec fn is_comment_line(l: Seq<char>) -> bool {
    is_prefix_of("//"@, trimmed_start(l))
}

/// How many of the lines are blank.
pub open spec fn blanks_in(ls: Seq<Seq<char>>) -> nat
    decreases ls.len(),
{
    if ls.len() == 0 {
        0
    } else {
        (if is_blank_line(ls[0]) {
            1nat
        } else {
            0nat
        }) + blanks_in(ls.skip(1))
    }
}

/// How many of the lines are comments: non-blank, and starting with `//`
/// once leading whitespace is dropped.
pub open spec fn comments_in(ls: Seq<Seq<char>>) -> nat
    decreases ls.len(),
{
    if ls.len() == 0 {
        0
    } else {
        (if !is_blank_line(ls[0]) && is_comment_line(ls[0]) {
            1nat
        } else {
            0nat
        }) + comments_in(ls.skip(1))
    }
}

/// How many of the lines carry code: neither blank nor comment.
pub open spec fn loc_in(ls: Seq<Seq<char>>) -> nat
    decreases ls.len(),
{
    if ls.len() == 0 {
        0
    } else {
        (if !is_blank_line(ls[0]) && !is_comment_line(ls[0]) {
            1nat
        } else {
            0nat
        }) + loc_in(ls.skip(1))
    }
}

/// Splits a text into its lines.
fn split_lines(s: &str) -> (v: Vec<String>)
    ensures
        v.deep_view() == src_lines(s@),
    decreases s@.len(),
{
    proof {
        lemma_first_char_from(s@, '\n', 0);
    }
    let n = s.unicode_len();
    if n == 0 {
        let v: Vec<String> = Vec::new();
        assert(v.deep_view() =~= src_lines(s@));
        return v;
    }
    match find_char(s, '\n') {
        None => {
            let mut v: Vec<String> = Vec::new();
            v.push(s.to_owned());
            assert(v.deep_view() =~= src_lines(s@));
            v
        },
        Some(i) => {
            let piece = s.substring_char(0, i);
            let p_len = piece.unicode_len();
            let body: &str = if p_len > 0 && piece.get_char(p_len - 1) == '\r' {
                let b = piece.substring_char(0, p_len - 1);
                assert(b@ =~= line_body(s@.subrange(0, i as int)));
                b
            } else {
                piece
            };
            let rest = s.substring_char(i + 1, n);
            let ghost rest_lines = src_lines(rest@);
            let mut v = split_lines(rest);
            v.insert(0, body.to_owned());
            proof {
                assert(v.deep_view() =~= seq![line_body(s@.subrange(0, i as int))] + rest_lines);
            }
            v
        },
    }
}

/// Whether a line is a comment line.
fn is_comment_exec(line: &str) -> (r: bool)
    ensures
        r == is_comment_line(line@),
{
    proof {
        reveal_strlit("//");
    }
    let t = trim_start_exec(line);
    let t_len = t.as_str().unicode_len();
    if t_len < 2 {
        return false;
    }
    match_at_exec(t.as_str(), "//", 0)
}

/// Computes source metrics from a file's text: every line is blank, a
/// comment, or code.  The file count field carries the line count, refused
/// when it cannot be stored.
pub fn get_src_stats_for_file(file_contents: &str) -> (r: Result<SrcStats, StatsError>)
    ensures
        match r {
            Ok(st) => {
                &&& src_lines(file_contents@).len() <= u32::MAX
                &&& st.number_of_files == src_lines(file_contents@).len()
                &&& st.lines_of_code == loc_in(src_lines(file_contents@))
                &&& st.comments == comments_in(src_lines(file_contents@))
                &&& st.blanks == blanks_in(src_lines(file_contents@))
            },
            Err(e) => src_lines(file_contents@).len() > u32::MAX && e.warn@
                == "Number conversion error"@,
        },
{
    let ghost all = src_lines(file_contents@);
    let lines = split_lines(file_contents);
    let n = lines.len();
    if n as u64 > u32::MAX as u64 {
        proof {
            reveal_strlit("Number conversion error");
        }
        return Err(StatsError { warn: "Number conversion error".to_owned() });
    }
    let mut loc: usize = 0;
    let mut blanks: usize = 0;
    let mut comments: usize = 0;
    let mut i: usize = 0;
    proof {
        assert(all.skip(0) =~= all);
    }
    while i < n
        invariant
            i <= n,
            n == lines@.len(),
            lines.deep_view() == all,
            loc <= i,
            blanks <= i,
            comments <= i,
            blanks + blanks_in(all.skip(i as int)) == blanks_in(all),
            comments + comments_in(all.skip(i as int)) == comments_in(all),
            loc + loc_in(all.skip(i as int)) == loc_in(all),
        decreases n - i,
    {
        proof {
            assert(lines@[i as int]@ == all[i as int]);
            assert(all.skip(i as int)[0] == all[i as int]);
            assert(all.skip(i as int).skip(1) =~= all.skip(i + 1));
        }
        let line = &lines[i];
        if line.as_str().is_empty() {
            blanks += 1;
        } else if is_comment_exec(line.as_str()) {
            comments += 1;
        } else {
            loc += 1;
        }
        i += 1;
    }
    proof {
        assert(all.skip(n as int) =~= Seq::<Seq<char>>::empty());
    }
    Ok(
        SrcStats {
            number_of_files: n as u32,
            lines_of_code: loc as u32,
            comments: comments as u32,
            blanks: blanks as u32,
        },
    )
}

/// Computes binary metrics from a file's byte length: its weight is the
/// length in thousands of bytes, refused when it cannot be stored.
pub fn get_bin_stats_for_file(file_len: u64) -> (r: Result<BinStats, StatsError>)
    ensures
        match r {
            Ok(b) => file_len / 1000 <= u32::MAX && b.number_of_files == 0 && b.weight == file_len
                / 1000,
            Err(e) => file_len / 1000 > u32::MAX && e.warn@ == "Number conversion error"@,
        },
{
    let weight = file_len / 1000;
    if weight > u32::MAX as u64 {
        proof {
            reveal_strlit("Number conversion error");
        }
        return Err(StatsError { warn: "Number conversion error".to_owned() });
    }
    Ok(BinStats { number_of_files: 0, weight: weight as u32 })
}

} // verus!
