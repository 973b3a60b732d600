//! Word-count style tallies of a text: lines, whitespace-delimited words,
//! bytes and characters.

use vstd::prelude::*;
use vstd::string::StringSliceAdditionalSpecFns;
use crate::text::{split_ws, words_of};

verus! {

/// The tallies of one input: lines, words, bytes, characters.
#[derive(Debug, PartialEq, Clone)]
pub struct FileInfo {
    pub num_lines: usize,
    pub num_words: usize,
    pub num_bytes: usize,
    pub num_chars: usize,
}

impl FileInfo {
    /// Tallies of two inputs, combined field by field.
    pub fn add(self, rhs: FileInfo) -> (r: FileInfo)
        requires
            self.num_lines + rhs.num_lines <= usize::MAX,
            self.num_words + rhs.num_words <= usize::MAX,
            self.num_bytes + rhs.num_bytes <= usize::MAX,
            self.num_chars + rhs.num_chars <= usize::MAX,
        ensures
            r.num_lines == self.num_lines + rhs.num_lines,
            r.num_words == self.num_words + rhs.num_words,
            r.num_bytes == self.num_bytes + rhs.num_bytes,
            r.num_chars == self.num_chars + rhs.num_chars,
    {
        FileInfo {
            num_lines: self.num_lines + rhs.num_lines,
            num_words: self.num_words + rhs.num_words,
            num_bytes: self.num_bytes + rhs.num_bytes,
            num_chars: self.num_chars + rhs.num_chars,
        }
    }
}

/// How often the character `c` occurs in `s`.
pub open spec fn char_count(s: Seq<char>, c: char) -> nat
    decreases s.len(),
{
    if s.len() == 0 {
        0
    } else {
        char_count(s.drop_last(), c) + if s.last() == c {
            1nat
        } else {
            0nat
        }
    }
}

pub proof fn lemma_char_count_le(s: Seq<char>, c: char)
    ensures
        char_count(s, c) <= s.len(),
    decreases s.len(),
{
    if s.len() > 0 {
        lemma_char_count_le(s.drop_last(), c);
    }
}

/// How many lines a text holds, the way reading it line by line counts them:
/// one per newline, and one more for a final fragment without its newline.
pub open spec fn line_count(s: Seq<char>) -> nat {
    char_count(s, '\n') + if s.len() > 0 && s[s.len() - 1] != '\n' {
        1nat
    } else {
        0nat
    }
}

/// Tallies a text: its lines, its whitespace-delimited words, its bytes and
/// its characters.
pub fn count(text: &str) -> (r: FileInfo)
    ensures
        r.num_lines == line_count(text@),
        r.num_words == words_of(text@).len(),
        r.num_bytes == text.spec_bytes().len() as usize,
        r.num_chars == text@.len(),
{
    let num_bytes = text.len();
    let num_chars = text.unicode_len();
    let words = split_ws(text);
    let num_words = words.len();
    let n = num_chars;
    let mut newlines: usize = 0;
    let mut i: usize = 0;
    proof {
        assert(text@.subrange(0, 0) =~= Seq::<char>::empty());
    }
    while i < n
        invariant
            i <= n,
            n == text@.len(),
            newlines <= i,
            newlines == char_count(text@.subrange(0, i as int), '\n'),
        decreases n - i,
    {
        let c = text.get_char(i);
        proof {
            assert(text@.subrange(0, i + 1).drop_last() =~= text@.subrange(0, i as int));
            assert(text@.subrange(0, i + 1).last() == text@[i as int]);
        }
        if c == '\n' {
            newlines += 1;
        }
        i += 1;
    }
    proof {
        assert(text@.subrange(0, n as int) =~= text@);
    }
    let num_lines = if n > 0 && text.get_char(n - 1) != '\n' {
        proof {
            assert(text@.drop_last() =~= text@.subrange(0, n - 1));
            lemma_char_count_le(text@.drop_last(), '\n');
        }
        newlines + 1
    } else {
        newlines
    };
    proof {
        assert(words.deep_view().len() == words@.len());
    }
    FileInfo { num_lines, num_words, num_bytes, num_chars }
}


/// The display flags a run uses: when none of the four is asked for, lines,
/// words and bytes are shown; otherwise the flags stand as given.
pub fn logic_arg(lines: bool, words: bool, chars: bool, bytes: bool) -> (r: (bool, bool, bool, bool))
    ensures
        r == if !(lines || words || chars || bytes) {
            (true, true, false, true)
        } else {
            (lines, words, chars, bytes)
        },
{
    if !(lines || words || chars || bytes) {
        (true, true, false, true)
    } else {
        (lines, words, chars, bytes)
    }
}

} // verus!
