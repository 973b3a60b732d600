//! Character-sequence utilities: substring search, counting, replacement,
//! whitespace splitting and trimming, with specification-level models over
//! `Seq<char>` and executable counterparts proved against them.

use vstd::prelude::*;

verus! {

// ---------------------------------------------------------------------------
// Whitespace
// ---------------------------------------------------------------------------

/// The characters with the Unicode `White_Space` property, the set that
/// `str::trim` and `str::split_whitespace` go by.
pub open spec fn is_space(c: char) -> bool {
    c == ' ' || c == '\t' || c == '\n' || c == '\r' || c == '\u{b}' || c == '\u{c}'
        || c == '\u{85}' || c == '\u{a0}' || c == '\u{1680}'
        || ('\u{2000}' <= c && c <= '\u{200a}')
        || c == '\u{2028}' || c == '\u{2029}' || c == '\u{202f}' || c == '\u{205f}'
        || c == '\u{3000}'
}

pub fn is_space_char(c: char) -> (b: bool)
    ensures
        b == is_space(c),
{
    c == ' ' || c == '\t' || c == '\n' || c == '\r' || c == '\u{b}' || c == '\u{c}'
        || c == '\u{85}' || c == '\u{a0}' || c == '\u{1680}'
        || ('\u{2000}' <= c && c <= '\u{200a}')
        || c == '\u{2028}' || c == '\u{2029}' || c == '\u{202f}' || c == '\u{205f}'
        || c == '\u{3000}'
}

// ---------------------------------------------------------------------------
// Substring search
// ---------------------------------------------------------------------------

/// The pattern `p` occurs in `s` starting at position `i`.
pub open spec fn match_at(s: Seq<char>, p: Seq<char>, i: int) -> bool {
    0 <= i && i + p.len() <= s.len() && s.subrange(i, i + p.len() as int) == p
}

/// The pattern `p` occurs somewhere in `s`.
pub open spec fn contains_sub(s: Seq<char>, p: Seq<char>) -> bool {
    exists|i: int| match_at(s, p, i)
}

/// The position of the first occurrence of `p` in `s` at or after `from`.
pub open spec fn first_match_from(s: Seq<char>, p: Seq<char>, from: int) -> Option<int>
    decreases s.len() - from,
{
    if from < 0 || from + p.len() > s.len() {
        None
    } else if p.len() == 0 {
        Some(from)
    } else if s.subrange(from, from + p.len() as int) == p {
        Some(from)
    } else {
        first_match_from(s, p, from + 1)
    }
}

/// The position of the leftmost occurrence of `p` in `s`.
pub open spec fn first_match(s: Seq<char>, p: Seq<char>) -> Option<int> {
    first_match_from(s, p, 0)
}

/// What `first_match_from` finds is the leftmost occurrence at or after `from`.
pub proof fn lemma_first_match_from(s: Seq<char>, p: Seq<char>, from: int)
    requires
        0 <= from,
    ensures
        match first_match_from(s, p, from) {
            Some(i) => from <= i && match_at(s, p, i) && forall|j: int|
                from <= j < i ==> !match_at(s, p, j),
            None => forall|j: int| from <= j ==> !match_at(s, p, j),
        },
    decreases s.len() - from,
{
    if from + p.len() > s.len() {
        assert(forall|j: int| from <= j ==> !match_at(s, p, j));
    } else if p.len() == 0 {
        assert(s.subrange(from, from + p.len() as int) =~= p);
    } else if s.subrange(from, from + p.len() as int) == p {
    } else {
        lemma_first_match_from(s, p, from + 1);
        assert(!match_at(s, p, from));
    }
}

/// `contains_sub` holds exactly when `first_match` finds a position.
pub proof fn lemma_contains_first_match(s: Seq<char>, p: Seq<char>)
    ensures
        contains_sub(s, p) <==> first_match(s, p) is Some,
{
    lemma_first_match_from(s, p, 0);
    if contains_sub(s, p) {
        let i = choose|i: int| match_at(s, p, i);
        if first_match(s, p) is None {
            assert(!match_at(s, p, i));
        }
    }
}

/// Whether `p` occurs at exactly position `i`, decided by comparing characters.
pub fn match_at_exec(s: &str, p: &str, i: usize) -> (b: bool)
    requires
        i + p@.len() <= s@.len(),
        s@.len() <= usize::MAX,
    ensures
        b == match_at(s@, p@, i as int),
{
    let p_len = p.unicode_len();
    let mut j: usize = 0;
    while j < p_len
        invariant
            0 <= j <= p_len,
            p_len == p@.len(),
            i + p@.len() <= s@.len(),
            s@.len() <= usize::MAX,
            forall|k: int| 0 <= k < j ==> s@[i + k] == p@[k],
        decreases p_len - j,
    {
        if s.get_char(i + j) != p.get_char(j) {
            assert(s@.subrange(i as int, i + p@.len()) != p@) by {
                assert(s@.subrange(i as int, i + p@.len())[j as int] != p@[j as int]);
            }
            return false;
        }
        j += 1;
    }
    assert(s@.subrange(i as int, i + p@.len()) =~= p@);
    true
}

/// The leftmost occurrence of `p` in `s` at or after `from`.
pub fn find_sub_from(s: &str, p: &str, from: usize) -> (r: Option<usize>)
    ensures
        match r {
            Some(u) => first_match_from(s@, p@, from as int) == Some(u as int),
            None => first_match_from(s@, p@, from as int) is None,
        },
{
    let s_len = s.unicode_len();
    let p_len = p.unicode_len();
    if from > s_len || p_len > s_len - from {
        return None;
    }
    if p_len == 0 {
        assert(s@.subrange(from as int, from as int) =~= p@);
        return Some(from);
    }
    let bound = s_len - p_len;
    let mut i: usize = from;
    while i <= bound
        invariant
            from <= i,
            i <= bound + 1,
            bound == s_len - p_len,
            p_len >= 1,
            p_len <= s_len,
            s_len == s@.len(),
            p_len == p@.len(),
            first_match_from(s@, p@, from as int) == first_match_from(s@, p@, i as int),
        decreases bound + 1 - i,
    {
        if match_at_exec(s, p, i) {
            return Some(i);
        }
        i += 1;
    }
    None
}

/// The leftmost occurrence of `p` in `s`.
pub fn find_sub(s: &str, p: &str) -> (r: Option<usize>)
    ensures
        match r {
            Some(u) => first_match(s@, p@) == Some(u as int),
            None => first_match(s@, p@) is None,
        },
{
    find_sub_from(s, p, 0)
}

/// Whether `p` occurs anywhere in `s`.
pub fn contains_sub_exec(s: &str, p: &str) -> (b: bool)
    ensures
        b == contains_sub(s@, p@),
{
    proof {
        lemma_contains_first_match(s@, p@);
    }
    find_sub(s, p).is_some()
}

// ---------------------------------------------------------------------------
// Counting occurrences
// ---------------------------------------------------------------------------

/// How many times `p` occurs in `s`, counting leftmost non-overlapping
/// occurrences, the way `str::matches` walks a string.
pub open spec fn count_matches(s: Seq<char>, p: Seq<char>) -> nat
    decreases s.len(),
{
    if p.len() == 0 || s.len() < p.len() {
        0
    } else if s.subrange(0, p.len() as int) == p {
        1 + count_matches(s.skip(p.len() as int), p)
    } else {
        count_matches(s.skip(1), p)
    }
}

/// A string holds no occurrence of `p` exactly when the count is zero.
pub proof fn lemma_count_matches_zero(s: Seq<char>, p: Seq<char>)
    requires
        p.len() >= 1,
    ensures
        (count_matches(s, p) == 0) <==> !contains_sub(s, p),
    decreases s.len(),
{
    if s.len() < p.len() {
        assert(forall|i: int| !match_at(s, p, i));
    } else if s.subrange(0, p.len() as int) == p {
        assert(match_at(s, p, 0));
    } else {
        lemma_count_matches_zero(s.skip(1), p);
        assert(!match_at(s, p, 0));
        if contains_sub(s, p) {
            let i = choose|i: int| match_at(s, p, i);
            assert(i >= 1);
            assert(s.skip(1).subrange(i - 1, i - 1 + p.len()) =~= s.subrange(i, i + p.len()));
            assert(match_at(s.skip(1), p, i - 1));
        }
        if contains_sub(s.skip(1), p) {
            let i = choose|i: int| match_at(s.skip(1), p, i);
            assert(s.subrange(i + 1, i + 1 + p.len()) =~= s.skip(1).subrange(i, i + p.len()));
            assert(match_at(s, p, i + 1));
        }
    }
}

/// Counts the leftmost non-overlapping occurrences of `p` in `s`.
pub fn count_sub(s: &str, p: &str) -> (n: usize)
    requires
        p@.len() >= 1,
    ensures
        n == count_matches(s@, p@),
{
    let s_len = s.unicode_len();
    let p_len = p.unicode_len();
    if p_len > s_len {
        return 0;
    }
    let bound = s_len - p_len;
    let mut i: usize = 0;
    let mut n: usize = 0;
    proof {
        assert(s@.skip(0) =~= s@);
    }
    while i <= bound
        invariant
            i <= s_len,
            n <= i,
            bound == s_len - p_len,
            1 <= p_len <= s_len,
            s_len == s@.len(),
            p_len == p@.len(),
            n + count_matches(s@.skip(i as int), p@) == count_matches(s@, p@),
        decreases s_len - i,
    {
        if match_at_exec(s, p, i) {
            proof {
                assert(s@.skip(i as int).subrange(0, p@.len() as int) =~= s@.subrange(
                    i as int,
                    i + p@.len(),
                ));
                assert(s@.skip(i as int).skip(p@.len() as int) =~= s@.skip(i + p@.len()));
            }
            n += 1;
            i += p_len;
        } else {
            proof {
                assert(s@.skip(i as int).subrange(0, p@.len() as int) =~= s@.subrange(
                    i as int,
                    i + p@.len(),
                ));
                assert(s@.skip(i as int).skip(1) =~= s@.skip(i + 1));
            }
            i += 1;
        }
    }
    proof {
        assert(s@.skip(i as int).len() < p@.len());
    }
    n
}

// ---------------------------------------------------------------------------
// Suffix test
// ---------------------------------------------------------------------------

/// `s` ends with the suffix `p`.
pub open spec fn ends_with(s: Seq<char>, p: Seq<char>) -> bool {
    p.len() <= s.len() && s.subrange(s.len() - p.len(), s.len() as int) == p
}

/// Whether `s` ends with the suffix `p`.
pub fn ends_with_exec(s: &str, p: &str) -> (b: bool)
    ensures
        b == ends_with(s@, p@),
{
    let s_len = s.unicode_len();
    let p_len = p.unicode_len();
    if p_len > s_len {
        return false;
    }
    match_at_exec(s, p, s_len - p_len)
}

// ---------------------------------------------------------------------------
// Trimming
// ---------------------------------------------------------------------------

/// `s` with leading and trailing whitespace removed.
pub open spec fn trimmed(s: Seq<char>) -> Seq<char>
    decreases s.len(),
{
    if s.len() == 0 {
        s
    } else if is_space(s[0]) {
        trimmed(s.skip(1))
    } else if is_space(s[s.len() - 1]) {
        trimmed(s.take(s.len() - 1))
    } else {
        s
    }
}

/// Trimming never lengthens a string.
pub proof fn lemma_trimmed_len(s: Seq<char>)
    ensures
        trimmed(s).len() <= s.len(),
    decreases s.len(),
{
    if s.len() == 0 {
    } else if is_space(s[0]) {
        lemma_trimmed_len(s.skip(1));
    } else if is_space(s[s.len() - 1]) {
        lemma_trimmed_len(s.take(s.len() - 1));
    }
}

/// Removes leading and trailing whitespace.
pub fn trim_exec(s: &str) -> (r: String)
    ensures
        r@ == trimmed(s@),
    decreases s@.len(),
{
    let n = s.unicode_len();
    if n == 0 {
        return s.to_owned();
    }
    if is_space_char(s.get_char(0)) {
        let rest = s.substring_char(1, n);
        trim_exec(rest)
    } else if is_space_char(s.get_char(n - 1)) {
        let rest = s.substring_char(0, n - 1);
        assert(rest@ =~= s@.take(s@.len() - 1));
        trim_exec(rest)
    } else {
        s.to_owned()
    }
}

// ---------------------------------------------------------------------------
// Replacement
// ---------------------------------------------------------------------------

/// `s` with every leftmost non-overlapping occurrence of `from` replaced by
/// `to`, the way `str::replace` rewrites a string.
pub open spec fn replaced(s: Seq<char>, from: Seq<char>, to: Seq<char>) -> Seq<char>
    decreases s.len(),
{
    if from.len() == 0 || s.len() < from.len() {
        s
    } else if s.subrange(0, from.len() as int) == from {
        to + replaced(s.skip(from.len() as int), from, to)
    } else {
        s.subrange(0, 1) + replaced(s.skip(1), from, to)
    }
}

/// Replaces every leftmost non-overlapping occurrence of `from` by `to`.
pub fn replace_sub(s: &str, from: &str, to: &str) -> (r: String)
    requires
        from@.len() >= 1,
    ensures
        r@ == replaced(s@, from@, to@),
{
    let s_len = s.unicode_len();
    let f_len = from.unicode_len();
    if f_len > s_len {
        return s.to_owned();
    }
    let bound = s_len - f_len;
    let mut out = String::new();
    let mut i: usize = 0;
    proof {
        assert(s@.skip(0) =~= s@);
        assert(Seq::<char>::empty() + replaced(s@, from@, to@) =~= replaced(s@, from@, to@));
    }
    while i <= bound
        invariant
            i <= s_len,
            bound == s_len - f_len,
            1 <= f_len <= s_len,
            s_len == s@.len(),
            f_len == from@.len(),
            out@ + replaced(s@.skip(i as int), from@, to@) == replaced(s@, from@, to@),
        decreases s_len - i,
    {
        if match_at_exec(s, from, i) {
            proof {
                assert(s@.skip(i as int).subrange(0, from@.len() as int) =~= s@.subrange(
                    i as int,
                    i + from@.len(),
                ));
                assert(s@.skip(i as int).skip(from@.len() as int) =~= s@.skip(i + from@.len()));
            }
            let ghost prev = out@;
            out.append(to);
            proof {
                assert(out@ + replaced(s@.skip(i + f_len), from@, to@) =~= prev + replaced(
                    s@.skip(i as int),
                    from@,
                    to@,
                ));
            }
            i += f_len;
        } else {
            proof {
                assert(s@.skip(i as int).subrange(0, from@.len() as int) =~= s@.subrange(
                    i as int,
                    i + from@.len(),
                ));
                assert(s@.skip(i as int).skip(1) =~= s@.skip(i + 1));
                assert(s@.skip(i as int).subrange(0, 1) =~= s@.subrange(i as int, i + 1));
            }
            let ghost prev = out@;
            let piece = s.substring_char(i, i + 1);
            out.append(piece);
            proof {
                assert(out@ + replaced(s@.skip(i + 1), from@, to@) =~= prev + replaced(
                    s@.skip(i as int),
                    from@,
                    to@,
                ));
            }
            i += 1;
        }
    }
    proof {
        assert(s@.skip(i as int).len() < from@.len());
    }
    let tail = s.substring_char(i, s_len);
    let ghost prev = out@;
    out.append(tail);
    proof {
        assert(s@.subrange(i as int, s_len as int) =~= s@.skip(i as int));
        assert(prev + s@.skip(i as int) =~= out@);
    }
    out
}

// ---------------------------------------------------------------------------
// Whitespace splitting
// ---------------------------------------------------------------------------

/// The whitespace-delimited words of `s`, given that the word `cur` is
/// already open to the left of `s`.
pub open spec fn words_acc(s: Seq<char>, cur: Seq<char>) -> Seq<Seq<char>>
    decreases s.len(),
{
    if s.len() == 0 {
        if cur.len() == 0 {
            Seq::empty()
        } else {
            seq![cur]
        }
    } else if is_space(s[0]) {
        if cur.len() == 0 {
            words_acc(s.skip(1), Seq::empty())
        } else {
            seq![cur] + words_acc(s.skip(1), Seq::empty())
        }
    } else {
        words_acc(s.skip(1), cur.push(s[0]))
    }
}

/// The whitespace-delimited words of `s`, the way `str::split_whitespace`
/// yields them: maximal runs of non-whitespace characters, in order.
pub open spec fn words_of(s: Seq<char>) -> Seq<Seq<char>> {
    words_acc(s, Seq::empty())
}

/// Splits `s` into its whitespace-delimited words.
pub fn split_ws(s: &str) -> (v: Vec<String>)
    ensures
        v.deep_view() == words_of(s@),
{
    let n = s.unicode_len();
    let mut out: Vec<String> = Vec::new();
    let mut cur = String::new();
    let mut i: usize = 0;
    proof {
        assert(s@.skip(0) =~= s@);
        assert(out.deep_view() =~= Seq::<Seq<char>>::empty());
        assert(Seq::<Seq<char>>::empty() + words_acc(s@, cur@) =~= words_acc(s@, cur@));
    }
    while i < n
        invariant
            i <= n,
            n == s@.len(),
            cur@.len() <= i,
            out.deep_view() + words_acc(s@.skip(i as int), cur@) == words_of(s@),
        decreases n - i,
    {
        let c = s.get_char(i);
        proof {
            assert(s@.skip(i as int)[0] == s@[i as int]);
            assert(s@.skip(i as int).skip(1) =~= s@.skip(i + 1));
        }
        if is_space_char(c) {
            if cur.unicode_len() > 0 {
                let ghost prev_out = out.deep_view();
                let ghost prev_cur = cur@;
                out.push(cur);
                cur = String::new();
                proof {
                    assert(out.deep_view() =~= prev_out.push(prev_cur));
                    assert(words_acc(s@.skip(i as int), prev_cur) == seq![prev_cur] + words_acc(
                        s@.skip(i + 1),
                        Seq::<char>::empty(),
                    ));
                    assert(out.deep_view() + words_acc(s@.skip(i + 1), cur@) =~= prev_out + (seq![
                        prev_cur,
                    ] + words_acc(s@.skip(i + 1), Seq::<char>::empty())));
                }
            } else {
                proof {
                    assert(cur@ =~= Seq::<char>::empty());
                    assert(words_acc(s@.skip(i as int), cur@) == words_acc(
                        s@.skip(i + 1),
                        Seq::<char>::empty(),
                    ));
                }
            }
        } else {
            let ghost prev_cur = cur@;
            let piece = s.substring_char(i, i + 1);
            cur.append(piece);
            proof {
                assert(s@.subrange(i as int, i + 1) =~= seq![s@[i as int]]);
                assert(cur@ =~= prev_cur.push(s@[i as int]));
                assert(words_acc(s@.skip(i as int), prev_cur) == words_acc(
                    s@.skip(i + 1),
                    cur@,
                ));
            }
        }
        i += 1;
    }
    if cur.unicode_len() > 0 {
        let ghost prev_out = out.deep_view();
        let ghost prev_cur = cur@;
        out.push(cur);
        proof {
            assert(out.deep_view() =~= prev_out.push(prev_cur));
            assert(prev_out.push(prev_cur) =~= prev_out + seq![prev_cur]);
        }
    } else {
        proof {
            assert(out.deep_view() + words_acc(s@.skip(i as int), cur@) =~= out.deep_view());
        }
    }
    out
}

// ---------------------------------------------------------------------------
// Splitting on a separator
// ---------------------------------------------------------------------------

/// The pieces of `s` between occurrences of the separator `sep`, the way
/// `str::split` yields them: an empty `s` gives one empty piece, a trailing
/// separator a trailing empty piece.
pub open spec fn split_by(s: Seq<char>, sep: Seq<char>) -> Seq<Seq<char>>
    decreases s.len(),
    via split_by_decreases
{
    if sep.len() == 0 {
        seq![s]
    } else {
        match first_match(s, sep) {
            Some(i) => seq![s.subrange(0, i)] + split_by(s.skip(i + sep.len() as int), sep),
            None => seq![s],
        }
    }
}

#[via_fn]
proof fn split_by_decreases(s: Seq<char>, sep: Seq<char>) {
    if sep.len() > 0 {
        lemma_first_match_from(s, sep, 0);
    }
}

/// Splits `s` on every occurrence of `sep`.
pub fn split_by_exec(s: &str, sep: &str) -> (v: Vec<String>)
    requires
        sep@.len() >= 1,
    ensures
        v.deep_view() == split_by(s@, sep@),
    decreases s@.len(),
{
    proof {
        lemma_first_match_from(s@, sep@, 0);
    }
    match find_sub(s, sep) {
        None => {
            let mut v: Vec<String> = Vec::new();
            v.push(s.to_owned());
            assert(v.deep_view() =~= split_by(s@, sep@));
            v
        },
        Some(i) => {
            let s_len = s.unicode_len();
            let sep_len = sep.unicode_len();
            let head = s.substring_char(0, i).to_owned();
            let rest = s.substring_char(i + sep_len, s_len);
            let ghost rest_pieces = split_by(rest@, sep@);
            let mut v = split_by_exec(rest, sep);
            v.insert(0, head);
            proof {
                assert(v.deep_view() =~= seq![s@.subrange(0, i as int)] + rest_pieces);
            }
            v
        },
    }
}

// ---------------------------------------------------------------------------
// Single characters
// ---------------------------------------------------------------------------

/// The position of the first occurrence of the character `c` at or after
/// `from`.
pub open spec fn first_char_from(s: Seq<char>, c: char, from: int) -> Option<int>
    decreases s.len() - from,
{
    if from < 0 || from >= s.len() {
        None
    } else if s[from] == c {
        Some(from)
    } else {
        first_char_from(s, c, from + 1)
    }
}

/// The position of the leftmost occurrence of the character `c`.
pub open spec fn first_char(s: Seq<char>, c: char) -> Option<int> {
    first_char_from(s, c, 0)
}

/// What `first_char_from` finds is the leftmost occurrence at or after `from`.
pub proof fn lemma_first_char_from(s: Seq<char>, c: char, from: int)
    requires
        0 <= from,
    ensures
        match first_char_from(s, c, from) {
            Some(i) => from <= i < s.len() && s[i] == c && forall|j: int|
                from <= j < i ==> s[j] != c,
            None => forall|j: int| from <= j < s.len() ==> s[j] != c,
        },
    decreases s.len() - from,
{
    if from >= s.len() {
    } else if s[from] == c {
    } else {
        lemma_first_char_from(s, c, from + 1);
    }
}

/// Finds the leftmost occurrence of the character `c` in `s`.
pub fn find_char(s: &str, c: char) -> (r: Option<usize>)
    ensures
        match r {
            Some(u) => first_char(s@, c) == Some(u as int),
            None => first_char(s@, c) is None,
        },
{
    let n = s.unicode_len();
    let mut i: usize = 0;
    while i < n
        invariant
            i <= n,
            n == s@.len(),
            first_char(s@, c) == first_char_from(s@, c, i as int),
        decreases n - i,
    {
        if s.get_char(i) == c {
            return Some(i);
        }
        i += 1;
    }
    None
}

// ---------------------------------------------------------------------------
// String equality
// ---------------------------------------------------------------------------

/// Whether two string slices hold the same characters.
pub fn str_eq(a: &str, b: &str) -> (r: bool)
    ensures
        r == (a@ == b@),
{
    let n = a.unicode_len();
    if n != b.unicode_len() {
        return false;
    }
    let mut i: usize = 0;
    while i < n
        invariant
            i <= n,
            n == a@.len(),
            n == b@.len(),
            forall|k: int| 0 <= k < i ==> a@[k] == b@[k],
        decreases n - i,
    {
        if a.get_char(i) != b.get_char(i) {
            return false;
        }
        i += 1;
    }
    assert(a@ =~= b@);
    true
}

/// `s` with trailing whitespace removed.
pub open spec fn trimmed_end(s: Seq<char>) -> Seq<char>
    decreases s.len(),
{
    if s.len() == 0 {
        s
    } else if is_space(s.last()) {
        trimmed_end(s.drop_last())
    } else {
        s
    }
}

/// Removes trailing whitespace.
pub fn trim_end_exec(s: &str) -> (r: String)
    ensures
        r@ == trimmed_end(s@),
    decreases s@.len(),
{
    let n = s.unicode_len();
    if n == 0 {
        return s.to_owned();
    }
    if is_space_char(s.get_char(n - 1)) {
        let rest = s.substring_char(0, n - 1);
        assert(rest@ =~= s@.drop_last());
        trim_end_exec(rest)
    } else {
        s.to_owned()
    }
}

/// `s` with leading whitespace removed.
pub open spec fn trimmed_start(s: Seq<char>) -> Seq<char>
    decreases s.len(),
{
    if s.len() == 0 {
        s
    } else if is_space(s[0]) {
        trimmed_start(s.skip(1))
    } else {
        s
    }
}

/// Removes leading whitespace.
pub fn trim_start_exec(s: &str) -> (r: String)
    ensures
        r@ == trimmed_start(s@),
    decreases s@.len(),
{
    let n = s.unicode_len();
    if n == 0 {
        return s.to_owned();
    }
    if is_space_char(s.get_char(0)) {
        let rest = s.substring_char(1, n);
        trim_start_exec(rest)
    } else {
        s.to_owned()
    }
}

/// `p` is a prefix of `s`.
pub open spec fn is_prefix_of(p: Seq<char>, s: Seq<char>) -> bool {
    p.len() <= s.len() && s.subrange(0, p.len() as int) == p
}

// ---------------------------------------------------------------------------
// Case folding
// ---------------------------------------------------------------------------

/// A character with its ASCII uppercase letter folded to lowercase.
pub open spec fn lower_char(c: char) -> char {
    match c {
        'A' => 'a',
        'B' => 'b',
        'C' => 'c',
        'D' => 'd',
        'E' => 'e',
        'F' => 'f',
        'G' => 'g',
        'H' => 'h',
        'I' => 'i',
        'J' => 'j',
        'K' => 'k',
        'L' => 'l',
        'M' => 'm',
        'N' => 'n',
        'O' => 'o',
        'P' => 'p',
        'Q' => 'q',
        'R' => 'r',
        'S' => 's',
        'T' => 't',
        'U' => 'u',
        'V' => 'v',
        'W' => 'w',
        'X' => 'x',
        'Y' => 'y',
        'Z' => 'z',
        _ => c,
    }
}

/// A text with every ASCII uppercase letter folded to lowercase.
pub open spec fn lower(s: Seq<char>) -> Seq<char> {
    Seq::new(s.len(), |i: int| lower_char(s[i]))
}

/// Folds ASCII uppercase letters to lowercase.
pub fn to_lower(s: &str) -> (r: String)
    ensures
        r@ == lower(s@),
{
    let n = s.unicode_len();
    let mut out: Vec<char> = Vec::new();
    let mut i: usize = 0;
    while i < n
        invariant
            i <= n,
            n == s@.len(),
            out@.len() == i,
            forall|k: int| 0 <= k < i ==> out@[k] == lower_char(s@[k]),
        decreases n - i,
    {
        let c = s.get_char(i);
        let l: char = match c {
        'A' => 'a',
        'B' => 'b',
        'C' => 'c',
        'D' => 'd',
        'E' => 'e',
        'F' => 'f',
        'G' => 'g',
        'H' => 'h',
        'I' => 'i',
        'J' => 'j',
        'K' => 'k',
        'L' => 'l',
        'M' => 'm',
        'N' => 'n',
        'O' => 'o',
        'P' => 'p',
        'Q' => 'q',
        'R' => 'r',
        'S' => 's',
        'T' => 't',
        'U' => 'u',
        'V' => 'v',
        'W' => 'w',
        'X' => 'x',
        'Y' => 'y',
        'Z' => 'z',
            _ => c,
        };
        out.push(l);
        i += 1;
    }
    let r = chars_to_string(&out);
    proof {
        assert(r@ =~= lower(s@));
    }
    r
}

/// Relies on String's FromIterator over characters: collecting characters
/// builds the string holding exactly those characters in order.
#[verifier::external_body]
fn chars_to_string(v: &Vec<char>) -> (r: String)
    ensures
        r@ == v@,
{
    v.iter().collect()
}

} // verus!
