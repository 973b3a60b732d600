//! Uniq-style grouping: consecutive lines that agree after trailing
//! whitespace is dropped collapse into one, optionally prefixed by how often
//! they ran.

use vstd::prelude::*;
use crate::digits::{dec_str, u64_to_string};
use crate::text::{str_eq, trim_end_exec, trimmed_end};

verus! {

/// A count right-aligned in four columns, the way `{:>4}` prints it.
pub open spec fn padded_count(n: int) -> Seq<char> {
    let d = dec_str(n);
    if d.len() == 1 {
        "   "@ + d
    } else if d.len() == 2 {
        "  "@ + d
    } else if d.len() == 3 {
        " "@ + d
    } else {
        d
    }
}

/// One emitted group: the line that opened it, prefixed by its padded count
/// when counts are shown.
pub open spec fn emitted(line: Seq<char>, cnt: int, show_count: bool) -> Seq<char> {
    if show_count {
        padded_count(cnt) + " "@ + line
    } else {
        line
    }
}

/// The grouping walk: each line is held back while its successors agree with
/// it up to trailing whitespace, and emitted when a differing line arrives.
/// The last held line is emitted only if the end of input differs from it, so
/// a final group that trims to nothing is swallowed.
pub open spec fn uniq_walk(
    lines: Seq<Seq<char>>,
    prev: Option<Seq<char>>,
    cnt: int,
    show_count: bool,
) -> Seq<Seq<char>>
    decreases lines.len(),
{
    if lines.len() == 0 {
        Seq::<Seq<char>>::empty()
    } else {
        let held = match prev {
            None => Seq::<char>::empty(),
            Some(p) => p,
        };
        if trimmed_end(held) == trimmed_end(lines[0]) {
            uniq_walk(lines.skip(1), prev, cnt + 1, show_count)
        } else {
            (match prev {
                None => Seq::<Seq<char>>::empty(),
                Some(p) => seq![emitted(p, cnt, show_count)],
            }) + uniq_walk(lines.skip(1), Some(lines[0]), 1, show_count)
        }
    }
}

/// What grouping a whole input yields: the lines are walked as they were
/// read, with one empty end-of-input line after them, which flushes the last
/// group or swallows it when the group trims to nothing.
pub open spec fn uniq_spec(lines: Seq<Seq<char>>, show_count: bool) -> Seq<Seq<char>> {
    uniq_walk(lines + seq![Seq::<char>::empty()], None, 1, show_count)
}

/// Builds one emitted group.
fn emit(line: &str, cnt: u64, show_count: bool) -> (r: String)
    ensures
        r@ == emitted(line@, cnt as int, show_count),
{
    if show_count {
        proof {
            reveal_strlit("   ");
            reveal_strlit("  ");
            reveal_strlit(" ");
        }
        let d = u64_to_string(cnt);
        let len = d.as_str().unicode_len();
        let mut out: String = if len == 1 {
            "   ".to_owned()
        } else if len == 2 {
            "  ".to_owned()
        } else if len == 3 {
            " ".to_owned()
        } else {
            String::new()
        };
        out.append(d.as_str());
        out.append(" ");
        out.append(line);
        proof {
            if dec_str(cnt as int).len() >= 4 {
                assert(out@ =~= emitted(line@, cnt as int, show_count));
            }
        }
        out
    } else {
        line.to_owned()
    }
}

/// Groups consecutive lines that agree up to trailing whitespace, each group
/// emitted once, counted when asked.  Lines carry their endings as read; the
/// walk ends on one empty end-of-input line, the way a streaming reader sees
/// the end of its input.
pub fn uniq(lines: &Vec<String>, show_count: bool) -> (out: Vec<String>)
    requires
        lines@.len() < u64::MAX,
    ensures
        out.deep_view() == uniq_spec(lines.deep_view(), show_count),
{
    let ghost all = lines.deep_view() + seq![Seq::<char>::empty()];
    let n = lines.len();
    let mut out: Vec<String> = Vec::new();
    let mut prev: Option<String> = None;
    let mut cnt: u64 = 1;
    let mut i: usize = 0;
    proof {
        assert(all.skip(0) =~= all);
        assert(out.deep_view() + uniq_walk(all, None, 1, show_count) =~= uniq_walk(
            all,
            None,
            1,
            show_count,
        ));
    }
    while i < n
        invariant
            i <= n,
            n == lines@.len(),
            lines@.len() < u64::MAX,
            all == lines.deep_view() + seq![Seq::<char>::empty()],
            all.len() == n + 1,
            cnt <= i + 1,
            out.deep_view() + uniq_walk(
                all.skip(i as int),
                match prev {
                    None => None,
                    Some(p) => Some(p@),
                },
                cnt as int,
                show_count,
            ) == uniq_spec(lines.deep_view(), show_count),
        decreases n - i,
    {
        proof {
            assert(lines@[i as int]@ == lines.deep_view()[i as int]);
            assert(all.skip(i as int)[0] == all[i as int]);
            assert(all[i as int] == lines.deep_view()[i as int]);
            assert(all.skip(i as int).skip(1) =~= all.skip(i + 1));
        }
        let line = &lines[i];
        let held_trimmed = match &prev {
            None => String::new(),
            Some(p) => trim_end_exec(p.as_str()),
        };
        let line_trimmed = trim_end_exec(line.as_str());
        if str_eq(held_trimmed.as_str(), line_trimmed.as_str()) {
            cnt = cnt + 1;
        } else {
            let ghost before = out.deep_view();
            match &prev {
                None => {},
                Some(p) => {
                    let e = emit(p.as_str(), cnt, show_count);
                    out.push(e);
                    proof {
                        assert(out.deep_view() =~= before.push(
                            emitted(prev->Some_0@, cnt as int, show_count),
                        ));
                        assert(before.push(emitted(prev->Some_0@, cnt as int, show_count))
                            =~= before + seq![emitted(prev->Some_0@, cnt as int, show_count)]);
                    }
                },
            }
            cnt = 1;
            prev = Some(line.clone());
        }
        i += 1;
    }
    proof {
        assert(all.skip(n as int) =~= seq![Seq::<char>::empty()]);
        assert(all.skip(n as int).skip(1) =~= Seq::<Seq<char>>::empty());
        assert(all.skip(n as int)[0] =~= Seq::<char>::empty());
    }
    let held_trimmed = match &prev {
        None => String::new(),
        Some(p) => trim_end_exec(p.as_str()),
    };
    if !held_trimmed.as_str().is_empty() {
        proof {
            assert(trimmed_end(Seq::<char>::empty()) =~= Seq::<char>::empty());
        }
        match &prev {
            None => {
                proof {
                    assert(false);
                }
            },
            Some(p) => {
                let ghost before = out.deep_view();
                let e = emit(p.as_str(), cnt, show_count);
                out.push(e);
                proof {
                    assert(out.deep_view() =~= before.push(
                        emitted(prev->Some_0@, cnt as int, show_count),
                    ));
                    assert(before.push(emitted(prev->Some_0@, cnt as int, show_count)) =~= before
                        + seq![emitted(prev->Some_0@, cnt as int, show_count)]);
                    assert(seq![emitted(prev->Some_0@, cnt as int, show_count)]
                        + Seq::<Seq<char>>::empty() =~= seq![
                        emitted(prev->Some_0@, cnt as int, show_count),
                    ]);
                    assert(uniq_walk(
                        Seq::<Seq<char>>::empty(),
                        Some(Seq::<char>::empty()),
                        1,
                        show_count,
                    ) =~= Seq::<Seq<char>>::empty());
                    assert(out.deep_view() == uniq_spec(lines.deep_view(), show_count));
                }
            },
        }
    } else {
        proof {
            assert(trimmed_end(Seq::<char>::empty()) =~= Seq::<char>::empty());
            assert(held_trimmed@ =~= Seq::<char>::empty());
            match prev {
                None => {},
                Some(p) => {
                    assert(trimmed_end(p@) == Seq::<char>::empty());
                },
            }
            assert(uniq_walk(
                Seq::<Seq<char>>::empty(),
                match prev {
                    None => None,
                    Some(p) => Some(p@),
                },
                cnt + 1,
                show_count,
            ) =~= Seq::<Seq<char>>::empty());
            assert(out.deep_view() == uniq_spec(lines.deep_view(), show_count));
        }
    }
    out
}

} // verus!
