//! Common-lines comparison: two lists of lines are sorted into the three
//! columns of a `comm`-style report — unique to the first, unique to the
//! second, and shared.

use vstd::prelude::*;
use crate::text::{lower, str_eq, to_lower};

verus! {

/// Two lines are the same, with case folded away when asked.
pub open spec fn eq_lines(a: Seq<char>, b: Seq<char>, insensitive: bool) -> bool {
    if insensitive {
        lower(a) == lower(b)
    } else {
        a == b
    }
}

/// The line occurs somewhere in the list.
pub open spec fn has_match(l: Seq<char>, ls: Seq<Seq<char>>, insensitive: bool) -> bool {
    exists|j: int| 0 <= j < ls.len() && eq_lines(l, #[trigger] ls[j], insensitive)
}

/// One row of the report: the three columns, at most one of them filled.
pub type RowView = (Seq<char>, Seq<char>, Seq<char>);

/// The rows for lines of the second list that the first lacks, filling
/// column two when it is shown.
pub open spec fn rows_unique_second(
    lines2: Seq<Seq<char>>,
    lines1: Seq<Seq<char>>,
    show_col2: bool,
    insensitive: bool,
) -> Seq<RowView>
    decreases lines2.len(),
{
    if lines2.len() == 0 {
        Seq::<RowView>::empty()
    } else {
        (if !has_match(lines2[0], lines1, insensitive) && show_col2 {
            seq![(Seq::<char>::empty(), lines2[0], Seq::<char>::empty())]
        } else {
            Seq::<RowView>::empty()
        }) + rows_unique_second(lines2.skip(1), lines1, show_col2, insensitive)
    }
}

/// The rows for all lines of the first list: shared lines fill column three
/// when it is shown, the rest fill column one when it is shown.
pub open spec fn rows_first_or_shared(
    lines1: Seq<Seq<char>>,
    lines2: Seq<Seq<char>>,
    show_col1: bool,
    show_col3: bool,
    insensitive: bool,
) -> Seq<RowView>
    decreases lines1.len(),
{
    if lines1.len() == 0 {
        Seq::<RowView>::empty()
    } else {
        (if has_match(lines1[0], lines2, insensitive) {
            if show_col3 {
                seq![(Seq::<char>::empty(), Seq::<char>::empty(), lines1[0])]
            } else {
                Seq::<RowView>::empty()
            }
        } else {
            if show_col1 {
                seq![(lines1[0], Seq::<char>::empty(), Seq::<char>::empty())]
            } else {
                Seq::<RowView>::empty()
            }
        }) + rows_first_or_shared(lines1.skip(1), lines2, show_col1, show_col3, insensitive)
    }
}

/// The rows for lines of the first list that the second lacks, filling
/// column one whether or not it is shown.
pub open spec fn rows_unique_first(
    lines1: Seq<Seq<char>>,
    lines2: Seq<Seq<char>>,
    insensitive: bool,
) -> Seq<RowView>
    decreases lines1.len(),
{
    if lines1.len() == 0 {
        Seq::<RowView>::empty()
    } else {
        (if !has_match(lines1[0], lines2, insensitive) {
            seq![(lines1[0], Seq::<char>::empty(), Seq::<char>::empty())]
        } else {
            Seq::<RowView>::empty()
        }) + rows_unique_first(lines1.skip(1), lines2, insensitive)
    }
}

/// The rows for all lines of the second list: shared lines fill column three
/// when shown, the rest fill column two when shown.
pub open spec fn rows_second_or_shared(
    lines2: Seq<Seq<char>>,
    lines1: Seq<Seq<char>>,
    show_col2: bool,
    show_col3: bool,
    insensitive: bool,
) -> Seq<RowView>
    decreases lines2.len(),
{
    if lines2.len() == 0 {
        Seq::<RowView>::empty()
    } else {
        (if has_match(lines2[0], lines1, insensitive) {
            if show_col3 {
                seq![(Seq::<char>::empty(), Seq::<char>::empty(), lines2[0])]
            } else {
                Seq::<RowView>::empty()
            }
        } else {
            if show_col2 {
                seq![(Seq::<char>::empty(), lines2[0], Seq::<char>::empty())]
            } else {
                Seq::<RowView>::empty()
            }
        }) + rows_second_or_shared(lines2.skip(1), lines1, show_col2, show_col3, insensitive)
    }
}

/// The whole report.  The shorter list's unique lines come first: when the
/// second list is shorter, its unique lines are listed, then every line of
/// the first; otherwise the first list's unique lines are listed — with the
/// column-one flag not consulted on that path — then every line of the
/// second.
pub open spec fn comm_spec(
    lines1: Seq<Seq<char>>,
    lines2: Seq<Seq<char>>,
    show_col1: bool,
    show_col2: bool,
    show_col3: bool,
    insensitive: bool,
) -> Seq<RowView> {
    if lines2.len() < lines1.len() {
        rows_unique_second(lines2, lines1, show_col2, insensitive) + rows_first_or_shared(
            lines1,
            lines2,
            show_col1,
            show_col3,
            insensitive,
        )
    } else {
        rows_unique_first(lines1, lines2, insensitive) + rows_second_or_shared(
            lines2,
            lines1,
            show_col2,
            show_col3,
            insensitive,
        )
    }
}

/// The view of the rows a comparison produced.
pub open spec fn rows_of(v: Seq<(String, String, String)>) -> Seq<RowView> {
    Seq::new(v.len(), |i: int| (v[i].0@, v[i].1@, v[i].2@))
}

/// Whether two lines are the same, with case folded away when asked.
pub fn equal(a: &str, b: &str, insensitive: bool) -> (r: bool)
    ensures
        r == eq_lines(a@, b@, insensitive),
{
    if insensitive {
        let la = to_lower(a);
        let lb = to_lower(b);
        str_eq(la.as_str(), lb.as_str())
    } else {
        str_eq(a, b)
    }
}

/// Whether the line occurs somewhere in the list.
fn has_match_exec(l: &str, ls: &Vec<String>, insensitive: bool) -> (r: bool)
    ensures
        r == has_match(l@, ls.deep_view(), insensitive),
{
    let n = ls.len();
    let mut j: usize = 0;
    while j < n
        invariant
            j <= n,
            n == ls@.len(),
            forall|k: int| 0 <= k < j ==> !eq_lines(l@, #[trigger] ls.deep_view()[k], insensitive),
        decreases n - j,
    {
        proof {
            assert(ls@[j as int]@ == ls.deep_view()[j as int]);
        }
        if equal(l, ls[j].as_str(), insensitive) {
            return true;
        }
        j += 1;
    }
    false
}

/// Sorts two lists of lines into the three columns of a `comm`-style report,
/// with each column emitted only when its flag shows it.
pub fn comm(
    lines1: Vec<String>,
    lines2: Vec<String>,
    show_col1: bool,
    show_col2: bool,
    show_col3: bool,
    insensitive: bool,
) -> (out: Vec<(String, String, String)>)
    ensures
        rows_of(out@) == comm_spec(
            lines1.deep_view(),
            lines2.deep_view(),
            show_col1,
            show_col2,
            show_col3,
            insensitive,
        ),
{
    let ghost l1 = lines1.deep_view();
    let ghost l2 = lines2.deep_view();
    let mut out: Vec<(String, String, String)> = Vec::new();
    if lines2.len() < lines1.len() {
        let ghost first_part = rows_unique_second(l2, l1, show_col2, insensitive);
        let n2 = lines2.len();
        let mut i: usize = 0;
        proof {
            assert(l2.skip(0) =~= l2);
            assert(rows_of(out@) + first_part =~= first_part);
        }
        while i < n2
            invariant
                i <= n2,
                n2 == lines2@.len(),
                l1 == lines1.deep_view(),
                l2 == lines2.deep_view(),
                rows_of(out@) + rows_unique_second(l2.skip(i as int), l1, show_col2, insensitive)
                    == first_part,
            decreases n2 - i,
        {
            proof {
                assert(lines2@[i as int]@ == l2[i as int]);
                assert(l2.skip(i as int)[0] == l2[i as int]);
                assert(l2.skip(i as int).skip(1) =~= l2.skip(i + 1));
            }
            let ghost prev = rows_of(out@);
            if !has_match_exec(lines2[i].as_str(), &lines1, insensitive) {
                if show_col2 {
                    out.push((String::new(), lines2[i].clone(), String::new()));
                }
            }
            proof {
                assert(rows_of(out@) + rows_unique_second(l2.skip(i + 1), l1, show_col2,
                    insensitive) =~= prev + ((if !has_match(l2[i as int], l1, insensitive)
                    && show_col2 {
                    seq![(Seq::<char>::empty(), l2[i as int], Seq::<char>::empty())]
                } else {
                    Seq::<RowView>::empty()
                }) + rows_unique_second(l2.skip(i + 1), l1, show_col2, insensitive)));
            }
            i += 1;
        }
        proof {
            assert(rows_unique_second(l2.skip(n2 as int), l1, show_col2, insensitive)
                =~= Seq::<RowView>::empty());
            assert(rows_of(out@) =~= first_part);
        }
        let n1 = lines1.len();
        let mut i: usize = 0;
        proof {
            assert(l1.skip(0) =~= l1);
        }
        while i < n1
            invariant
                i <= n1,
                n1 == lines1@.len(),
                l1 == lines1.deep_view(),
                l2 == lines2.deep_view(),
                rows_of(out@) + rows_first_or_shared(
                    l1.skip(i as int),
                    l2,
                    show_col1,
                    show_col3,
                    insensitive,
                ) == first_part + rows_first_or_shared(l1, l2, show_col1, show_col3, insensitive),
            decreases n1 - i,
        {
            proof {
                assert(lines1@[i as int]@ == l1[i as int]);
                assert(l1.skip(i as int)[0] == l1[i as int]);
                assert(l1.skip(i as int).skip(1) =~= l1.skip(i + 1));
            }
            let ghost prev = rows_of(out@);
            let ghost step = if has_match(l1[i as int], l2, insensitive) {
                if show_col3 {
                    seq![(Seq::<char>::empty(), Seq::<char>::empty(), l1[i as int])]
                } else {
                    Seq::<RowView>::empty()
                }
            } else {
                if show_col1 {
                    seq![(l1[i as int], Seq::<char>::empty(), Seq::<char>::empty())]
                } else {
                    Seq::<RowView>::empty()
                }
            };
            if has_match_exec(lines1[i].as_str(), &lines2, insensitive) {
                if show_col3 {
                    out.push((String::new(), String::new(), lines1[i].clone()));
                }
            } else {
                if show_col1 {
                    out.push((lines1[i].clone(), String::new(), String::new()));
                }
            }
            proof {
                assert(rows_of(out@) + rows_first_or_shared(l1.skip(i + 1), l2, show_col1,
                    show_col3, insensitive) =~= prev + (step + rows_first_or_shared(
                    l1.skip(i + 1),
                    l2,
                    show_col1,
                    show_col3,
                    insensitive,
                )));
            }
            i += 1;
        }
        proof {
            assert(rows_first_or_shared(l1.skip(n1 as int), l2, show_col1, show_col3, insensitive)
                =~= Seq::<RowView>::empty());
            assert(rows_of(out@) =~= rows_of(out@) + rows_first_or_shared(
                l1.skip(n1 as int),
                l2,
                show_col1,
                show_col3,
                insensitive,
            ));
        }
    } else {
        let ghost first_part = rows_unique_first(l1, l2, insensitive);
        let n1 = lines1.len();
        let mut i: usize = 0;
        proof {
            assert(l1.skip(0) =~= l1);
            assert(rows_of(out@) + first_part =~= first_part);
        }
        while i < n1
            invariant
                i <= n1,
                n1 == lines1@.len(),
                l1 == lines1.deep_view(),
                l2 == lines2.deep_view(),
                rows_of(out@) + rows_unique_first(l1.skip(i as int), l2, insensitive)
                    == first_part,
            decreases n1 - i,
        {
            proof {
                assert(lines1@[i as int]@ == l1[i as int]);
                assert(l1.skip(i as int)[0] == l1[i as int]);
                assert(l1.skip(i as int).skip(1) =~= l1.skip(i + 1));
            }
            let ghost prev = rows_of(out@);
            if !has_match_exec(lines1[i].as_str(), &lines2, insensitive) {
                out.push((lines1[i].clone(), String::new(), String::new()));
            }
            proof {
                assert(rows_of(out@) + rows_unique_first(l1.skip(i + 1), l2, insensitive) =~= prev
                    + ((if !has_match(l1[i as int], l2, insensitive) {
                    seq![(l1[i as int], Seq::<char>::empty(), Seq::<char>::empty())]
                } else {
                    Seq::<RowView>::empty()
                }) + rows_unique_first(l1.skip(i + 1), l2, insensitive)));
            }
            i += 1;
        }
        proof {
            assert(rows_unique_first(l1.skip(n1 as int), l2, insensitive)
                =~= Seq::<RowView>::empty());
            assert(rows_of(out@) =~= first_part);
        }
        let n2 = lines2.len();
        let mut i: usize = 0;
        proof {
            assert(l2.skip(0) =~= l2);
        }
        while i < n2
            invariant
                i <= n2,
                n2 == lines2@.len(),
                l1 == lines1.deep_view(),
                l2 == lines2.deep_view(),
                rows_of(out@) + rows_second_or_shared(
                    l2.skip(i as int),
                    l1,
                    show_col2,
                    show_col3,
                    insensitive,
                ) == first_part + rows_second_or_shared(l2, l1, show_col2, show_col3, insensitive),
            decreases n2 - i,
        {
            proof {
                assert(lines2@[i as int]@ == l2[i as int]);
                assert(l2.skip(i as int)[0] == l2[i as int]);
                assert(l2.skip(i as int).skip(1) =~= l2.skip(i + 1));
            }
            let ghost prev = rows_of(out@);
            let ghost step = if has_match(l2[i as int], l1, insensitive) {
                if show_col3 {
                    seq![(Seq::<char>::empty(), Seq::<char>::empty(), l2[i as int])]
                } else {
                    Seq::<RowView>::empty()
                }
            } else {
                if show_col2 {
                    seq![(Seq::<char>::empty(), l2[i as int], Seq::<char>::empty())]
                } else {
                    Seq::<RowView>::empty()
                }
            };
            if has_match_exec(lines2[i].as_str(), &lines1, insensitive) {
                if show_col3 {
                    out.push((String::new(), String::new(), lines2[i].clone()));
                }
            } else {
                if show_col2 {
                    out.push((String::new(), lines2[i].clone(), String::new()));
                }
            }
            proof {
                assert(rows_of(out@) + rows_second_or_shared(l2.skip(i + 1), l1, show_col2,
                    show_col3, insensitive) =~= prev + (step + rows_second_or_shared(
                    l2.skip(i + 1),
                    l1,
                    show_col2,
                    show_col3,
                    insensitive,
                )));
            }
            i += 1;
        }
        proof {
            assert(rows_second_or_shared(l2.skip(n2 as int), l1, show_col2, show_col3, insensitive)
                =~= Seq::<RowView>::empty());
            assert(rows_of(out@) =~= rows_of(out@) + rows_second_or_shared(
                l2.skip(n2 as int),
                l1,
                show_col2,
                show_col3,
                insensitive,
            ));
        }
    }
    out
}


/// One line of the printed report: each shown column's text, or the
/// delimiter in a shown column's place when a later column is filled.
pub open spec fn row_display(
    col1: Seq<char>,
    col2: Seq<char>,
    col3: Seq<char>,
    show_col1: bool,
    show_col2: bool,
    show_col3: bool,
    delimiter: Seq<char>,
) -> Seq<char> {
    (if col1.len() > 0 && show_col1 {
        col1
    } else if (col2.len() > 0 || col3.len() > 0) && show_col1 {
        delimiter
    } else {
        Seq::<char>::empty()
    }) + (if col2.len() > 0 && show_col2 {
        col2
    } else if col3.len() > 0 && show_col2 {
        delimiter
    } else {
        Seq::<char>::empty()
    }) + (if col3.len() > 0 && show_col3 {
        col3
    } else {
        Seq::<char>::empty()
    })
}

/// Lays one row of the report out as a line of text.
pub fn format_row(
    col1: &str,
    col2: &str,
    col3: &str,
    show_col1: bool,
    show_col2: bool,
    show_col3: bool,
    delimiter: &str,
) -> (r: String)
    ensures
        r@ == row_display(col1@, col2@, col3@, show_col1, show_col2, show_col3, delimiter@),
{
    let mut output = String::new();
    if !col1.is_empty() && show_col1 {
        output.append(col1);
    } else if (!col2.is_empty() || !col3.is_empty()) && show_col1 {
        output.append(delimiter);
    }
    if !col2.is_empty() && show_col2 {
        output.append(col2);
    } else if !col3.is_empty() && show_col2 {
        output.append(delimiter);
    }
    if !col3.is_empty() && show_col3 {
        output.append(col3);
    }
    proof {
        assert(output@ =~= row_display(
            col1@,
            col2@,
            col3@,
            show_col1,
            show_col2,
            show_col3,
            delimiter@,
        ));
    }
    output
}

} // verus!
