use texttools::compare::{comm, equal};
use texttools::dedup::uniq;
use texttools::finding::{check_type, EntryType};
use texttools::months::generate_header_row;
use texttools::counts::logic_arg;

fn strings(v: &[&str]) -> Vec<String> {
    v.iter().map(|s| s.to_string()).collect()
}

#[test]
fn equal_compares_exactly_or_case_folded() {
    assert!(equal("abc", "abc", false));
    assert!(!equal("abc", "ABC", false));
    assert!(equal("abc", "ABC", true));
    assert!(!equal("abc", "abd", true));
}

#[test]
fn comm_sorts_lines_into_three_columns() {
    // The second list is shorter: its unique lines come first.
    let out = comm(
        strings(&["a", "b", "c"]),
        strings(&["b", "d"]),
        true,
        true,
        true,
        false,
    );
    assert_eq!(
        out,
        vec![
            ("".to_string(), "d".to_string(), "".to_string()),
            ("a".to_string(), "".to_string(), "".to_string()),
            ("".to_string(), "".to_string(), "b".to_string()),
            ("c".to_string(), "".to_string(), "".to_string()),
        ]
    );
}

#[test]
fn comm_is_case_insensitive_when_asked() {
    let out = comm(
        strings(&["Apple"]),
        strings(&["apple", "pear"]),
        true,
        true,
        true,
        true,
    );
    assert_eq!(
        out,
        vec![
            ("".to_string(), "".to_string(), "apple".to_string()),
            ("".to_string(), "pear".to_string(), "".to_string()),
        ]
    );
}

#[test]
fn comm_hides_suppressed_columns() {
    let out = comm(
        strings(&["a", "b"]),
        strings(&["b", "c"]),
        true,
        false,
        false,
        false,
    );
    assert_eq!(out, vec![("a".to_string(), "".to_string(), "".to_string())]);
}

#[test]
fn uniq_collapses_consecutive_duplicates() {
    let lines = strings(&["a\n", "a\n", "b\n", "a\n"]);
    assert_eq!(uniq(&lines, false), strings(&["a\n", "b\n", "a\n"]));
    assert_eq!(uniq(&lines, true), strings(&["   2 a\n", "   1 b\n", "   1 a\n"]));
}

#[test]
fn uniq_compares_up_to_trailing_whitespace() {
    let lines = strings(&["x  \n", "x\n", "y\n"]);
    assert_eq!(uniq(&lines, true), strings(&["   2 x  \n", "   1 y\n"]));
}

#[test]
fn uniq_swallows_a_final_blank_group() {
    // The end of input reads as one empty line, so a last group that trims
    // to nothing is never flushed.
    let lines = strings(&["a\n", "\n"]);
    assert_eq!(uniq(&lines, false), strings(&["a\n"]));
    assert_eq!(uniq(&strings(&[]), false), Vec::<String>::new());
}

#[test]
fn check_type_passes_everything_on_empty_filter() {
    assert!(check_type(&vec![], &EntryType::File));
    assert!(check_type(&vec![EntryType::Dir, EntryType::File], &EntryType::File));
    assert!(!check_type(&vec![EntryType::Dir, EntryType::Link], &EntryType::File));
}

#[test]
fn header_row_centres_name_and_year() {
    assert_eq!(generate_header_row(2020, 2, true), "   February 2020      ");
    assert_eq!(generate_header_row(2021, 4, true), "     April 2021       ");
    assert_eq!(generate_header_row(2020, 5, false), "        May           ");
}

#[test]
fn logic_arg_defaults_to_lines_words_bytes() {
    assert_eq!(logic_arg(false, false, false, false), (true, true, false, true));
    assert_eq!(logic_arg(false, false, true, false), (false, false, true, false));
    assert_eq!(logic_arg(true, true, false, true), (true, true, false, true));
}
