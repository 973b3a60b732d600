use texttools::resize::{Mode, SizeOption};
use texttools::stats::{get_bin_stats_for_file, get_src_stats_for_file, BinStats, SrcStats};

#[test]
fn src_stats_sort_lines_into_code_comments_and_blanks() {
    let text = "fn main() {\n    // say hello\n\n    hello();\n}\n";
    let stats = get_src_stats_for_file(text).unwrap();
    let expected = SrcStats {
        number_of_files: 5,
        lines_of_code: 3,
        comments: 1,
        blanks: 1,
    };
    assert_eq!(stats, expected);
}

#[test]
fn src_stats_strip_carriage_returns_and_keep_the_last_line() {
    let stats = get_src_stats_for_file("a\r\n\r\n// c").unwrap();
    assert_eq!(stats.number_of_files, 3);
    assert_eq!(stats.lines_of_code, 1);
    assert_eq!(stats.blanks, 1);
    assert_eq!(stats.comments, 1);
}

#[test]
fn bin_stats_weigh_in_thousands_of_bytes() {
    assert_eq!(
        get_bin_stats_for_file(123_456).unwrap(),
        BinStats { number_of_files: 0, weight: 123 }
    );
    let res = get_bin_stats_for_file(u64::MAX);
    assert_eq!(res.unwrap_err().warn, "Number conversion error");
}

#[test]
fn mode_reads_its_two_scopes() {
    assert_eq!(Mode::from_str("single").unwrap(), Mode::Single);
    assert_eq!(Mode::from_str("All").unwrap(), Mode::All);
    assert_eq!(Mode::from_str("everything").unwrap_err(), "Invalid input");
}

#[test]
fn size_option_reads_its_three_sizes() {
    assert_eq!(SizeOption::from_str("small").unwrap(), SizeOption::Small);
    assert_eq!(SizeOption::from_str("Medium").unwrap(), SizeOption::Medium);
    assert_eq!(SizeOption::from_str("large").unwrap(), SizeOption::Large);
    assert_eq!(SizeOption::from_str("huge").unwrap_err(), "Invalid input");
}
