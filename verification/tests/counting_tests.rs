use texttools::counts::{count, FileInfo};
use texttools::months::parse_month;
use texttools::perms::format_mode;

#[test]
fn test_count() {
    let text = "I don't want the world.\nI just want your half.\r\n";
    let info = count(text);
    let expected = FileInfo {
        num_lines: 2,
        num_words: 10,
        num_chars: 48,
        num_bytes: 48,
    };
    assert_eq!(info, expected);
}

#[test]
fn count_of_empty_text_is_all_zero() {
    let info = count("");
    let expected = FileInfo { num_lines: 0, num_words: 0, num_chars: 0, num_bytes: 0 };
    assert_eq!(info, expected);
}

#[test]
fn count_tallies_bytes_and_chars_apart() {
    let info = count("á\n");
    assert_eq!(info.num_lines, 1);
    assert_eq!(info.num_words, 1);
    assert_eq!(info.num_chars, 2);
    assert_eq!(info.num_bytes, 3);
}

#[test]
fn count_of_unterminated_last_line() {
    let info = count("one\ntwo");
    assert_eq!(info.num_lines, 2);
    assert_eq!(info.num_words, 2);
}

#[test]
fn add_combines_tallies() {
    let a = FileInfo { num_lines: 1, num_words: 2, num_bytes: 3, num_chars: 4 };
    let b = FileInfo { num_lines: 10, num_words: 20, num_bytes: 30, num_chars: 40 };
    let c = a.add(b);
    let expected = FileInfo { num_lines: 11, num_words: 22, num_bytes: 33, num_chars: 44 };
    assert_eq!(c, expected);
}

#[test]
fn test_format_mode() {
    assert_eq!(format_mode(0o755), "rwxr-xr-x");
    assert_eq!(format_mode(0o421), "r---w---x");
}

#[test]
fn format_mode_extremes() {
    assert_eq!(format_mode(0o000), "---------");
    assert_eq!(format_mode(0o777), "rwxrwxrwx");
}

#[test]
fn test_parse_month() {
    let res = parse_month("1".to_string());
    assert!(res.is_ok());
    assert_eq!(res.unwrap(), 1u32);

    let res = parse_month("12".to_string());
    assert!(res.is_ok());
    assert_eq!(res.unwrap(), 12u32);

    let res = parse_month("jan".to_string());
    assert!(res.is_ok());
    assert_eq!(res.unwrap(), 1u32);

    let res = parse_month("0".to_string());
    assert!(res.is_err());
    assert_eq!(
        res.unwrap_err().to_string(),
        r#"month "0" not in the range 1 through 12"#
    );

    let res = parse_month("13".to_string());
    assert!(res.is_err());
    assert_eq!(
        res.unwrap_err().to_string(),
        r#"month "13" not in the range 1 through 12"#
    );

    let res = parse_month("foo".to_string());
    assert!(res.is_err());
    assert_eq!(res.unwrap_err().to_string(), r#"Invalid month "foo""#);
}

#[test]
fn ambiguous_month_prefix_is_invalid() {
    // Both June and July begin with "ju"
    let res = parse_month("Ju".to_string());
    assert_eq!(res.unwrap_err().to_string(), r#"Invalid month "Ju""#);

    // Case-insensitive matching still finds a unique month
    let res = parse_month("DECEM".to_string());
    assert_eq!(res.unwrap(), 12u32);
}
