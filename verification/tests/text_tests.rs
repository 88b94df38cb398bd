use recall_cli::commands::{parse_pid, preview, show_filename};
use recall_cli::text::{parse_u32, replace_char, take_chars, trim};

#[test]
fn parse_u32_matches_std() {
    for s in ["0", "42", "+42", "007", "4294967295", "4294967296", "", "+", "-1", "1 ", "1_0", "٣", "99999999999999999999"] {
        assert_eq!(parse_u32(s), s.parse::<u32>().ok(), "input {:?}", s);
    }
}

#[test]
fn trim_matches_std() {
    for s in ["  a b  ", "\t\n x\r\n", "", "   ", "\u{3000}wide\u{2003}", "\u{85}n\u{a0}", "keep"] {
        assert_eq!(trim(s), s.trim(), "input {:?}", s);
    }
}

#[test]
fn replace_char_matches_std() {
    assert_eq!(replace_char("2024-01-02T10:00:00+00:00", 'T', " "), "2024-01-02 10:00:00+00:00");
    assert_eq!(replace_char("a\"b\"", '"', "\"\""), "a\"\"b\"\"");
    assert_eq!(replace_char("", 'x', "yy"), "");
}

#[test]
fn take_chars_counts_characters() {
    assert_eq!(take_chars("äöü-xyz", 3), "äöü");
    assert_eq!(take_chars("ab", 60), "ab");
}

#[test]
fn pid_file_content_is_trimmed_and_parsed() {
    assert_eq!(parse_pid(" 1234\r\n"), Some(1234));
    assert_eq!(parse_pid("1234"), Some(1234));
    assert_eq!(parse_pid("12 34"), None);
    assert_eq!(parse_pid(""), None);
    assert_eq!(parse_pid("pid"), None);
}

#[test]
fn preview_takes_leading_characters() {
    assert_eq!(preview(Some("abcdef"), 3), "abcdef".chars().take(3).collect::<String>());
    assert_eq!(preview(Some("abc"), 60), "abc");
    assert_eq!(preview(None, 60), "");
}

#[test]
fn show_filename_pads_to_four_digits() {
    assert_eq!(show_filename(1), "recall_0001.png");
    assert_eq!(show_filename(12345), "recall_12345.png");
    assert_eq!(show_filename(-5), format!("recall_{:04}.png", -5));
    assert_eq!(show_filename(-5), "recall_-005.png");
    assert_eq!(show_filename(i64::MIN), format!("recall_{:04}.png", i64::MIN));
}
