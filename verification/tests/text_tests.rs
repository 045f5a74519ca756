use limit_analysis::text::{
    contains_str, is_white_space_char, join_strs, split_str, starts_with_str, str_eq, strip_leading_char, trim,
};

#[test]
fn split_str_matches_std_split() {
    let cases = ["a;b;c", "", ";", "a;;b", "no separator", ";lead", "trail;"];
    for c in cases {
        let expected: Vec<String> = c.split(';').map(|s| s.to_string()).collect();
        assert_eq!(split_str(c, ';'), expected);
    }
}

#[test]
fn split_str_on_empty_text_gives_one_empty_piece() {
    assert_eq!(split_str("", ';'), vec![String::new()]);
}

#[test]
fn join_strs_puts_separator_between_pieces() {
    let v = vec!["x".to_string(), "y".to_string(), "z".to_string()];
    assert_eq!(join_strs(&v, "; "), "x; y; z");
    assert_eq!(join_strs(&Vec::new(), "; "), "");
    assert_eq!(join_strs(&vec!["only".to_string()], ";"), "only");
}

#[test]
fn contains_and_starts_with() {
    assert!(contains_str("my_label_col", "label"));
    assert!(!contains_str("lab", "label"));
    assert!(contains_str("anything", ""));
    assert!(starts_with_str("task_categories:translation", "task_categories:"));
    assert!(!starts_with_str("task_categories", "task_categories:"));
}

#[test]
fn strip_leading_char_removes_every_leading_bracket() {
    assert_eq!(strip_leading_char("<<https://x>", '<'), "https://x>");
    assert_eq!(strip_leading_char("abc", '<'), "abc");
    assert_eq!(strip_leading_char("<<<", '<'), "");
}

#[test]
fn str_eq_compares_texts() {
    assert!(str_eq("image", "image"));
    assert!(!str_eq("image", "images"));
}

#[test]
fn trim_matches_std_trim() {
    let cases = [
        "  tag \t\n",
        "inner space",
        "",
        "   ",
        "\u{3000}\u{85}x y\u{2029}\u{a0}",
        "\u{200b}zero width is not white space\u{200b}",
        "\u{1680}\u{2000}\u{200a}\u{2028}\u{202f}\u{205f}a\u{b}\u{c}\r",
    ];
    for c in cases {
        assert_eq!(trim(c), c.trim());
    }
}

#[test]
fn white_space_is_what_std_says() {
    for u in 0u32..=0x10FFFF {
        if let Some(c) = char::from_u32(u) {
            assert_eq!(is_white_space_char(c), c.is_whitespace(), "code point {:x}", u);
        }
    }
}
