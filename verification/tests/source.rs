use hack_assembler::source::{clean_lines, clean_whitespace, source_lines, whitespace};

#[test]
fn test_clean_whitespace_inline() {
    let result = clean_whitespace("@1 //Test");
    assert_eq!(result, Some("@1"));
}

#[test]
fn test_clean_whitespace_whole() {
    let result = clean_whitespace("//Test");
    assert_eq!(result, None);
}

#[test]
fn test_clean_whitespace_no_change() {
    let result = clean_whitespace("Test");
    assert_eq!(result, Some("Test"));
}

#[test]
fn test_clean_whitespace_no_content() {
    let result = clean_whitespace("");
    assert_eq!(result, None);
}

#[test]
fn clean_whitespace_trims_both_ends_and_keeps_the_middle() {
    assert_eq!(clean_whitespace("  \t D = A \r"), Some("D = A"));
    assert_eq!(clean_whitespace("   "), None);
    assert_eq!(clean_whitespace(" \t // only a comment"), None);
    assert_eq!(clean_whitespace("\u{a0}\u{2003}@x\u{3000}\u{85}"), Some("@x"));
    assert_eq!(clean_whitespace("\u{200b}@x"), Some("\u{200b}@x"));
}

#[test]
fn clean_whitespace_cuts_at_the_first_double_slash() {
    assert_eq!(clean_whitespace("a / b // c // d"), Some("a / b"));
    assert_eq!(clean_whitespace("a///b"), Some("a"));
    assert_eq!(clean_whitespace("a/"), Some("a/"));
    assert_eq!(clean_whitespace("/"), Some("/"));
    assert_eq!(clean_whitespace("é // ü"), Some("é"));
}

#[test]
fn whitespace_is_what_unicode_says() {
    for code in 0..=0x10FFFFu32 {
        if let Some(c) = char::from_u32(code) {
            assert_eq!(whitespace(c), c.is_whitespace());
        }
    }
}

#[test]
fn source_lines_are_the_pieces_between_newlines() {
    assert_eq!(source_lines(""), vec![""]);
    assert_eq!(source_lines("a"), vec!["a"]);
    assert_eq!(source_lines("a\nb"), vec!["a", "b"]);
    assert_eq!(source_lines("a\nb\n"), vec!["a", "b", ""]);
    assert_eq!(source_lines("\n\na\r\n"), vec!["", "", "a\r", ""]);
    assert_eq!(source_lines("é\nü ö\n"), vec!["é", "ü ö", ""]);
}

#[test]
fn source_lines_agree_with_split() {
    let text = "@1 // one\n\n  D=A\n(LOOP)\n@LOOP\n0;JMP";
    let expected: Vec<&str> = text.split("\n").collect();
    assert_eq!(source_lines(text), expected);
}

#[test]
fn clean_lines_drops_what_is_empty() {
    let lines = vec!["// head", "", "  @1  ", "D=A // d", "   ", "(L) "];
    assert_eq!(clean_lines(&lines), vec!["@1", "D=A", "(L)"]);
    let none: Vec<&str> = vec![];
    assert_eq!(clean_lines(&none), none);
}
