use workmux::text::{
    characters, contains_part, first_line, format_integer, format_natural, same_ignoring_case,
    same_text, strip, text_precedes, trim, Edge,
};

#[test]
fn trim_cuts_white_space() {
    for text in ["", "  ", " a b ", "\u{a0}x\u{2003}", "\t\r\nline\n\n", "\u{200b}x", "\u{85}y\u{3000}"] {
        assert_eq!(trim(text), text.trim());
    }
}

#[test]
fn trim_knows_every_white_space() {
    for code in 0..0x3100u32 {
        if let Some(c) = char::from_u32(code) {
            let text = format!("{}x{}", c, c);
            assert_eq!(trim(&text), text.trim(), "{:x}", code);
        }
    }
}

#[test]
fn strip_cuts_backticks() {
    assert_eq!(strip("``a`b`", Edge::Backtick), "a`b");
    assert_eq!(strip("```", Edge::Backtick), "");
    assert_eq!(strip(" `a", Edge::Backtick), " `a");
}

#[test]
fn first_line_ends_at_the_line_feed() {
    assert_eq!(first_line("a\nb"), "a");
    assert_eq!(first_line("\na"), "");
    assert_eq!(first_line("abc"), "abc");
    assert_eq!(first_line(""), "");
}

#[test]
fn contains_part_searches_everywhere() {
    for (text, part) in [("abcab", "cab"), ("aab", "ab"), ("ab", "abc"), ("", ""), ("a", ""), ("\u{e9}a", "a")] {
        assert_eq!(contains_part(text, part), text.contains(part));
    }
}

#[test]
fn same_text_is_exact() {
    assert!(same_text("\u{e9}", "\u{e9}"));
    assert!(!same_text("a", "A"));
    assert!(!same_text("a", "ab"));
}

#[test]
fn case_is_ignored_for_ascii_alone() {
    for (a, b) in [("Acme", "aCME"), ("a", "ab"), ("@", "`"), ("[", "{"), ("\u{c9}", "\u{e9}"), ("Z", "z")] {
        assert_eq!(same_ignoring_case(a, b), a.eq_ignore_ascii_case(b));
    }
}

#[test]
fn numbers_are_printed_in_decimal() {
    for n in [0, 9, 10, 4096, u64::MAX] {
        assert_eq!(format_natural(n), n.to_string());
    }
    for i in [0, -1, 7, i32::MAX, i32::MIN] {
        assert_eq!(format_integer(i), i.to_string());
    }
}

#[test]
fn order_is_that_of_strings() {
    let list = ["", "A", "a", "ab", "b", "\u{e9}", "\u{ffff}", "\u{10000}"];
    for a in list {
        for b in list {
            assert_eq!(text_precedes(a, b), a < b);
        }
    }
}

#[test]
fn characters_of_a_text() {
    assert_eq!(characters("a\u{e9}\u{10000}"), vec!['a', '\u{e9}', '\u{10000}']);
}
