use nightjar::text::{
    append_chars, chars_of, contains, contains_chars, decimal_of, find_delimiter, is_whitespace,
    matches_at, pad, same_chars, slice_of, string_of, text_of, trim, trim_bounds, trim_chars,
};

fn chars(s: &str) -> Vec<char> {
    s.chars().collect()
}

#[test]
fn whitespace_is_the_unicode_property() {
    let mut code: u32 = 0;
    while code <= 0x10FFFF {
        if let Some(c) = char::from_u32(code) {
            assert_eq!(is_whitespace(c), c.is_whitespace(), "code point {:#x}", code);
        }
        code += 1;
    }
}

#[test]
fn whitespace_examples() {
    assert!(is_whitespace(' '));
    assert!(is_whitespace('\t'));
    assert!(is_whitespace('\n'));
    assert!(is_whitespace('\r'));
    assert!(is_whitespace('\u{A0}'));
    assert!(is_whitespace('\u{3000}'));
    assert!(!is_whitespace('a'));
    assert!(!is_whitespace(':'));
    assert!(!is_whitespace('\u{200B}'));
}

#[test]
fn chars_of_keeps_every_character() {
    assert_eq!(chars_of(""), Vec::<char>::new());
    assert_eq!(chars_of("a b"), vec!['a', ' ', 'b']);
    assert_eq!(chars_of("日本 é"), vec!['日', '本', ' ', 'é']);
}

#[test]
fn string_of_takes_the_piece() {
    let v = chars("Iron Key");
    assert_eq!(string_of(&v, 0, 4), "Iron");
    assert_eq!(string_of(&v, 5, 8), "Key");
    assert_eq!(string_of(&v, 3, 3), "");
    assert_eq!(text_of(&v), "Iron Key");
    assert_eq!(slice_of(&v, 1, 3), vec!['r', 'o']);
}

#[test]
fn trim_removes_white_space_at_both_ends() {
    assert_eq!(trim("  Iron Key \t"), "Iron Key");
    assert_eq!(trim("Iron Key"), "Iron Key");
    assert_eq!(trim("\u{3000}a b\u{A0}\r\n"), "a b");
    assert_eq!(trim(""), "");
    assert_eq!(trim(" \t \n"), "");
    assert_eq!(trim(" x"), "x");
    assert_eq!(trim("x "), "x");
}

#[test]
fn trim_agrees_with_std() {
    let samples = [
        "",
        " ",
        "a",
        " a",
        "a ",
        "  a  b  ",
        "\t\tkey:value\r",
        "\u{2003}wide\u{2003}",
        "-- Hints for key items:   ",
        "é \u{85}",
    ];
    for s in samples {
        assert_eq!(trim(s), s.trim());
        assert_eq!(trim_chars(&chars(s)), chars(s.trim()));
    }
}

#[test]
fn trim_bounds_cut_the_trimmed_piece() {
    assert_eq!(trim_bounds(&chars("  ab ")), (2, 4));
    assert_eq!(trim_bounds(&chars("ab")), (0, 2));
    assert_eq!(trim_bounds(&chars("   ")), (3, 3));
    assert_eq!(trim_bounds(&chars("")), (0, 0));
}

#[test]
fn contains_finds_a_piece_anywhere() {
    assert!(contains("-- Hints for key items:", "Hints for key"));
    assert!(contains("abc", "abc"));
    assert!(contains("abc", "c"));
    assert!(contains("abc", "a"));
    assert!(contains("abc", ""));
    assert!(contains("", ""));
    assert!(!contains("", "a"));
    assert!(!contains("abc", "abcd"));
    assert!(!contains("abc", "ac"));
    assert!(!contains("Iron Key", "iron"));
    assert!(contains("aab", "ab"));
}

#[test]
fn contains_agrees_with_std() {
    let hays = ["", "a", "ab", "aab", "abab", "You found the Iron Key in the dungeon", "ééa"];
    let needles = ["", "a", "b", "ab", "ba", "aba", "Iron Key in", "éa", "key"];
    for h in hays {
        for n in needles {
            assert_eq!(contains(h, n), h.contains(n), "{:?} in {:?}", n, h);
            assert_eq!(contains_chars(&chars(h), &chars(n)), h.contains(n));
        }
    }
}

#[test]
fn matches_at_compares_in_place() {
    let hay = chars("abcabc");
    assert!(matches_at(&hay, &chars("abc"), 0));
    assert!(matches_at(&hay, &chars("abc"), 3));
    assert!(!matches_at(&hay, &chars("abc"), 1));
    assert!(matches_at(&hay, &chars(""), 6));
}

#[test]
fn same_chars_is_equality() {
    assert!(same_chars(&chars(""), &chars("")));
    assert!(same_chars(&chars("abc"), &chars("abc")));
    assert!(!same_chars(&chars("abc"), &chars("abd")));
    assert!(!same_chars(&chars("abc"), &chars("ab")));
    assert!(!same_chars(&chars(""), &chars(" ")));
}

#[test]
fn find_delimiter_gives_the_first() {
    assert_eq!(find_delimiter(&chars("a:b:c"), ':'), 1);
    assert_eq!(find_delimiter(&chars(":x"), ':'), 0);
    assert_eq!(find_delimiter(&chars("abc"), ':'), 3);
    assert_eq!(find_delimiter(&chars(""), ':'), 0);
    assert_eq!(find_delimiter(&chars("abc:"), ':'), 3);
}

#[test]
fn pad_fills_up_to_the_width() {
    assert_eq!(pad("Iron Key", 32), "Iron Key                        ");
    assert_eq!(pad("Iron Key", 32), format!("{:<width$}", "Iron Key", width = 32));
    assert_eq!(pad("", 3), "   ");
    assert_eq!(pad("abc", 3), "abc");
    assert_eq!(pad("abcd", 3), "abcd");
    assert_eq!(pad("é", 3), "é  ");
    assert_eq!(pad("abc", 0), "abc");
}

#[test]
fn decimal_of_writes_the_digits() {
    assert_eq!(text_of(&decimal_of(0)), "0");
    assert_eq!(text_of(&decimal_of(7)), "7");
    assert_eq!(text_of(&decimal_of(10)), "10");
    assert_eq!(text_of(&decimal_of(1234567890)), "1234567890");
    for n in [9usize, 11, 99, 100, 101, 4096, usize::MAX] {
        assert_eq!(text_of(&decimal_of(n)), n.to_string());
    }
}

#[test]
fn append_chars_adds_at_the_end() {
    let mut s = String::from("line ");
    append_chars(&mut s, &chars("12"));
    assert_eq!(s, "line 12");
    append_chars(&mut s, &chars(""));
    assert_eq!(s, "line 12");
}
