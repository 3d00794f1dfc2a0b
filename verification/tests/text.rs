use linecount::text::{
    begins_with, chars_of, contains, count_lines, find_line_end, is_whitespace, same_text,
    starts_with, trim,
};

fn chars(s: &str) -> Vec<char> {
    s.chars().collect()
}

#[test]
fn chars_of_a_string() {
    assert_eq!(chars_of(""), Vec::<char>::new());
    assert_eq!(chars_of("a\u{e9}\u{4e2d}\u{1f600}"), vec!['a', '\u{e9}', '\u{4e2d}', '\u{1f600}']);
}

#[test]
fn white_space_is_what_std_calls_white_space() {
    let mut code: u32 = 0;
    while code <= 0x10FFFF {
        if let Some(c) = char::from_u32(code) {
            assert_eq!(is_whitespace(c), c.is_whitespace());
        }
        code += 1;
    }
}

#[test]
fn white_space_by_example() {
    assert!(is_whitespace(' '));
    assert!(is_whitespace('\t'));
    assert!(is_whitespace('\n'));
    assert!(is_whitespace('\r'));
    assert!(is_whitespace('\u{85}'));
    assert!(is_whitespace('\u{3000}'));
    assert!(!is_whitespace('a'));
    assert!(!is_whitespace('\u{200b}'));
    assert!(!is_whitespace('\u{8}'));
    assert!(!is_whitespace('\u{e}'));
}

#[test]
fn trim_cuts_both_ends() {
    assert_eq!(trim(&chars("  a b \t")), &chars("a b")[..]);
    assert_eq!(trim(&chars("a")), &chars("a")[..]);
    assert_eq!(trim(&chars("")), &chars("")[..]);
    assert_eq!(trim(&chars(" \n\t ")), &chars("")[..]);
    assert_eq!(trim(&chars("\u{2003}x\u{a0}")), &chars("x")[..]);
    for s in ["", " ", "  x", "x  ", " x y ", "\r\nx\r\n", "\u{1680}\u{2028}z"] {
        assert_eq!(trim(&chars(s)), &chars(s.trim())[..]);
    }
}

#[test]
fn starts_with_by_example() {
    assert!(starts_with(&chars("// a"), &chars("//")));
    assert!(starts_with(&chars("//"), &chars("//")));
    assert!(starts_with(&chars("a"), &chars("")));
    assert!(starts_with(&chars(""), &chars("")));
    assert!(!starts_with(&chars("/"), &chars("//")));
    assert!(!starts_with(&chars(" //"), &chars("//")));
    assert!(!starts_with(&chars("/a/"), &chars("//")));
}

#[test]
fn contains_by_example() {
    assert!(contains(&chars("a */ b"), &chars("*/")));
    assert!(contains(&chars("*/"), &chars("*/")));
    assert!(contains(&chars("x*/"), &chars("*/")));
    assert!(contains(&chars("abc"), &chars("")));
    assert!(contains(&chars(""), &chars("")));
    assert!(!contains(&chars("* /"), &chars("*/")));
    assert!(!contains(&chars("*"), &chars("*/")));
    assert!(!contains(&chars(""), &chars("*/")));
    assert!(contains(&chars("aab"), &chars("ab")));
}

#[test]
fn line_ends() {
    let text = chars("ab\ncd\n\ne");
    assert_eq!(find_line_end(&text, 0), 2);
    assert_eq!(find_line_end(&text, 1), 2);
    assert_eq!(find_line_end(&text, 2), 2);
    assert_eq!(find_line_end(&text, 3), 5);
    assert_eq!(find_line_end(&text, 6), 6);
    assert_eq!(find_line_end(&text, 7), 8);
    assert_eq!(find_line_end(&text, 8), 8);
}

#[test]
fn physical_lines() {
    assert_eq!(count_lines(&chars("")), 0);
    assert_eq!(count_lines(&chars("a")), 1);
    assert_eq!(count_lines(&chars("a\n")), 1);
    assert_eq!(count_lines(&chars("a\nb")), 2);
    assert_eq!(count_lines(&chars("\n")), 1);
    assert_eq!(count_lines(&chars("\n\n")), 2);
    assert_eq!(count_lines(&chars("a\r\nb\r\n")), 2);
    for s in ["", "x", "x\n", "\nx", "x\n\ny", "\n\n\n", "a\r\nb", "a\rb"] {
        assert_eq!(count_lines(&chars(s)), s.lines().count());
    }
}

#[test]
fn same_text_by_example() {
    assert!(same_text("", ""));
    assert!(same_text("rs", "rs"));
    assert!(same_text("\u{e9}t\u{e9}", "\u{e9}t\u{e9}"));
    assert!(!same_text("rs", "r"));
    assert!(!same_text("rs", "rt"));
    assert!(!same_text("rs", "RS"));
    assert!(!same_text("", "a"));
}

#[test]
fn begins_with_by_example() {
    assert!(begins_with(".git", "."));
    assert!(begins_with(".", "."));
    assert!(begins_with("a", ""));
    assert!(!begins_with("", "."));
    assert!(!begins_with("a.b", "."));
}
