use linecount::classify::{
    classify_line, classify_lines, count_code, count_code_lines, CommentGrammar,
    LineClassification,
};

fn slashes() -> CommentGrammar {
    CommentGrammar::new("//", "/*", "*/").unwrap()
}

#[test]
fn block_and_line_comments_leave_one_line() {
    assert_eq!(
        count_code_lines("// a\n// b\n// c\n/*\nx\ny\nz\n*/\nHi", &slashes()),
        1
    );
}

#[test]
fn empty_text_has_no_code() {
    assert_eq!(count_code_lines("", &slashes()), 0);
    assert_eq!(classify_lines("", &slashes()), Vec::new());
}

#[test]
fn orphaned_closer_counts_as_code() {
    assert_eq!(count_code_lines("*/", &slashes()), 1);
    assert_eq!(count_code_lines("*/\ncode", &slashes()), 2);
    assert_eq!(count_code_lines("a */ b\n*/\n*/", &slashes()), 3);
    assert_eq!(count_code(&[LineClassification::BlockClose]), 1);
    assert_eq!(
        count_code(&[
            LineClassification::BlockClose,
            LineClassification::BlockOpen,
            LineClassification::Code,
            LineClassification::BlockClose,
            LineClassification::BlockClose,
            LineClassification::Code,
        ]),
        3
    );
}

#[test]
fn text_without_markers_counts_every_line() {
    assert_eq!(count_code_lines("a\n\nb\n", &slashes()), 3);
    assert_eq!(count_code_lines("one", &slashes()), 1);
    assert_eq!(count_code_lines("\n", &slashes()), 1);
    assert_eq!(count_code_lines("\n\n\n", &slashes()), 3);
    assert_eq!(count_code_lines("a / b * c", &slashes()), 1);
}

#[test]
fn text_of_line_comments_has_no_code() {
    assert_eq!(count_code_lines("// a\n  // b\n//c\n\t//", &slashes()), 0);
}

#[test]
fn line_comments_do_not_move_the_count() {
    let g = slashes();
    assert_eq!(count_code_lines("x\ny\nz", &g), 3);
    assert_eq!(count_code_lines("// c\nx\ny\nz", &g), 3);
    assert_eq!(count_code_lines("x\n// c\ny\n// d\nz", &g), 3);
    assert_eq!(count_code_lines("x\ny\nz\n// c\n// d\n// e", &g), 3);
}

#[test]
fn classifying_twice_gives_the_same() {
    let g = slashes();
    let text = "a\n/*\nb\n*/\nc // d\n// e";
    assert_eq!(count_code_lines(text, &g), count_code_lines(text, &g));
    assert_eq!(count_code_lines(text, &g), 2);
    assert_eq!(classify_lines(text, &g), classify_lines(text, &g));
}

#[test]
fn line_prefix_is_tried_first() {
    let g = slashes();
    assert_eq!(classify_line("// */", &g), LineClassification::LineComment);
    assert_eq!(classify_line("///* x", &g), LineClassification::LineComment);
    assert_eq!(count_code_lines("/*\n// */\ncode\n*/\nafter", &g), 1);
}

#[test]
fn opener_and_closer_on_one_line_only_open() {
    let g = slashes();
    assert_eq!(classify_line("/* comment */", &g), LineClassification::BlockOpen);
    assert_eq!(count_code_lines("/* comment */\ncode", &g), 0);
    assert_eq!(count_code_lines("/* comment */\ncode\n*/\ncode", &g), 1);
}

#[test]
fn unterminated_block_hides_the_rest() {
    assert_eq!(count_code_lines("a\n/*\nb\nc", &slashes()), 1);
}

#[test]
fn blocks_do_not_nest() {
    assert_eq!(count_code_lines("/*\n/*\n*/\ncode", &slashes()), 1);
}

#[test]
fn classes_of_single_lines() {
    let g = slashes();
    assert_eq!(classify_line("let a = 1;", &g), LineClassification::Code);
    assert_eq!(classify_line("", &g), LineClassification::Code);
    assert_eq!(classify_line("   ", &g), LineClassification::Code);
    assert_eq!(classify_line("a // b", &g), LineClassification::Code);
    assert_eq!(classify_line("a /* b", &g), LineClassification::Code);
    assert_eq!(classify_line("  \t// b  ", &g), LineClassification::LineComment);
    assert_eq!(classify_line("\u{3000}/* b", &g), LineClassification::BlockOpen);
    assert_eq!(classify_line("b */", &g), LineClassification::BlockClose);
    assert_eq!(classify_line("*/ b", &g), LineClassification::BlockClose);
    assert_eq!(classify_line("a */ b", &g), LineClassification::BlockClose);
    assert_eq!(classify_line("/", &g), LineClassification::Code);
    assert_eq!(classify_line("*", &g), LineClassification::Code);
}

#[test]
fn classes_of_a_text() {
    assert_eq!(
        classify_lines("// a\n/*\nx\n*/\nHi\n", &slashes()),
        vec![
            LineClassification::LineComment,
            LineClassification::BlockOpen,
            LineClassification::Code,
            LineClassification::BlockClose,
            LineClassification::Code,
        ]
    );
}

#[test]
fn lines_are_trimmed_before_matching() {
    assert_eq!(count_code_lines("   // indented\n\tcode\t\n", &slashes()), 1);
    assert_eq!(count_code_lines("a\r\n// b\r\n", &slashes()), 1);
    assert_eq!(count_code_lines("\u{a0}\u{2003}// b\u{85}", &slashes()), 0);
}

#[test]
fn a_marker_may_hold_white_space() {
    let g = CommentGrammar::new("REM ", "(*", "*)").unwrap();
    assert_eq!(classify_line("REM note", &g), LineClassification::LineComment);
    assert_eq!(classify_line("REM", &g), LineClassification::Code);
    assert_eq!(classify_line("REMARK", &g), LineClassification::Code);
    assert_eq!(count_code_lines("REM a\n(*\nb\n*)\nc", &g), 1);
}

#[test]
fn same_opener_and_closer_never_close_at_line_start() {
    let g = CommentGrammar::new("#", "\"\"\"", "\"\"\"").unwrap();
    assert_eq!(
        count_code_lines("# Hello\n\"\"\"\nMultiline\n\"\"\"\nprint(1)", &g),
        0
    );
    assert_eq!(
        count_code_lines("# Hello\n\"\"\"\nMultiline\nEnd \"\"\"\nprint(1)", &g),
        1
    );
}

#[test]
fn grammar_needs_three_markers() {
    assert!(CommentGrammar::new("", "/*", "*/").is_none());
    assert!(CommentGrammar::new("//", "", "*/").is_none());
    assert!(CommentGrammar::new("//", "/*", "").is_none());
    assert!(CommentGrammar::new("", "", "").is_none());
    let g = CommentGrammar::new("--", "{-", "-}").unwrap();
    assert_eq!(g.line_prefix(), "--");
    assert_eq!(g.block_open(), "{-");
    assert_eq!(g.block_close(), "-}");
}

#[test]
fn count_code_follows_the_classes() {
    assert_eq!(count_code(&[]), 0);
    assert_eq!(
        count_code(&[LineClassification::Code, LineClassification::Code]),
        2
    );
    assert_eq!(
        count_code(&[
            LineClassification::BlockOpen,
            LineClassification::Code,
            LineClassification::LineComment,
            LineClassification::Code,
        ]),
        0
    );
    assert_eq!(
        count_code(&[
            LineClassification::Code,
            LineClassification::BlockOpen,
            LineClassification::BlockOpen,
            LineClassification::BlockClose,
            LineClassification::Code,
            LineClassification::LineComment,
        ]),
        2
    );
}

#[test]
fn a_line_comment_put_in_at_any_line_start_changes_nothing() {
    let g = slashes();
    let text = "a\n/*\nb\n*/\nc\n*/\nd\n";
    let count = count_code_lines(text, &g);
    assert_eq!(count, 4);
    let mut starts = vec![0];
    for (i, c) in text.char_indices() {
        if c == '\n' {
            starts.push(i + 1);
        }
    }
    assert_eq!(starts.len(), 8);
    for at in starts {
        let mut longer = String::from(&text[..at]);
        longer.push_str("  // note */\n");
        longer.push_str(&text[at..]);
        assert_eq!(count_code_lines(&longer, &g), count);
    }
}
