//! The line classifier: which physical lines of a text are code.
//!
//! A line is judged by its first marker alone, after trimming: a line that
//! begins with the block opener is an opener even when the closer follows on
//! the same line, and blocks do not nest. A block closer met outside any block
//! cannot end anything, so its line counts as code.

use crate::text::{
    chars_of, contains, find_line_end, has_infix, is_space, lemma_line_end,
    lemma_split_lines_concat, lemma_split_lines_of_line, line_count, line_end, lines_from,
    occurs_at, split_lines, starts_with, trim, trimmed, trimmed_end, trimmed_start,
};
use vstd::prelude::*;

verus! {

/// The comment markers of one language, as sequences of characters.
pub struct Markers {
    pub line_prefix: Seq<char>,
    pub block_open: Seq<char>,
    pub block_close: Seq<char>,
}

/// The comment markers of one language. None of the three is empty.
pub struct CommentGrammar {
    line_prefix: String,
    block_open: String,
    block_close: String,
}

impl View for CommentGrammar {
    type V = Markers;

    closed spec fn view(&self) -> Markers {
        Markers {
            line_prefix: self.line_prefix@,
            block_open: self.block_open@,
            block_close: self.block_close@,
        }
    }
}

/// What one physical line is to the counter.
#[derive(Clone, Copy, Debug, PartialEq, Eq, Structural)]
pub enum LineClassification {
    LineComment,
    BlockOpen,
    BlockClose,
    Code,
}

/// The class of `line` under the markers `m`. The line is trimmed first; the
/// line prefix is tried before the block opener, and the block closer, which
/// may stand anywhere in the line, last.
pub open spec fn classify(line: Seq<char>, m: Markers) -> LineClassification {
    let t = trimmed(line);
    if m.line_prefix.is_prefix_of(t) {
        LineClassification::LineComment
    } else if m.block_open.is_prefix_of(t) {
        LineClassification::BlockOpen
    } else if has_infix(t, m.block_close) {
        LineClassification::BlockClose
    } else {
        LineClassification::Code
    }
}

/// The classes of `lines`, line by line.
pub open spec fn classify_all(lines: Seq<Seq<char>>, m: Markers) -> Seq<LineClassification> {
    Seq::new(lines.len(), |i: int| classify(lines[i], m))
}

/// Whether a line of class `class` counts as code when the counter is inside
/// a block comment or not.
pub open spec fn is_counted(class: LineClassification, inside: bool) -> bool {
    match class {
        LineClassification::LineComment => false,
        LineClassification::BlockOpen => false,
        LineClassification::BlockClose => !inside,
        LineClassification::Code => !inside,
    }
}

/// Whether the counter is inside a block comment after a line of class
/// `class`.
pub open spec fn inside_after(class: LineClassification, inside: bool) -> bool {
    match class {
        LineClassification::LineComment => inside,
        LineClassification::BlockOpen => true,
        LineClassification::BlockClose => false,
        LineClassification::Code => inside,
    }
}

/// The number of lines among `classes` that count as code, for a counter that
/// starts inside a block comment or not.
pub open spec fn code_among(classes: Seq<LineClassification>, inside: bool) -> nat
    decreases classes.len(),
{
    if classes.len() == 0 {
        0
    } else {
        let here: nat = if is_counted(classes.first(), inside) {
            1
        } else {
            0
        };
        here + code_among(classes.drop_first(), inside_after(classes.first(), inside))
    }
}

/// The number of code lines of `text` under the markers `m`.
pub open spec fn code_line_count(text: Seq<char>, m: Markers) -> nat {
    code_among(classify_all(split_lines(text), m), false)
}

/// How often `class` stands in `classes`.
pub open spec fn occurrences(classes: Seq<LineClassification>, class: LineClassification) -> nat
    decreases classes.len(),
{
    if classes.len() == 0 {
        0
    } else {
        let here: nat = if classes.first() == class {
            1
        } else {
            0
        };
        here + occurrences(classes.drop_first(), class)
    }
}

impl CommentGrammar {
    #[verifier::type_invariant]
    closed spec fn markers_not_empty(&self) -> bool {
        &&& self.line_prefix@.len() > 0
        &&& self.block_open@.len() > 0
        &&& self.block_close@.len() > 0
    }

    /// The grammar with these three markers, unless one of them is empty.
    pub fn new(line_prefix: &str, block_open: &str, block_close: &str) -> (made: Option<
        CommentGrammar,
    >)
        ensures
            made is Some <==> line_prefix@.len() > 0 && block_open@.len() > 0 && block_close@.len()
                > 0,
            made matches Some(g) ==> g@ == (Markers {
                line_prefix: line_prefix@,
                block_open: block_open@,
                block_close: block_close@,
            }),
    {
        if line_prefix.is_empty() || block_open.is_empty() || block_close.is_empty() {
            None
        } else {
            Some(
                CommentGrammar {
                    line_prefix: line_prefix.to_owned(),
                    block_open: block_open.to_owned(),
                    block_close: block_close.to_owned(),
                },
            )
        }
    }

    /// The marker that begins a line comment.
    pub fn line_prefix(&self) -> (s: &str)
        ensures
            s@ == self@.line_prefix,
            s@.len() > 0,
    {
        proof {
            use_type_invariant(self);
        }
        self.line_prefix.as_str()
    }

    /// The marker that opens a block comment.
    pub fn block_open(&self) -> (s: &str)
        ensures
            s@ == self@.block_open,
            s@.len() > 0,
    {
        proof {
            use_type_invariant(self);
        }
        self.block_open.as_str()
    }

    /// The marker that closes a block comment.
    pub fn block_close(&self) -> (s: &str)
        ensures
            s@ == self@.block_close,
            s@.len() > 0,
    {
        proof {
            use_type_invariant(self);
        }
        self.block_close.as_str()
    }
}

/// The class of `line` under three markers given as characters.
fn classify_chars(line: &[char], line_prefix: &[char], block_open: &[char], block_close: &[char]) -> (class:
    LineClassification)
    ensures
        class == classify(
            line@,
            (Markers {
                line_prefix: line_prefix@,
                block_open: block_open@,
                block_close: block_close@,
            }),
        ),
{
    let t = trim(line);
    if starts_with(t, line_prefix) {
        LineClassification::LineComment
    } else if starts_with(t, block_open) {
        LineClassification::BlockOpen
    } else if contains(t, block_close) {
        LineClassification::BlockClose
    } else {
        LineClassification::Code
    }
}

/// The class of one line under `grammar`.
pub fn classify_line(line: &str, grammar: &CommentGrammar) -> (class: LineClassification)
    ensures
        class == classify(line@, grammar@),
{
    let chars = chars_of(line);
    let line_prefix = chars_of(grammar.line_prefix());
    let block_open = chars_of(grammar.block_open());
    let block_close = chars_of(grammar.block_close());
    classify_chars(
        chars.as_slice(),
        line_prefix.as_slice(),
        block_open.as_slice(),
        block_close.as_slice(),
    )
}

/// The classes of the physical lines of `text`, in order.
pub fn classify_lines(text: &str, grammar: &CommentGrammar) -> (classes: Vec<LineClassification>)
    ensures
        classes@ == classify_all(split_lines(text@), grammar@),
{
    let chars = chars_of(text);
    let line_prefix = chars_of(grammar.line_prefix());
    let block_open = chars_of(grammar.block_open());
    let block_close = chars_of(grammar.block_close());
    let text = chars.as_slice();
    let mut classes: Vec<LineClassification> = Vec::new();
    let mut from: usize = 0;
    while from < text.len()
        invariant
            from <= text.len(),
            line_prefix@ == grammar@.line_prefix,
            block_open@ == grammar@.block_open,
            block_close@ == grammar@.block_close,
            classify_all(split_lines(text@), grammar@) == classes@ + classify_all(
                lines_from(text@, from as int),
                grammar@,
            ),
        decreases text.len() - from,
    {
        let end = find_line_end(text, from);
        let line = vstd::slice::slice_subrange(text, from, end);
        let class = classify_chars(
            line,
            line_prefix.as_slice(),
            block_open.as_slice(),
            block_close.as_slice(),
        );
        proof {
            let next = if end == text.len() {
                end as int
            } else {
                end + 1
            };
            assert(lines_from(text@, from as int) == seq![line@] + lines_from(text@, next));
        }
        classes.push(class);
        if end == text.len() {
            from = end;
        } else {
            from = end + 1;
        }
    }
    classes
}

/// The number of lines among `classes` that count as code, for a counter that
/// starts outside any block comment.
pub fn count_code(classes: &[LineClassification]) -> (n: usize)
    ensures
        n == code_among(classes@, false),
{
    let mut n: usize = 0;
    let mut inside: bool = false;
    let mut i: usize = 0;
    proof {
        assert(classes@.skip(0) == classes@);
    }
    while i < classes.len()
        invariant
            i <= classes.len(),
            n <= i,
            code_among(classes@, false) == n + code_among(classes@.skip(i as int), inside),
        decreases classes.len() - i,
    {
        proof {
            assert(classes@.skip(i as int).drop_first() == classes@.skip(i + 1));
        }
        match classes[i] {
            LineClassification::LineComment => {},
            LineClassification::BlockOpen => {
                inside = true;
            },
            LineClassification::BlockClose => {
                if inside {
                    inside = false;
                } else {
                    n += 1;
                }
            },
            LineClassification::Code => {
                if !inside {
                    n += 1;
                }
            },
        }
        i += 1;
    }
    n
}

/// The number of code lines of `text` under `grammar`.
pub fn count_code_lines(text: &str, grammar: &CommentGrammar) -> (n: usize)
    ensures
        n == code_line_count(text@, grammar@),
{
    if text.is_empty() {
        return 0;
    }
    let classes = classify_lines(text, grammar);
    count_code(classes.as_slice())
}

/// Where every line is code, every line counts.
pub proof fn lemma_only_code(classes: Seq<LineClassification>)
    requires
        forall|i: int| 0 <= i < classes.len() ==> classes[i] == LineClassification::Code,
    ensures
        code_among(classes, false) == classes.len(),
    decreases classes.len(),
{
    if classes.len() > 0 {
        lemma_only_code(classes.drop_first());
    }
}

/// Where every line is a line comment, no line counts, inside a block comment
/// or not.
pub proof fn lemma_only_line_comments(classes: Seq<LineClassification>, inside: bool)
    requires
        forall|i: int| 0 <= i < classes.len() ==> classes[i] == LineClassification::LineComment,
    ensures
        code_among(classes, inside) == 0,
    decreases classes.len(),
{
    if classes.len() > 0 {
        lemma_only_line_comments(classes.drop_first(), inside);
    }
}

/// Where every line is code or a line comment, the lines that count are the
/// code lines, wherever the comments stand among them.
pub proof fn lemma_code_and_line_comments(classes: Seq<LineClassification>)
    requires
        forall|i: int|
            0 <= i < classes.len() ==> classes[i] == LineClassification::Code || classes[i]
                == LineClassification::LineComment,
    ensures
        code_among(classes, false) == occurrences(classes, LineClassification::Code),
    decreases classes.len(),
{
    if classes.len() > 0 {
        lemma_code_and_line_comments(classes.drop_first());
    }
}

/// A line comment put in at any place changes neither the count nor what
/// follows it.
pub proof fn lemma_line_comment_placement(
    classes: Seq<LineClassification>,
    at: int,
    inside: bool,
)
    requires
        0 <= at <= classes.len(),
    ensures
        code_among(classes.insert(at, LineClassification::LineComment), inside) == code_among(
            classes,
            inside,
        ),
    decreases classes.len(),
{
    let longer = classes.insert(at, LineClassification::LineComment);
    if at == 0 {
        assert(longer.drop_first() == classes);
    } else {
        assert(longer.drop_first() == classes.drop_first().insert(
            at - 1,
            LineClassification::LineComment,
        ));
        lemma_line_comment_placement(
            classes.drop_first(),
            at - 1,
            inside_after(classes.first(), inside),
        );
    }
}

/// A line comment put into a text as a line of its own, where a line begins
/// or after a last line feed, leaves the number of code lines as it was.
pub proof fn lemma_line_comment_inserted(
    text: Seq<char>,
    at: int,
    comment: Seq<char>,
    m: Markers,
)
    requires
        0 <= at <= text.len(),
        at == 0 || text[at - 1] == '\n',
        forall|i: int| 0 <= i < comment.len() ==> comment[i] != '\n',
        classify(comment, m) == LineClassification::LineComment,
    ensures
        code_line_count(
            text.subrange(0, at) + comment.push('\n') + text.subrange(at, text.len() as int),
            m,
        ) == code_line_count(text, m),
{
    let before = text.subrange(0, at);
    let after = text.subrange(at, text.len() as int);
    let line = comment.push('\n');
    assert(text == before + after);
    assert(before + line + after == before + (line + after));
    lemma_split_lines_concat(before, after);
    lemma_split_lines_concat(before, line + after);
    lemma_split_lines_concat(line, after);
    lemma_split_lines_of_line(comment);
    let head = classify_all(split_lines(before), m);
    let tail = classify_all(split_lines(after), m);
    assert(classify_all(split_lines(text), m) == head + tail);
    assert(classify_all(split_lines(before + line + after), m) == (head + tail).insert(
        head.len() as int,
        LineClassification::LineComment,
    ));
    lemma_line_comment_placement(head + tail, head.len() as int, false);
}

/// Trimming cuts a piece out of the line: the trimmed line is the part of `s`
/// between the two positions returned.
pub proof fn lemma_trimmed_bounds(s: Seq<char>) -> (cut: (int, int))
    ensures
        0 <= cut.0 <= cut.1 <= s.len(),
        trimmed(s) == s.subrange(cut.0, cut.1),
{
    let start = lemma_trimmed_start_bound(s);
    let tail = s.subrange(start, s.len() as int);
    let len = lemma_trimmed_end_bound(tail);
    (start, start + len)
}

proof fn lemma_trimmed_start_bound(s: Seq<char>) -> (start: int)
    ensures
        0 <= start <= s.len(),
        trimmed_start(s) == s.subrange(start, s.len() as int),
    decreases s.len(),
{
    if s.len() > 0 && is_space(s.first()) {
        let inner = lemma_trimmed_start_bound(s.drop_first());
        inner + 1
    } else {
        0
    }
}

proof fn lemma_trimmed_end_bound(s: Seq<char>) -> (end: int)
    ensures
        0 <= end <= s.len(),
        trimmed_end(s) == s.subrange(0, end),
    decreases s.len(),
{
    if s.len() > 0 && is_space(s.last()) {
        let inner = lemma_trimmed_end_bound(s.drop_last());
        inner
    } else {
        s.len() as int
    }
}

/// Each physical line is a piece of the text: line `k` from `from` on is the
/// part of `s` between the two positions returned.
pub proof fn lemma_line_bounds(s: Seq<char>, from: int, k: int) -> (cut: (int, int))
    requires
        0 <= from <= s.len(),
        0 <= k < lines_from(s, from).len(),
    ensures
        from <= cut.0 <= cut.1 <= s.len(),
        lines_from(s, from)[k] == s.subrange(cut.0, cut.1),
    decreases s.len() - from,
{
    lemma_line_end(s, from);
    let end = line_end(s, from);
    if k == 0 {
        (from, end)
    } else {
        lemma_line_bounds(s, end + 1, k - 1)
    }
}

/// What stands in a piece of a text stands in the text.
pub proof fn lemma_infix_of_piece(s: Seq<char>, from: int, to: int, needle: Seq<char>)
    requires
        0 <= from <= to <= s.len(),
        has_infix(s.subrange(from, to), needle),
    ensures
        has_infix(s, needle),
{
    let piece = s.subrange(from, to);
    let at = choose|at: int| occurs_at(piece, needle, at);
    assert(piece.subrange(at, at + needle.len()) == s.subrange(from + at, from + at + needle.len()));
    assert(occurs_at(s, needle, from + at));
}

/// A line of a text in which a marker stands nowhere is not marked by it.
proof fn lemma_line_without_marker(text: Seq<char>, k: int, marker: Seq<char>)
    requires
        0 <= k < split_lines(text).len(),
        !has_infix(text, marker),
    ensures
        !marker.is_prefix_of(trimmed(split_lines(text)[k])),
        !has_infix(trimmed(split_lines(text)[k]), marker),
{
    let line = split_lines(text)[k];
    let cut = lemma_line_bounds(text, 0, k);
    let inner = lemma_trimmed_bounds(line);
    let t = trimmed(line);
    assert(t == text.subrange(cut.0 + inner.0, cut.0 + inner.1));
    if marker.is_prefix_of(t) {
        assert(occurs_at(t, marker, 0));
    }
    if has_infix(t, marker) {
        lemma_infix_of_piece(text, cut.0 + inner.0, cut.0 + inner.1, marker);
    }
}

/// In a text that holds none of the three markers every physical line is
/// code: the count is the number of lines.
pub proof fn lemma_text_without_markers(text: Seq<char>, m: Markers)
    requires
        !has_infix(text, m.line_prefix),
        !has_infix(text, m.block_open),
        !has_infix(text, m.block_close),
    ensures
        code_line_count(text, m) == line_count(text),
{
    let classes = classify_all(split_lines(text), m);
    assert forall|i: int| 0 <= i < classes.len() implies classes[i]
        == LineClassification::Code by {
        lemma_line_without_marker(text, i, m.line_prefix);
        lemma_line_without_marker(text, i, m.block_open);
        lemma_line_without_marker(text, i, m.block_close);
    }
    lemma_only_code(classes);
}

/// A text whose every line, once trimmed, begins with the line prefix has no
/// code line.
pub proof fn lemma_text_of_line_comments(text: Seq<char>, m: Markers)
    requires
        forall|i: int|
            0 <= i < line_count(text) ==> m.line_prefix.is_prefix_of(
                trimmed(#[trigger] split_lines(text)[i]),
            ),
    ensures
        code_line_count(text, m) == 0,
{
    let classes = classify_all(split_lines(text), m);
    assert forall|i: int| 0 <= i < classes.len() implies classes[i]
        == LineClassification::LineComment by {
        assert(m.line_prefix.is_prefix_of(trimmed(split_lines(text)[i])));
    }
    lemma_only_line_comments(classes, false);
}

/// In a text made of code lines and line comments alone, the count is the
/// number of code lines, wherever the comments stand among them.
pub proof fn lemma_text_of_code_and_line_comments(text: Seq<char>, m: Markers)
    requires
        forall|i: int|
            0 <= i < line_count(text) ==> classify(#[trigger] split_lines(text)[i], m)
                == LineClassification::Code || classify(split_lines(text)[i], m)
                == LineClassification::LineComment,
    ensures
        code_line_count(text, m) == occurrences(
            classify_all(split_lines(text), m),
            LineClassification::Code,
        ),
{
    let classes = classify_all(split_lines(text), m);
    assert forall|i: int| 0 <= i < classes.len() implies classes[i] == LineClassification::Code
        || classes[i] == LineClassification::LineComment by {
        assert(classes[i] == classify(split_lines(text)[i], m));
    }
    lemma_code_and_line_comments(classes);
}

/// Counting keeps no state: texts with the same characters, under grammars
/// with the same markers, have the same number of code lines.
pub proof fn lemma_count_is_repeatable(
    first: &str,
    second: &str,
    g: &CommentGrammar,
    h: &CommentGrammar,
)
    requires
        first@ == second@,
        g@ == h@,
    ensures
        code_line_count(first@, g@) == code_line_count(second@, h@),
{
}

} // verus!
