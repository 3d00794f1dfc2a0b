//! Characters, white space and physical lines.
//!
//! Everything here works on sequences of characters. A text is cut into
//! physical lines at each line feed; a line feed that ends the text does not
//! start a further, empty line.

use vstd::prelude::*;

verus! {

/// Whether `c` is white space: the characters with the Unicode property
/// `White_Space`.
pub open spec fn is_space(c: char) -> bool {
    let n = c as u32;
    ||| 0x09 <= n <= 0x0D
    ||| n == 0x20
    ||| n == 0x85
    ||| n == 0xA0
    ||| n == 0x1680
    ||| 0x2000 <= n <= 0x200A
    ||| n == 0x2028
    ||| n == 0x2029
    ||| n == 0x202F
    ||| n == 0x205F
    ||| n == 0x3000
}

/// `s` without the white space it begins with.
pub open spec fn trimmed_start(s: Seq<char>) -> Seq<char>
    decreases s.len(),
{
    if s.len() > 0 && is_space(s.first()) {
        trimmed_start(s.drop_first())
    } else {
        s
    }
}

/// `s` without the white space it ends with.
pub open spec fn trimmed_end(s: Seq<char>) -> Seq<char>
    decreases s.len(),
{
    if s.len() > 0 && is_space(s.last()) {
        trimmed_end(s.drop_last())
    } else {
        s
    }
}

/// `s` without the white space at either end.
pub open spec fn trimmed(s: Seq<char>) -> Seq<char> {
    trimmed_end(trimmed_start(s))
}

/// Whether `needle` stands in `hay` at position `at`.
pub open spec fn occurs_at(hay: Seq<char>, needle: Seq<char>, at: int) -> bool {
    &&& 0 <= at
    &&& at + needle.len() <= hay.len()
    &&& hay.subrange(at, at + needle.len()) == needle
}

/// Whether `needle` stands somewhere in `hay`.
pub open spec fn has_infix(hay: Seq<char>, needle: Seq<char>) -> bool {
    exists|at: int| occurs_at(hay, needle, at)
}

/// The position of the first line feed of `s` at or after `from`, or the
/// length of `s` where there is none.
pub open spec fn line_end(s: Seq<char>, from: int) -> int
    decreases s.len() - from,
{
    if from < 0 || from >= s.len() {
        s.len() as int
    } else if s[from] == '\n' {
        from
    } else {
        line_end(s, from + 1)
    }
}

/// The line of `s` that begins at `from` ends at or after `from`, inside `s`,
/// and holds no line feed.
pub proof fn lemma_line_end(s: Seq<char>, from: int)
    requires
        0 <= from <= s.len(),
    ensures
        from <= line_end(s, from) <= s.len(),
        line_end(s, from) < s.len() ==> s[line_end(s, from)] == '\n',
        forall|i: int| from <= i < line_end(s, from) ==> s[i] != '\n',
    decreases s.len() - from,
{
    if from < s.len() && s[from] != '\n' {
        lemma_line_end(s, from + 1);
    }
}

/// The physical lines of `s` from position `from` on, each without its line
/// feed.
pub open spec fn lines_from(s: Seq<char>, from: int) -> Seq<Seq<char>>
    decreases s.len() - from,
{
    if from < 0 || from >= s.len() {
        Seq::empty()
    } else if line_end(s, from) >= s.len() {
        seq![s.subrange(from, s.len() as int)]
    } else {
        proof {
            lemma_line_end(s, from);
        }
        seq![s.subrange(from, line_end(s, from))] + lines_from(s, line_end(s, from) + 1)
    }
}

/// The physical lines of `s`.
pub open spec fn split_lines(s: Seq<char>) -> Seq<Seq<char>> {
    lines_from(s, 0)
}

/// The number of physical lines of `s`.
pub open spec fn line_count(s: Seq<char>) -> nat {
    split_lines(s).len()
}

/// A line feed before which, from `from` on, there is none, is where the line
/// that begins at `from` ends.
pub proof fn lemma_line_end_is(s: Seq<char>, from: int, end: int)
    requires
        0 <= from <= end < s.len(),
        s[end] == '\n',
        forall|i: int| from <= i < end ==> s[i] != '\n',
    ensures
        line_end(s, from) == end,
    decreases end - from,
{
    if from < end {
        lemma_line_end_is(s, from + 1, end);
    }
}

/// In a text that ends in a line feed, and is followed by another, every line
/// ends where it ends in the text alone.
proof fn lemma_line_end_in_front(a: Seq<char>, b: Seq<char>, from: int)
    requires
        0 <= from < a.len(),
        a.last() == '\n',
    ensures
        line_end(a + b, from) == line_end(a, from),
        line_end(a, from) < a.len(),
    decreases a.len() - from,
{
    if a[from] != '\n' {
        lemma_line_end_in_front(a, b, from + 1);
    }
}

/// In a text that follows another, every line ends where it ends in the text
/// alone, moved by the length of the other.
proof fn lemma_line_end_behind(a: Seq<char>, b: Seq<char>, from: int)
    requires
        0 <= from <= b.len(),
    ensures
        line_end(a + b, a.len() + from) == a.len() + line_end(b, from),
    decreases b.len() - from,
{
    if from < b.len() && b[from] != '\n' {
        lemma_line_end_behind(a, b, from + 1);
    }
}

/// The lines of a text that follows another are its lines alone.
proof fn lemma_lines_from_behind(a: Seq<char>, b: Seq<char>, from: int)
    requires
        0 <= from <= b.len(),
    ensures
        lines_from(a + b, a.len() + from) == lines_from(b, from),
    decreases b.len() - from,
{
    if from < b.len() {
        lemma_line_end_behind(a, b, from);
        lemma_line_end(b, from);
        let end = line_end(b, from);
        assert((a + b).subrange(a.len() + from, a.len() + end) == b.subrange(from, end));
        if end < b.len() {
            lemma_lines_from_behind(a, b, end + 1);
        }
    }
}

/// The lines of a text that ends in a line feed, followed by another text,
/// are the lines of the one and then the lines of the other.
proof fn lemma_lines_from_in_front(a: Seq<char>, b: Seq<char>, from: int)
    requires
        0 <= from <= a.len(),
        a.len() == 0 || a.last() == '\n',
    ensures
        lines_from(a + b, from) == lines_from(a, from) + lines_from(b, 0),
    decreases a.len() - from,
{
    if from == a.len() {
        lemma_lines_from_behind(a, b, 0);
        assert(lines_from(a, from) + lines_from(b, 0) == lines_from(b, 0));
    } else {
        lemma_line_end_in_front(a, b, from);
        lemma_line_end(a, from);
        let end = line_end(a, from);
        assert((a + b).subrange(from, end) == a.subrange(from, end));
        lemma_lines_from_in_front(a, b, end + 1);
        let line = seq![a.subrange(from, end)];
        assert(line + (lines_from(a, end + 1) + lines_from(b, 0)) == (line + lines_from(
            a,
            end + 1,
        )) + lines_from(b, 0));
    }
}

/// The lines of two texts, one after the other, are the lines of the one and
/// then the lines of the other, where the first is empty or ends in a line
/// feed.
pub proof fn lemma_split_lines_concat(a: Seq<char>, b: Seq<char>)
    requires
        a.len() == 0 || a.last() == '\n',
    ensures
        split_lines(a + b) == split_lines(a) + split_lines(b),
{
    lemma_lines_from_in_front(a, b, 0);
}

/// A piece of text without line feed, with a line feed after it, is one
/// line.
pub proof fn lemma_split_lines_of_line(line: Seq<char>)
    requires
        forall|i: int| 0 <= i < line.len() ==> line[i] != '\n',
    ensures
        split_lines(line.push('\n')) == seq![line],
{
    let text = line.push('\n');
    lemma_line_end_is(text, 0, line.len() as int);
    assert(text.subrange(0, line.len() as int) == line);
    assert(lines_from(text, (line.len() + 1) as int) == Seq::<Seq<char>>::empty());
    assert(seq![line] + Seq::<Seq<char>>::empty() == seq![line]);
}

/// The characters of `s`, in order.
pub fn chars_of(s: &str) -> (out: Vec<char>)
    ensures
        out@ == s@,
{
    let mut out: Vec<char> = Vec::new();
    for c in it: s.chars()
        invariant
            out@ == it.seq().take(it.index() as int),
            it.seq() == s@,
    {
        out.push(c);
    }
    out
}

/// Whether `c` is white space.
pub fn is_whitespace(c: char) -> (r: bool)
    ensures
        r == is_space(c),
{
    let n: u32 = c as u32;
    (0x09 <= n && n <= 0x0D) || n == 0x20 || n == 0x85 || n == 0xA0 || n == 0x1680 || (0x2000 <= n
        && n <= 0x200A) || n == 0x2028 || n == 0x2029 || n == 0x202F || n == 0x205F || n == 0x3000
}

/// `line` without the white space at either end.
pub fn trim(line: &[char]) -> (out: &[char])
    ensures
        out@ == trimmed(line@),
{
    let mut start: usize = 0;
    proof {
        assert(line@.subrange(0, line.len() as int) == line@);
    }
    while start < line.len() && is_whitespace(line[start])
        invariant
            start <= line.len(),
            trimmed_start(line@) == trimmed_start(line@.subrange(start as int, line.len() as int)),
        decreases line.len() - start,
    {
        proof {
            let rest = line@.subrange(start as int, line.len() as int);
            assert(rest.drop_first() == line@.subrange(start + 1, line.len() as int));
        }
        start += 1;
    }
    let mut end: usize = line.len();
    while end > start && is_whitespace(line[end - 1])
        invariant
            start <= end <= line.len(),
            trimmed_start(line@) == line@.subrange(start as int, line.len() as int),
            trimmed(line@) == trimmed_end(line@.subrange(start as int, end as int)),
        decreases end - start,
    {
        proof {
            let rest = line@.subrange(start as int, end as int);
            assert(rest.drop_last() == line@.subrange(start as int, end - 1));
        }
        end -= 1;
    }
    vstd::slice::slice_subrange(line, start, end)
}

/// Whether `line` begins with `prefix`.
pub fn starts_with(line: &[char], prefix: &[char]) -> (r: bool)
    ensures
        r == prefix@.is_prefix_of(line@),
{
    if prefix.len() > line.len() {
        return false;
    }
    let mut i: usize = 0;
    while i < prefix.len()
        invariant
            i <= prefix.len() <= line.len(),
            forall|k: int| 0 <= k < i ==> line@[k] == prefix@[k],
        decreases prefix.len() - i,
    {
        if line[i] != prefix[i] {
            return false;
        }
        i += 1;
    }
    true
}

/// Whether `needle` stands in `hay` at position `at`.
fn matches_at(hay: &[char], needle: &[char], at: usize) -> (r: bool)
    requires
        at + needle.len() <= hay.len(),
    ensures
        r == occurs_at(hay@, needle@, at as int),
{
    let mut i: usize = 0;
    while i < needle.len()
        invariant
            i <= needle.len(),
            at + needle.len() <= hay.len(),
            forall|k: int| 0 <= k < i ==> hay@[at + k] == needle@[k],
        decreases needle.len() - i,
    {
        if hay[at + i] != needle[i] {
            return false;
        }
        i += 1;
    }
    proof {
        assert(hay@.subrange(at as int, at + needle.len()) =~= needle@);
    }
    true
}

/// Whether `needle` stands somewhere in `hay`.
pub fn contains(hay: &[char], needle: &[char]) -> (r: bool)
    ensures
        r == has_infix(hay@, needle@),
{
    if needle.len() > hay.len() {
        return false;
    }
    let last: usize = hay.len() - needle.len();
    let mut at: usize = 0;
    loop
        invariant
            at <= last,
            last + needle.len() == hay.len(),
            forall|k: int| 0 <= k < at ==> !occurs_at(hay@, needle@, k),
        decreases last - at,
    {
        if matches_at(hay, needle, at) {
            return true;
        }
        if at == last {
            return false;
        }
        at += 1;
    }
}

/// The position of the first line feed of `text` at or after `from`, or the
/// length of `text` where there is none.
pub fn find_line_end(text: &[char], from: usize) -> (end: usize)
    ensures
        end == line_end(text@, from as int),
        from <= text.len() ==> from <= end <= text.len(),
{
    let mut end: usize = from;
    while end < text.len() && text[end] != '\n'
        invariant
            from <= end,
            end <= text.len() || end == from,
            line_end(text@, from as int) == line_end(text@, end as int),
        decreases text.len() - end,
    {
        end += 1;
    }
    if end > text.len() {
        text.len()
    } else {
        end
    }
}

/// The number of physical lines of `text`.
pub fn count_lines(text: &[char]) -> (n: usize)
    ensures
        n == line_count(text@),
{
    let mut n: usize = 0;
    let mut from: usize = 0;
    while from < text.len()
        invariant
            from <= text.len(),
            n <= from,
            line_count(text@) == n + lines_from(text@, from as int).len(),
        decreases text.len() - from,
    {
        let end = find_line_end(text, from);
        n += 1;
        if end == text.len() {
            from = end;
        } else {
            from = end + 1;
        }
    }
    n
}

/// Whether `a` and `b` hold the same characters.
pub fn same_text(a: &str, b: &str) -> (same: bool)
    ensures
        same == (a@ == b@),
{
    let x = a.as_bytes();
    let y = b.as_bytes();
    proof {
        vstd::utf8::encode_utf8_decode_utf8(a@);
        vstd::utf8::encode_utf8_decode_utf8(b@);
    }
    if x.len() != y.len() {
        return false;
    }
    let mut i: usize = 0;
    while i < x.len()
        invariant
            i <= x.len() == y.len(),
            x@ == vstd::utf8::encode_utf8(a@),
            y@ == vstd::utf8::encode_utf8(b@),
            forall|k: int| 0 <= k < i ==> x@[k] == y@[k],
        decreases x.len() - i,
    {
        if x[i] != y[i] {
            return false;
        }
        i += 1;
    }
    proof {
        assert(x@ =~= y@);
    }
    true
}

/// Whether `text` begins with `prefix`.
pub fn begins_with(text: &str, prefix: &str) -> (r: bool)
    ensures
        r == prefix@.is_prefix_of(text@),
{
    let chars = chars_of(text);
    let first = chars_of(prefix);
    starts_with(chars.as_slice(), first.as_slice())
}

} // verus!
