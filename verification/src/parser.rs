//! Counting by extension: the family of languages that a file belongs to
//! gives the comment markers, and the line classifier counts with them.

use crate::classify::{code_line_count, count_code_lines, CommentGrammar, Markers};
use crate::text::same_text;
use vstd::prelude::*;

verus! {

/// How the comments of a family of languages are written.
#[derive(Clone, Copy, Debug, PartialEq, Eq, Structural)]
pub enum Linearizator {
    /// Languages with `//` and `/* */` comments.
    Default,
    /// Python.
    Python,
}

/// The family that files ending in `extension` belong to, if any.
pub open spec fn linearizator_for(extension: Seq<char>) -> Option<Linearizator> {
    if extension == "rs"@ || extension == "c"@ || extension == "cpp"@ || extension == "cxx"@
        || extension == "js"@ || extension == "ts"@ || extension == "jsx"@ || extension == "ejs"@
        || extension == "java"@ || extension == "go"@ {
        Some(Linearizator::Default)
    } else if extension == "py"@ || extension == "pyc"@ || extension == "pyx"@ {
        Some(Linearizator::Python)
    } else {
        None
    }
}

impl Linearizator {
    /// The comment markers of this family.
    pub open spec fn markers(self) -> Markers {
        match self {
            Linearizator::Default => Markers {
                line_prefix: "//"@,
                block_open: "/*"@,
                block_close: "*/"@,
            },
            Linearizator::Python => Markers {
                line_prefix: "#"@,
                block_open: r#"""""#@,
                block_close: r#"""""#@,
            },
        }
    }

    /// The comment markers of this family. Python opens and closes a block
    /// with one and the same marker, so a closer that begins its line reads
    /// as an opener.
    pub fn get_comments(&self) -> (grammar: CommentGrammar)
        ensures
            grammar@ == self.markers(),
    {
        proof {
            reveal_strlit("//");
            reveal_strlit("/*");
            reveal_strlit("*/");
            reveal_strlit("#");
            reveal_strlit(r#"""""#);
        }
        let made = match self {
            Linearizator::Default => CommentGrammar::new("//", "/*", "*/"),
            Linearizator::Python => CommentGrammar::new("#", r#"""""#, r#"""""#),
        };
        made.unwrap()
    }

    /// The lines of code of `input` under the markers of this family.
    pub fn count_lines(&self, input: String) -> (n: usize)
        ensures
            n == code_line_count(input@, self.markers()),
    {
        let grammar = self.get_comments();
        count_code_lines(input.as_str(), &grammar)
    }
}

/// The family that files ending in `extension` belong to, if any.
pub fn linearizator(extension: &str) -> (family: Option<Linearizator>)
    ensures
        family == linearizator_for(extension@),
{
    if same_text(extension, "rs") || same_text(extension, "c") || same_text(extension, "cpp")
        || same_text(extension, "cxx") || same_text(extension, "js") || same_text(extension, "ts")
        || same_text(extension, "jsx") || same_text(extension, "ejs") || same_text(
        extension,
        "java",
    ) || same_text(extension, "go") {
        Some(Linearizator::Default)
    } else if same_text(extension, "py") || same_text(extension, "pyc") || same_text(
        extension,
        "pyx",
    ) {
        Some(Linearizator::Python)
    } else {
        None
    }
}

/// The lines of code that a file of this extension has where `input` is its
/// text: those under the markers of its family, and none for an extension of
/// no family.
pub open spec fn code_lines_of(input: Seq<char>, extension: Seq<char>) -> nat {
    match linearizator_for(extension) {
        Some(family) => code_line_count(input, family.markers()),
        None => 0,
    }
}

/// The lines of code of `input`, the text of a file that ends in
/// `extension`; 0 for an extension of no family.
pub fn lines_of_code(input: String, extension: &str) -> (n: usize)
    ensures
        n == code_lines_of(input@, extension@),
{
    if let Some(ltor) = linearizator(extension) {
        ltor.count_lines(input)
    } else {
        0
    }
}

/// What a file comes to, from what reading it gave: `content` is its text,
/// or `None` where it could not be read as text, and `extension` the
/// extension of its name, or `None` where it has none that is text. A file
/// that could not be read has no count; an empty file has 0 lines; a file
/// without extension has no count; any other file has the lines of code of
/// its text.
pub open spec fn parsed(content: Option<Seq<char>>, extension: Option<Seq<char>>) -> Option<nat> {
    match content {
        None => None,
        Some(text) => if text.len() == 0 {
            Some(0)
        } else {
            match extension {
                None => None,
                Some(ext) => Some(code_lines_of(text, ext)),
            }
        },
    }
}

/// The characters of a string that may be absent.
pub open spec fn text_of(s: Option<String>) -> Option<Seq<char>> {
    match s {
        Some(s) => Some(s@),
        None => None,
    }
}

/// The characters of a string slice that may be absent.
pub open spec fn slice_text_of(s: Option<&str>) -> Option<Seq<char>> {
    match s {
        Some(s) => Some(s@),
        None => None,
    }
}

/// The lines of code of a file, from what reading it gave: see `parsed`.
pub fn parse_file(content: Option<String>, extension: Option<&str>) -> (n: Option<usize>)
    ensures
        n is Some <==> parsed(text_of(content), slice_text_of(extension)) is Some,
        n matches Some(k) ==> parsed(text_of(content), slice_text_of(extension)) == Some(k as nat),
{
    let text = match content {
        Some(text) => text,
        None => {
            return None;
        },
    };
    if text.as_str().is_empty() {
        return Some(0);
    }
    match extension {
        Some(ext) => Some(lines_of_code(text, ext)),
        None => None,
    }
}

} // verus!
