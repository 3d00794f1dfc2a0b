//! Names: the language that a file extension stands for, and the directories
//! that hold no source of the project itself.

use crate::text::{begins_with, same_text};
use vstd::prelude::*;

verus! {

/// The name of the language whose files end in `extension`; `Unknown` for
/// any other extension.
pub open spec fn language_name(extension: Seq<char>) -> Seq<char> {
    if extension == "rs"@ {
        "Rust"@
    } else if extension == "c"@ {
        "C"@
    } else if extension == "cpp"@ || extension == "cxx"@ || extension == "c++"@ {
        "C++"@
    } else if extension == "py"@ {
        "Python"@
    } else if extension == "js"@ || extension == "jsx"@ || extension == "ejs"@ {
        "Javascript"@
    } else if extension == "ts"@ {
        "Typescript"@
    } else if extension == "html"@ {
        "HTML"@
    } else if extension == "css"@ {
        "css"@
    } else if extension == "java"@ {
        "Java"@
    } else if extension == "go"@ {
        "Golang"@
    } else {
        "Unknown"@
    }
}

/// Whether a directory entry of this name is left out of the search: a
/// hidden one (its name begins with a dot, and is more than the dot), or one
/// of the directories that build tools fill.
pub open spec fn is_skipped(name: Seq<char>) -> bool {
    ||| "."@.is_prefix_of(name) && name != "."@
    ||| name == "target"@
    ||| name == "node_modules"@
    ||| name == "build"@
    ||| name == "out"@
}

/// The name of the language whose files end in `extension`; `Unknown` for
/// any other extension.
pub fn get_language_name<'a>(extension: &'a str) -> (name: &'a str)
    ensures
        name@ == language_name(extension@),
{
    if same_text(extension, "rs") {
        "Rust"
    } else if same_text(extension, "c") {
        "C"
    } else if same_text(extension, "cpp") || same_text(extension, "cxx") || same_text(
        extension,
        "c++",
    ) {
        "C++"
    } else if same_text(extension, "py") {
        "Python"
    } else if same_text(extension, "js") || same_text(extension, "jsx") || same_text(
        extension,
        "ejs",
    ) {
        "Javascript"
    } else if same_text(extension, "ts") {
        "Typescript"
    } else if same_text(extension, "html") {
        "HTML"
    } else if same_text(extension, "css") {
        "css"
    } else if same_text(extension, "java") {
        "Java"
    } else if same_text(extension, "go") {
        "Golang"
    } else {
        "Unknown"
    }
}

/// Whether a directory entry is left out of the search, where `name` is its
/// name, or `None` for a name that is no text: such an entry is kept.
pub open spec fn is_skipped_entry(name: Option<&str>) -> bool {
    match name {
        Some(name) => is_skipped(name@),
        None => false,
    }
}

/// Whether a directory entry is left out of the search, where `name` is its
/// name, or `None` for a name that is no text.
pub fn is_invalid(name: Option<&str>) -> (skipped: bool)
    ensures
        skipped == is_skipped_entry(name),
{
    match name {
        Some(name) => (begins_with(name, ".") && !same_text(name, ".")) || same_text(
            name,
            "target",
        ) || same_text(name, "node_modules") || same_text(name, "build") || same_text(name, "out"),
        None => false,
    }
}

/// Whether files ending in `extension` are of no known language.
pub fn is_unknown(extension: &str) -> (unknown: bool)
    ensures
        unknown == (language_name(extension@) == "Unknown"@),
{
    same_text(get_language_name(extension), "Unknown")
}

} // verus!
