use linecount::language::{get_language_name, is_invalid, is_unknown};

#[test]
fn language_names() {
    assert_eq!(get_language_name("rs"), "Rust");
    assert_eq!(get_language_name("c"), "C");
    assert_eq!(get_language_name("cpp"), "C++");
    assert_eq!(get_language_name("cxx"), "C++");
    assert_eq!(get_language_name("c++"), "C++");
    assert_eq!(get_language_name("py"), "Python");
    assert_eq!(get_language_name("js"), "Javascript");
    assert_eq!(get_language_name("jsx"), "Javascript");
    assert_eq!(get_language_name("ejs"), "Javascript");
    assert_eq!(get_language_name("ts"), "Typescript");
    assert_eq!(get_language_name("html"), "HTML");
    assert_eq!(get_language_name("css"), "css");
    assert_eq!(get_language_name("java"), "Java");
    assert_eq!(get_language_name("go"), "Golang");
}

#[test]
fn other_extensions_are_unknown() {
    assert_eq!(get_language_name(""), "Unknown");
    assert_eq!(get_language_name("RS"), "Unknown");
    assert_eq!(get_language_name("pyc"), "Unknown");
    assert_eq!(get_language_name("txt"), "Unknown");
    assert_eq!(get_language_name("Unknown"), "Unknown");
    assert!(is_unknown("txt"));
    assert!(is_unknown(""));
    assert!(!is_unknown("rs"));
    assert!(!is_unknown("css"));
}

#[test]
fn skipped_directories() {
    assert!(is_invalid(Some(".git")));
    assert!(is_invalid(Some("..")));
    assert!(is_invalid(Some(".hidden.rs")));
    assert!(is_invalid(Some("target")));
    assert!(is_invalid(Some("node_modules")));
    assert!(is_invalid(Some("build")));
    assert!(is_invalid(Some("out")));
}

#[test]
fn searched_directories() {
    assert!(!is_invalid(Some(".")));
    assert!(!is_invalid(Some("")));
    assert!(!is_invalid(Some("src")));
    assert!(!is_invalid(Some("targets")));
    assert!(!is_invalid(Some("Target")));
    assert!(!is_invalid(Some("a.out")));
    assert!(!is_invalid(Some("main.rs")));
}

#[test]
fn a_name_that_is_no_text_is_searched() {
    assert!(!is_invalid(None));
}
