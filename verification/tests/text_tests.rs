use clawpad::paths::{display_name_for_path, is_listing_excluded, is_search_excluded, language_for_path};
use clawpad::text::{char_is_whitespace, contains, same_text, split_lines, to_chars, to_string, trim_bounds};

fn lines_of(text: &str) -> Vec<String> {
    split_lines(&to_chars(text)).iter().map(|l| l.iter().collect::<String>()).collect()
}

fn trim_of(text: &str) -> String {
    let chars = to_chars(text);
    let (a, b) = trim_bounds(&chars);
    to_string(&chars, a, b)
}

#[test]
fn to_chars_and_back() {
    let chars = to_chars("héllo");
    assert_eq!(chars, vec!['h', 'é', 'l', 'l', 'o']);
    assert_eq!(to_string(&chars, 0, 5), "héllo");
    assert_eq!(to_string(&chars, 1, 3), "él");
    assert_eq!(to_string(&chars, 2, 2), "");
    assert_eq!(to_chars(""), Vec::<char>::new());
}

#[test]
fn split_lines_agrees_with_std() {
    let samples = [
        "",
        "one",
        "one\n",
        "one\ntwo",
        "one\r\ntwo\r\n",
        "\n",
        "\n\n",
        "a\r",
        "a\rb\n",
        "a\r\r\nb",
        "\r\n",
        "x\n\ny\n",
    ];
    for text in samples {
        let expected: Vec<String> = text.lines().map(|l| l.to_string()).collect();
        assert_eq!(lines_of(text), expected, "lines of {:?}", text);
    }
}

#[test]
fn split_lines_exact_values() {
    assert_eq!(lines_of("a\r\nb\n\nc"), vec!["a", "b", "", "c"]);
    assert_eq!(lines_of("a\r"), vec!["a\r"]);
}

#[test]
fn trim_agrees_with_std() {
    let samples = ["", "   ", "a", "  a  ", "\t a b \n", "\u{a0}x\u{3000}", "\u{2003}mid dle\u{85}", "x \u{200b}"];
    for text in samples {
        assert_eq!(trim_of(text), text.trim(), "trim of {:?}", text);
    }
}

#[test]
fn whitespace_agrees_with_std() {
    let mut c = 0u32;
    while c <= 0x3100 {
        if let Some(ch) = char::from_u32(c) {
            assert_eq!(char_is_whitespace(ch), ch.is_whitespace(), "char {:x}", c);
        }
        c += 1;
    }
}

#[test]
fn contains_agrees_with_std() {
    let cases = [("hello world", "o w"), ("hello", "hello"), ("hello", "hello!"), ("hello", ""), ("", ""), ("", "a"), ("aab", "ab"), ("abc", "ac")];
    for (hay, needle) in cases {
        assert_eq!(contains(&to_chars(hay), &to_chars(needle)), hay.contains(needle), "{:?} in {:?}", needle, hay);
    }
}

#[test]
fn same_text_compares_contents() {
    assert!(same_text("abc", "abc"));
    assert!(same_text("", ""));
    assert!(!same_text("abc", "abd"));
    assert!(!same_text("abc", "ab"));
}

#[test]
fn language_by_extension() {
    assert_eq!(language_for_path("src/main.rs"), "Rust");
    assert_eq!(language_for_path("tool.py"), "Python");
    assert_eq!(language_for_path("/home/me/README.md"), "Markdown");
    assert_eq!(language_for_path("notes.txt"), "Plain Text");
    assert_eq!(language_for_path("Makefile"), "Plain Text");
    assert_eq!(language_for_path("main.RS"), "Plain Text");
    assert_eq!(language_for_path("a.tar.rs"), "Rust");
    assert_eq!(language_for_path("archive.rs.gz"), "Plain Text");
}

#[test]
fn language_edge_cases() {
    assert_eq!(language_for_path(".rs"), "Plain Text");
    assert_eq!(language_for_path("dir/.md"), "Plain Text");
    assert_eq!(language_for_path(".hidden.py"), "Python");
    assert_eq!(language_for_path("dir.rs/file"), "Plain Text");
    assert_eq!(language_for_path(""), "Plain Text");
    assert_eq!(language_for_path(".."), "Plain Text");
    assert_eq!(language_for_path("src/"), "Plain Text");
    assert_eq!(language_for_path("x.rs2"), "Plain Text");
    assert_eq!(language_for_path("x.r"), "Plain Text");
}

#[test]
fn display_names() {
    assert_eq!(display_name_for_path("src/main.rs"), "main.rs");
    assert_eq!(display_name_for_path("main.rs"), "main.rs");
    assert_eq!(display_name_for_path("/a/b/c"), "c");
    assert_eq!(display_name_for_path(""), "Untitled");
    assert_eq!(display_name_for_path("a/.."), "Untitled");
    assert_eq!(display_name_for_path("a/"), "Untitled");
}

#[test]
fn listing_exclusions() {
    assert!(is_listing_excluded("./.gitignore"));
    assert!(is_listing_excluded("./settings.json"));
    assert!(is_listing_excluded("./target/debug/app"));
    assert!(is_listing_excluded("./src/targets.rs"));
    assert!(!is_listing_excluded("./src/main.rs"));
    assert!(!is_listing_excluded("./my_settings.json"));
    assert!(!is_listing_excluded("./settings.json.bak"));
    assert!(!is_listing_excluded("./.git/config"));
}

#[test]
fn search_excludes_hidden_entries() {
    assert!(is_search_excluded("./.env"));
    assert!(is_search_excluded(".gitignore"));
    assert!(is_search_excluded("./.config/notes.txt"));
    assert!(is_search_excluded("a/.cache/b/c.txt"));
    assert!(is_search_excluded("./src/.hidden"));
    assert!(!is_search_excluded("./src/main.rs"));
    assert!(!is_search_excluded("../sibling/main.rs"));
    assert!(!is_search_excluded("./a/./b/../c.txt"));
    assert!(!is_search_excluded("."));
    assert!(!is_search_excluded(".."));
    assert!(!is_search_excluded("a.b/c.d"));
}

#[test]
fn search_excludes_build_and_version_control_directories() {
    assert!(is_search_excluded("./target/debug/app"));
    assert!(is_search_excluded("target/x.txt"));
    assert!(is_search_excluded("./crates/core/target/release/out.txt"));
    assert!(is_search_excluded("./.git/config"));
    assert!(is_search_excluded("sub/.git/HEAD"));
}

#[test]
fn search_keeps_files_merely_named_like_excluded_directories() {
    assert!(!is_search_excluded("targets.txt"));
    assert!(!is_search_excluded("./src/targets.rs"));
    assert!(!is_search_excluded("./docs/x.github.md"));
    assert!(!is_search_excluded("./src/target"));
    assert!(!is_search_excluded("target"));
    assert!(!is_search_excluded("./mytarget/a.txt"));
    assert!(!is_search_excluded("./target2/a.txt"));
    assert!(!is_search_excluded("./a.git/b.txt"));
}

#[test]
fn search_excludes_the_settings_file() {
    assert!(is_search_excluded("./settings.json"));
    assert!(is_search_excluded("settings.json"));
    assert!(is_search_excluded("./conf/settings.json"));
    assert!(!is_search_excluded("./my_settings.json"));
    assert!(!is_search_excluded("./settings.json.bak"));
    assert!(!is_search_excluded("./settings.json/x"));
    assert!(!is_search_excluded("README.md"));
    assert!(!is_search_excluded(""));
    assert!(!is_search_excluded("a//b/"));
}

#[test]
fn decimal_digits() {
    for n in [0usize, 7, 9, 10, 11, 99, 100, 101, 4096, 65535, usize::MAX] {
        let mut out = String::from("n=");
        clawpad::text::push_decimal(&mut out, n);
        assert_eq!(out, format!("n={}", n));
    }
}
