use clawpad::highlight::{line_spans, pieces_fit_line, plain_spans, theme_name, with_font, FontFamily, FontRef, Rgb, StyledSpan, SyntaxChoice, SyntaxHighlighter};

fn joined(spans: &[StyledSpan]) -> String {
    spans.iter().map(|s| s.text.as_str()).collect()
}

fn red() -> Rgb {
    Rgb { r: 255, g: 0, b: 0 }
}

fn blue() -> Rgb {
    Rgb { r: 0, g: 0, b: 255 }
}

#[test]
fn highlight_covers_the_text_exactly() {
    let highlighter = SyntaxHighlighter::new();
    let texts = [
        "",
        "\n",
        "fn main() {\n    println!(\"hi\"); // done\n}\n",
        "/* open\ncomment */ let x = 1;",
        "no newline at end",
        "\r\nwindows\r\nlines\r\n",
        "héllo wörld\n\n\n",
    ];
    let languages = ["Rust", "rs", "Python", "Markdown", "Plain Text", "nonexistent-lang", ""];
    for text in texts {
        for language in languages {
            for theme in ["base16-ocean.dark", "base16-ocean.light"] {
                let spans = highlighter.highlight(text, language, theme);
                assert_eq!(joined(&spans), text, "language {:?}", language);
                for span in &spans {
                    assert!(!span.text.is_empty());
                    assert!(!span.text[..span.text.len() - 1].contains('\n'));
                    assert_eq!(span.font, FontRef { family: FontFamily::Monospace, size: 14 });
                }
            }
        }
    }
}

#[test]
fn highlight_of_empty_text_is_empty() {
    let highlighter = SyntaxHighlighter::new();
    assert!(highlighter.highlight("", "Rust", "base16-ocean.dark").is_empty());
}

#[test]
fn unknown_language_falls_back_to_plain_text() {
    let highlighter = SyntaxHighlighter::new();
    let text = "fn main() { let x = \"s\"; }\n// comment\n";
    let unknown = highlighter.highlight(text, "nonexistent-lang", "base16-ocean.dark");
    let plain = highlighter.highlight(text, "Plain Text", "base16-ocean.dark");
    assert_eq!(unknown.len(), plain.len());
    for (a, b) in unknown.iter().zip(plain.iter()) {
        assert_eq!(a.text, b.text);
        assert_eq!(a.foreground, b.foreground);
    }
    assert_eq!(joined(&unknown), text);
    let first = unknown[0].foreground;
    assert!(unknown.iter().all(|s| s.foreground == first));
}

#[test]
fn fallback_order_is_name_then_extension_then_plain_text() {
    let highlighter = SyntaxHighlighter::new();
    assert_eq!(highlighter.syntax_choice("Rust"), SyntaxChoice::ByName);
    assert_eq!(highlighter.syntax_choice("Python"), SyntaxChoice::ByName);
    assert_eq!(highlighter.syntax_choice("Markdown"), SyntaxChoice::ByName);
    assert_eq!(highlighter.syntax_choice("Plain Text"), SyntaxChoice::ByName);
    assert_eq!(highlighter.syntax_choice("rs"), SyntaxChoice::ByExtension);
    assert_eq!(highlighter.syntax_choice("PY"), SyntaxChoice::ByExtension);
    assert_eq!(highlighter.syntax_choice("nonexistent-lang"), SyntaxChoice::PlainText);
    assert_eq!(highlighter.syntax_choice(""), SyntaxChoice::PlainText);
}

#[test]
fn rust_source_gets_more_than_one_colour() {
    let highlighter = SyntaxHighlighter::new();
    let spans = highlighter.highlight("fn main() { let x = \"text\"; }\n", "Rust", "base16-ocean.dark");
    let first = spans[0].foreground;
    assert!(spans.len() > 1);
    assert!(spans.iter().any(|s| s.foreground != first));
    let by_extension = highlighter.highlight("fn main() { let x = \"text\"; }\n", "rs", "base16-ocean.dark");
    assert_eq!(spans.len(), by_extension.len());
    for (a, b) in spans.iter().zip(by_extension.iter()) {
        assert_eq!(a.text, b.text);
        assert_eq!(a.foreground, b.foreground);
    }
}

#[test]
fn state_is_carried_across_lines() {
    let highlighter = SyntaxHighlighter::new();
    let spans = highlighter.highlight("/* a\nlet b = 1;\n*/\nlet c = 2;\n", "Rust", "base16-ocean.dark");
    let inside = spans.iter().find(|s| s.text.contains("let b")).unwrap();
    let outside = spans.iter().find(|s| s.text.contains("let")).filter(|s| !s.text.contains("let b"));
    let opening = spans.iter().find(|s| s.text.contains("/*")).unwrap();
    assert_eq!(inside.foreground, opening.foreground);
    assert_eq!(inside.text, "let b = 1;\n");
    assert!(outside.is_none() || outside.unwrap().foreground != inside.foreground);
    let keyword = spans.iter().rev().find(|s| s.text.starts_with("let")).unwrap();
    assert!(keyword.foreground != inside.foreground);
}

#[test]
fn themes_differ_in_colour() {
    let highlighter = SyntaxHighlighter::new();
    let dark = highlighter.highlight("plain words\n", "Plain Text", theme_name(true));
    let light = highlighter.highlight("plain words\n", "Plain Text", theme_name(false));
    assert_eq!(joined(&dark), joined(&light));
    assert!(dark[0].foreground != light[0].foreground);
}

#[test]
fn theme_names_for_both_modes() {
    assert_eq!(theme_name(true), "base16-ocean.dark");
    assert_eq!(theme_name(false), "base16-ocean.light");
}

#[test]
fn try_highlight_knows_its_themes() {
    let highlighter = SyntaxHighlighter::new();
    assert!(highlighter.try_highlight("x", "Rust", "no-such-theme").is_none());
    assert!(highlighter.try_highlight("x", "Rust", "").is_none());
    for theme in ["base16-ocean.dark", "base16-ocean.light", "InspiredGitHub", "Solarized (dark)"] {
        let spans = highlighter.try_highlight("let x = 1;\n", "Rust", theme).unwrap();
        assert_eq!(joined(&spans), "let x = 1;\n");
    }
}

#[test]
fn highlight_is_a_function_of_its_arguments() {
    let highlighter = SyntaxHighlighter::new();
    let text = "/* unterminated\n";
    let first = highlighter.highlight(text, "Rust", "base16-ocean.dark");
    let second = highlighter.highlight("let x = 1;\n", "Rust", "base16-ocean.dark");
    let again = SyntaxHighlighter::new().highlight("let x = 1;\n", "Rust", "base16-ocean.dark");
    assert_eq!(joined(&first), text);
    assert_eq!(second.len(), again.len());
    for (a, b) in second.iter().zip(again.iter()) {
        assert_eq!(a.text, b.text);
        assert_eq!(a.foreground, b.foreground);
    }
}

#[test]
fn line_spans_keeps_pieces_that_fit() {
    let pieces = vec![(red(), "let ".to_string()), (blue(), "x\n".to_string())];
    let spans = line_spans("let x\n", Some(pieces), Rgb { r: 9, g: 9, b: 9 });
    assert_eq!(spans.len(), 2);
    assert_eq!(spans[0].text, "let ");
    assert_eq!(spans[0].foreground, red());
    assert_eq!(spans[1].text, "x\n");
    assert_eq!(spans[1].foreground, blue());
    assert_eq!(spans[1].font, FontRef { family: FontFamily::Monospace, size: 14 });
}

#[test]
fn line_spans_falls_back_to_the_whole_line() {
    let fallback = Rgb { r: 9, g: 9, b: 9 };
    let short = vec![(red(), "let ".to_string())];
    let with_empty = vec![(red(), "let x\n".to_string()), (blue(), String::new())];
    let wrong = vec![(red(), "let ".to_string()), (blue(), "y\n".to_string())];
    for pieces in [Some(short), Some(with_empty), Some(wrong), Some(Vec::new()), None] {
        let spans = line_spans("let x\n", pieces, fallback);
        assert_eq!(spans.len(), 1);
        assert_eq!(spans[0].text, "let x\n");
        assert_eq!(spans[0].foreground, fallback);
    }
    assert!(line_spans("", None, fallback).is_empty());
    assert!(line_spans("", Some(Vec::new()), fallback).is_empty());
}

#[test]
fn pieces_fit_line_checks_cover_and_emptiness() {
    assert!(pieces_fit_line(&vec![(red(), "ab".to_string()), (blue(), "c".to_string())], "abc"));
    assert!(pieces_fit_line(&Vec::new(), ""));
    assert!(!pieces_fit_line(&Vec::new(), "abc"));
    assert!(!pieces_fit_line(&vec![(red(), "ab".to_string())], "abc"));
    assert!(!pieces_fit_line(&vec![(red(), "abc".to_string()), (blue(), String::new())], "abc"));
    assert!(!pieces_fit_line(&vec![(red(), "abcd".to_string())], "abc"));
}

#[test]
fn with_font_changes_only_the_font() {
    let highlighter = SyntaxHighlighter::new();
    let spans = highlighter.highlight("fn f() {}\n", "Rust", "base16-ocean.dark");
    let font = FontRef { family: FontFamily::Proportional, size: 20 };
    let restyled = with_font(spans.clone(), font);
    assert_eq!(restyled.len(), spans.len());
    for (a, b) in restyled.iter().zip(spans.iter()) {
        assert_eq!(a.text, b.text);
        assert_eq!(a.foreground, b.foreground);
        assert_eq!(a.font, font);
    }
    assert!(with_font(Vec::new(), font).is_empty());
}

#[test]
fn unknown_theme_gives_each_line_as_one_black_span() {
    let highlighter = SyntaxHighlighter::new();
    let text = "fn main() {}\n// two\nlast";
    for language in ["Rust", "nonexistent-lang"] {
        let spans = highlighter.highlight(text, language, "no-such-theme");
        assert_eq!(spans.len(), 3);
        assert_eq!(spans[0].text, "fn main() {}\n");
        assert_eq!(spans[1].text, "// two\n");
        assert_eq!(spans[2].text, "last");
        for span in &spans {
            assert_eq!(span.foreground, Rgb { r: 0, g: 0, b: 0 });
            assert_eq!(span.font, FontRef { family: FontFamily::Monospace, size: 14 });
        }
        assert_eq!(joined(&spans), text);
    }
    assert!(highlighter.highlight("", "Rust", "no-such-theme").is_empty());
    assert!(highlighter.try_highlight(text, "Rust", "no-such-theme").is_none());
}

#[test]
fn plain_spans_are_the_lines_with_their_endings() {
    let spans = plain_spans("a\r\n\nb\n", red());
    assert_eq!(spans.len(), 3);
    assert_eq!(spans[0].text, "a\r\n");
    assert_eq!(spans[1].text, "\n");
    assert_eq!(spans[2].text, "b\n");
    assert!(spans.iter().all(|s| s.foreground == red()));
    assert!(plain_spans("", red()).is_empty());
    let one = plain_spans("no ending", blue());
    assert_eq!(one.len(), 1);
    assert_eq!(one[0].text, "no ending");
    assert_eq!(one[0].foreground, blue());
}

#[test]
fn extension_tag_is_styled_as_its_syntax_name() {
    let highlighter = SyntaxHighlighter::new();
    let text = "# title\n\nsome *text* and `code`\n";
    for (tag, name) in [("md", "Markdown"), ("py", "Python"), ("RS", "Rust")] {
        assert_eq!(highlighter.syntax_choice(tag), SyntaxChoice::ByExtension);
        let by_tag = highlighter.highlight(text, tag, "base16-ocean.light");
        let by_name = highlighter.highlight(text, name, "base16-ocean.light");
        assert_eq!(by_tag.len(), by_name.len());
        for (a, b) in by_tag.iter().zip(by_name.iter()) {
            assert_eq!(a.text, b.text);
            assert_eq!(a.foreground, b.foreground);
        }
    }
}

#[test]
fn unknown_tag_gives_one_colour_for_rust_text() {
    let highlighter = SyntaxHighlighter::new();
    let text = "fn main() {}\n// x";
    let spans = highlighter.highlight(text, "nonexistent-lang", "base16-ocean.dark");
    assert_eq!(joined(&spans), text);
    let first = spans[0].foreground;
    assert!(spans.iter().all(|s| s.foreground == first));
    let styled = highlighter.highlight(text, "Rust", "base16-ocean.dark");
    assert!(styled.iter().any(|s| s.foreground != first));
}
