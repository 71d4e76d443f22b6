use dsd_util::table::{health_color_of, status_color_of};
use dsd_util::printer::Color;
use dsd_util::text::{cleaned_name, contains_text, decimal_string, padded, split_fields, split_lines, split_tokens, trimmed};

#[test]
fn lines_drop_final_newline_and_carriage_returns() {
    assert_eq!(split_lines("a\r\nb\n"), vec!["a", "b"]);
    assert_eq!(split_lines("a\n\nb"), vec!["a", "", "b"]);
    assert!(split_lines("").is_empty());
}

#[test]
fn fields_keep_empty_parts() {
    assert_eq!(split_fields("a,,b,", ','), vec!["a", "", "b", ""]);
    assert_eq!(split_fields("", ','), vec![""]);
}

#[test]
fn tokens_skip_whitespace_runs() {
    assert_eq!(split_tokens("  a \t bb\nc  "), vec!["a", "bb", "c"]);
    assert!(split_tokens(" \t ").is_empty());
}

#[test]
fn trim_and_pad() {
    assert_eq!(trimmed(" \t x y \n"), "x y");
    assert_eq!(trimmed("\u{a0}\u{2003}web\u{85}"), "web");
    assert_eq!(padded("ab", 4), "ab  ");
    assert_eq!(padded("abcdef", 4), "abcdef");
}

#[test]
fn substring_search() {
    assert!(contains_text("abcabd", "abd"));
    assert!(contains_text("abc", ""));
    assert!(!contains_text("ab", "abc"));
}

#[test]
fn decimal_digits() {
    assert_eq!(decimal_string(0), "0");
    assert_eq!(decimal_string(1203), "1203");
}

#[test]
fn status_and_health_colors() {
    assert_eq!(status_color_of("RUNNING"), Color::Green);
    assert_eq!(status_color_of("created"), Color::Cyan);
    assert_eq!(status_color_of("Paused"), Color::Yellow);
    assert_eq!(status_color_of("restarting"), Color::Yellow);
    assert_eq!(status_color_of("exited"), Color::White);
    assert_eq!(status_color_of("Dead"), Color::White);
    assert_eq!(status_color_of("removing"), Color::White);
    assert_eq!(status_color_of("weird"), Color::White);
    assert_eq!(health_color_of("healthy"), Color::Green);
    assert_eq!(health_color_of("Unhealthy"), Color::Red);
    assert_eq!(health_color_of("starting"), Color::Cyan);
    assert_eq!(health_color_of("N/A"), Color::White);
}

#[test]
fn cleaned_name_strips_unicode_space_and_slash() {
    assert_eq!(cleaned_name("\u{a0}/web\n"), "web");
    assert_eq!(cleaned_name("/a/b"), "a/b");
}
