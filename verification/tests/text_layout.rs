use sortify::text::{
    center_string_at, clip_string, join_with, make_spaces, pad_string_right, parse_toggle,
    screen_width, split_words, string_to_half_screen_at, style_bold, style_green, style_italic,
    usize_to_string, wrap_text_at,
};

#[test]
fn spaces_are_spaces() {
    assert_eq!(make_spaces(0), "");
    assert_eq!(make_spaces(3), "   ");
}

#[test]
fn centering_pads_both_sides() {
    assert_eq!(center_string_at(&String::from("ab"), 6), "  ab  ");
    assert_eq!(center_string_at(&String::from("abc"), 6), " abc ");
    assert_eq!(center_string_at(&String::from("abcdef"), 4), "abcdef");
}

#[test]
fn right_padding_fills_to_width() {
    assert_eq!(pad_string_right(&String::from("ab"), 5), "ab   ");
    assert_eq!(pad_string_right(&String::from("abcdef"), 5), "abcdef");
}

#[test]
fn clipping_keeps_a_prefix_and_ellipsis() {
    assert_eq!(clip_string(&String::from("abcdef"), 5), "ab...");
    assert_eq!(clip_string(&String::from("ab"), 5), "ab...");
    assert_eq!(clip_string(&String::from("abcdef"), 2), "...");
}

#[test]
fn half_screen_pads_short_and_clips_long() {
    assert_eq!(string_to_half_screen_at(&String::from("abc"), 10), "abc  ");
    assert_eq!(string_to_half_screen_at(&String::from("abcdefgh"), 10), "ab...");
}

#[test]
fn wrapping_breaks_lines_at_the_width() {
    assert_eq!(wrap_text_at("hello world", 8), "hello\nworld");
    assert_eq!(wrap_text_at("hello world", 11), "hello world");
    assert_eq!(wrap_text_at("a b c", 3), "a b\nc");
    assert_eq!(wrap_text_at("", 8), "");
    assert_eq!(wrap_text_at("  spaced   out  ", 20), "spaced out");
}

#[test]
fn words_split_on_whitespace() {
    let words = split_words(" one\ttwo  three ");
    assert_eq!(words, vec!["one", "two", "three"]);
    let none: Vec<String> = split_words("   ");
    assert!(none.is_empty());
}

#[test]
fn decimal_rendering() {
    assert_eq!(usize_to_string(0), "0");
    assert_eq!(usize_to_string(7), "7");
    assert_eq!(usize_to_string(907), "907");
}

#[test]
fn toggles_parse_one_based_numbers_in_range() {
    assert_eq!(parse_toggle(&String::from("3"), 5), Some(2));
    assert_eq!(parse_toggle(&String::from("+3"), 5), Some(2));
    assert_eq!(parse_toggle(&String::from("1"), 5), Some(0));
    assert_eq!(parse_toggle(&String::from("5"), 5), Some(4));
    assert_eq!(parse_toggle(&String::from("0"), 5), None);
    assert_eq!(parse_toggle(&String::from("6"), 5), None);
    assert_eq!(parse_toggle(&String::from("x"), 5), None);
    assert_eq!(parse_toggle(&String::from(""), 5), None);
    assert_eq!(parse_toggle(&String::from("+"), 5), None);
    assert_eq!(parse_toggle(&String::from("184467440737095516150"), 5), None);
}

#[test]
fn styles_wrap_with_ansi_and_reset() {
    assert_eq!(style_green("hi"), "\u{1b}[32mhi\u{1b}[0m");
    assert_eq!(style_bold("hi"), "\u{1b}[1mhi\u{1b}[0m");
    assert_eq!(style_italic("hi"), "\u{1b}[3mhi\u{1b}[0m");
}

#[test]
fn joining_uses_the_separator_between_parts() {
    let parts = vec![String::from("a"), String::from("b"), String::from("c")];
    assert_eq!(join_with(&parts, ", "), "a, b, c");
    let one = vec![String::from("a")];
    assert_eq!(join_with(&one, ", "), "a");
    let none: Vec<String> = Vec::new();
    assert_eq!(join_with(&none, ", "), "");
}

#[test]
fn screen_width_is_capped() {
    assert!(screen_width() <= 48);
}
