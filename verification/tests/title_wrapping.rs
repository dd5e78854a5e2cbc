use vertical_tabs::text::{char_is_whitespace, wrap_grapheme_lines, wrapped_title_lines};

#[test]
fn title_wrapping_preserves_words_and_graphemes() {
    for (title, width, expected) in [
        ("alpha beta gamma", 10, vec!["alpha beta", "gamma"]),
        (
            "alpha·bravo-charlie delta",
            13,
            vec!["alpha·bravo-", "charlie delta"],
        ),
        ("abcdefghijk", 4, vec!["abcd", "efgh", "ijk"]),
        ("界界·a\u{301}-bbb", 5, vec!["界界·", "a\u{301}-bbb"]),
        ("", 4, vec![""]),
        ("title", 0, vec![""]),
        ("界a", 1, vec!["界", "a"]),
    ] {
        assert_eq!(wrapped_title_lines(title, width), expected, "{title}");
    }
}

#[test]
fn wrapping_keeps_combining_marks_with_their_letter() {
    assert_eq!(wrapped_title_lines("e\u{301}x", 1), vec!["e\u{301}", "x"]);
}

#[test]
fn wrapping_measures_wide_graphemes_by_their_display_width() {
    assert_eq!(wrapped_title_lines("界界", 3), vec!["界", "界"]);
    assert_eq!(wrapped_title_lines("界界", 4), vec!["界界"]);
}

#[test]
fn wrapping_breaks_after_unicode_white_space() {
    assert_eq!(wrapped_title_lines("alpha\u{a0}beta", 6), vec!["alpha", "beta"]);
}

#[test]
fn wrapping_drops_white_space_at_line_edges() {
    assert_eq!(wrapped_title_lines("   alpha   ", 20), vec!["alpha"]);
    assert_eq!(wrapped_title_lines("ab   cd", 3), vec!["ab", "cd"]);
    assert_eq!(wrapped_title_lines("    ", 2), vec![""]);
}

#[test]
fn wrapping_breaks_words_without_marks_at_the_width() {
    assert_eq!(wrapped_title_lines("abc-defgh", 4), vec!["abc-", "defg", "h"]);
}

#[test]
fn wrapping_leaves_out_lone_line_feeds() {
    assert_eq!(wrapped_title_lines("ab\ncd", 10), vec!["abcd"]);
}

#[test]
fn wrapping_keeps_a_carriage_return_line_feed_pair() {
    assert_eq!(wrapped_title_lines("ab\r\ncd", 10), vec!["ab\r\ncd"]);
}

#[test]
fn grapheme_lines_follow_the_given_graphemes() {
    let gs = |v: &[&str]| v.iter().map(|g| g.to_string()).collect::<Vec<String>>();
    assert_eq!(wrap_grapheme_lines(&gs(&["a", "b", " ", "c"]), 2), vec!["ab", "c"]);
    assert_eq!(wrap_grapheme_lines(&gs(&["abc", "d"]), 2), vec!["abc", "d"]);
    assert_eq!(wrap_grapheme_lines(&gs(&[]), 3), vec![""]);
    assert_eq!(wrap_grapheme_lines(&gs(&["a"]), 0), vec![""]);
}

#[test]
fn white_space_test_agrees_with_std_on_every_char() {
    for code in 0..=0x10FFFFu32 {
        if let Some(c) = char::from_u32(code) {
            assert_eq!(char_is_whitespace(c), c.is_whitespace(), "{code:x}");
        }
    }
}
