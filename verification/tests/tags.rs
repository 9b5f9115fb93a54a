//! Tag normalization and the text primitives it stands on.

use video_coach::tag::{distinct_tags, normalize_tags};
use video_coach::text;

#[test]
fn splits_trims_and_lowercases() {
    assert_eq!(
        normalize_tags(" Transition , SET PIECE "),
        ["transition", "set piece"]
    );
}

#[test]
fn drops_empty_fragments() {
    assert_eq!(normalize_tags("a,,  ,b"), ["a", "b"]);
}

#[test]
fn dedupes_preserving_first_seen_order() {
    assert_eq!(normalize_tags("b, a, B, A, c"), ["b", "a", "c"]);
}

#[test]
fn single_untagged_string_is_one_tag() {
    assert_eq!(normalize_tags("shot"), ["shot"]);
}

#[test]
fn empty_input_is_empty() {
    assert!(normalize_tags("").is_empty());
    assert!(normalize_tags("  , ,").is_empty());
}

#[test]
fn tags_lowercase_beyond_ascii() {
    assert_eq!(normalize_tags("ÅTERERÖVRING, Ω"), ["återerövring", "ω"]);
}

#[test]
fn white_space_is_what_trim_strips() {
    for code in 0..=0x10_ffffu32 {
        if let Some(c) = char::from_u32(code) {
            assert_eq!(text::is_white_space(c), c.is_whitespace(), "{code:x}");
        }
    }
}

#[test]
fn trim_agrees_with_the_strings_own() {
    for s in ["", " ", "a", " a ", "\u{2003}x y\t\n", "  \u{a0}"] {
        assert_eq!(text::trim(s), s.trim(), "{s:?}");
    }
}

#[test]
fn split_and_join_undo_each_other() {
    for s in ["", "a", "a,b", ",", "a,,b,"] {
        let pieces = text::split(s, ',');
        assert_eq!(pieces, s.split(',').collect::<Vec<_>>(), "{s:?}");
        assert_eq!(text::join(&pieces, ","), s);
    }
}

#[test]
fn numbers_are_read_as_they_are_written() {
    for n in [0u64, 7, 10, 99, 100, u64::MAX] {
        let mut s = String::new();
        text::push_decimal(&mut s, n);
        assert_eq!(s, n.to_string());
    }
    for n in [0i64, -1, 42, i64::MIN, i64::MAX] {
        let mut s = String::new();
        text::push_signed_decimal(&mut s, n);
        assert_eq!(s, n.to_string());
    }
    for s in ["", "+", "-", "0", "+7", "-7", "007", "4294967295", "4294967296", "1a", " 1"] {
        assert_eq!(text::parse_u32(s), s.parse::<u32>().ok(), "{s:?}");
    }
    for s in [
        "", "+", "-", "-+1", "+-1", "0", "-0", "+7", "-7", "2147483647", "2147483648",
        "-2147483648", "-2147483649", "99999999999", "1-",
    ] {
        assert_eq!(text::parse_i32(s), s.parse::<i32>().ok(), "{s:?}");
    }
}

#[test]
fn distinct_tags_drop_the_empty_and_the_repeated() {
    let tags: Vec<String> = ["a", "", "b", "a", ""].iter().map(|t| t.to_string()).collect();
    assert_eq!(distinct_tags(&tags), ["a", "b"]);
}

#[test]
fn normalizing_again_changes_nothing() {
    for input in
        ["", " Transition , SET PIECE ", "b, a, B, A, c", "ÅTERERÖVRING, Ω", "ΟΔΟΣ, İ", "a,,  ,b"]
    {
        let tags = normalize_tags(input);
        assert_eq!(normalize_tags(&text::join(&tags, ",")), tags, "{input:?}");
        assert_eq!(normalize_tags(&text::join(&tags, ", ")), tags, "{input:?}");
    }
}

/// Of every character: what lowercasing makes of it is its own lowercase, and
/// brings no comma and no white space.
#[test]
fn a_tag_of_any_character_is_settled() {
    for code in 0..=0x10_ffffu32 {
        if let Some(c) = char::from_u32(code) {
            let tags = normalize_tags(&c.to_string());
            assert_eq!(tags.is_empty(), c == ',' || c.is_whitespace(), "{code:x}");
            for tag in tags {
                assert_eq!(normalize_tags(&tag), [tag], "{code:x}");
            }
        }
    }
}

/// Of ASCII text lowercasing makes `a` to `z` of `A` to `Z`, and nothing else.
#[test]
fn ascii_tags_are_lowered_letter_by_letter() {
    let all: String = (0x21u8..0x7f).map(char::from).filter(|c| *c != ',').collect();
    assert_eq!(normalize_tags(&all), [all.to_ascii_lowercase()]);
}
