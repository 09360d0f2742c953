use uniconvert::decode::{
    is_proposed, is_proposed_from, is_token_at, read_token_code, utf8_width_of, TOKEN_PATTERN,
};
use uniconvert::{replace_tokens, text_to_unicode, unicode_to_text, unicode_to_text_matching, DecodeError};

fn ok(text: &str) -> Result<String, DecodeError> {
    Ok(text.to_string())
}

#[test]
fn decode_hello() {
    assert_eq!(
        unicode_to_text("\\u{0048}\\u{0065}\\u{006C}\\u{006C}\\u{006F}"),
        ok("Hello")
    );
}

#[test]
fn decode_empty_text() {
    assert_eq!(unicode_to_text(""), ok(""));
}

#[test]
fn decode_without_tokens() {
    assert_eq!(unicode_to_text("no tokens here"), ok("no tokens here"));
}

#[test]
fn decode_unpaired_surrogate() {
    assert_eq!(
        unicode_to_text("\\u{D800}"),
        Err(DecodeError::InvalidCodepoint { position: 0, code: 0xD800 })
    );
    assert_eq!(
        unicode_to_text("\\u{dfff}"),
        Err(DecodeError::InvalidCodepoint { position: 0, code: 0xDFFF })
    );
}

#[test]
fn decode_around_the_surrogates() {
    assert_eq!(unicode_to_text("\\u{D7FF}"), ok("\u{D7FF}"));
    assert_eq!(unicode_to_text("\\u{E000}"), ok("\u{E000}"));
    assert_eq!(unicode_to_text("\\u{0000}"), ok("\u{0}"));
    assert_eq!(unicode_to_text("\\u{FFFF}"), ok("\u{FFFF}"));
}

#[test]
fn decode_fails_as_a_whole() {
    assert_eq!(
        unicode_to_text("\\u{0048}i \\u{DC00} \\u{0065}"),
        Err(DecodeError::InvalidCodepoint { position: 10, code: 0xDC00 })
    );
}

#[test]
fn decode_reports_the_first_bad_token() {
    assert_eq!(
        unicode_to_text("\u{e9}\\u{D800}\\u{DFFF}"),
        Err(DecodeError::InvalidCodepoint { position: 1, code: 0xD800 })
    );
}

#[test]
fn decode_ignores_the_case_of_digits() {
    assert_eq!(unicode_to_text("\\u{0048}"), ok("H"));
    assert_eq!(unicode_to_text("\\u{006c}"), unicode_to_text("\\u{006C}"));
    assert_eq!(unicode_to_text("\\u{abcd}"), ok("\u{ABCD}"));
    assert_eq!(unicode_to_text("\\u{ABCD}"), ok("\u{ABCD}"));
    assert_eq!(unicode_to_text("\\u{aBcD}"), ok("\u{ABCD}"));
}

#[test]
fn decode_needs_a_lower_case_u() {
    assert_eq!(unicode_to_text("\\U{0048}"), ok("\\U{0048}"));
}

#[test]
fn decode_keeps_what_is_no_token() {
    for text in [
        "\\u0048",
        "\\u{048}",
        "\\u{00048}",
        "\\u{004G}",
        "\\u{0048",
        "\\u0048}",
        "u{0048}",
        "\\ u{0048}",
        "\\u{ 048}",
        "\\u{+048}",
        "\\u{}",
        "\\",
        "\\u{\u{ff10}048}",
    ] {
        assert_eq!(unicode_to_text(text), ok(text));
    }
}

#[test]
fn decode_keeps_text_between_tokens() {
    assert_eq!(unicode_to_text("a\\u{0062}c\\u{0064}e"), ok("abcde"));
    assert_eq!(unicode_to_text("\\\\u{0041}"), ok("\\A"));
    assert_eq!(unicode_to_text("\\u{0041}}"), ok("A}"));
    assert_eq!(unicode_to_text("\\u{\\u{0041}"), ok("\\u{A"));
}

#[test]
fn decode_after_wide_characters() {
    assert_eq!(unicode_to_text("\u{e9}\\u{0048}"), ok("\u{e9}H"));
    assert_eq!(unicode_to_text("\u{4e2d}\u{6587} \\u{4E2D}"), ok("\u{4e2d}\u{6587} \u{4e2d}"));
    assert_eq!(unicode_to_text("\u{1F600}\\u{0041}\u{7ff}\\u{0042}"), ok("\u{1F600}A\u{7ff}B"));
}

#[test]
fn decode_does_not_decode_twice() {
    assert_eq!(unicode_to_text("\\u{005C}u{0041}"), ok("\\u{0041}"));
}

#[test]
fn decode_leaves_encoded_text_alone() {
    for text in ["", "Hello", "h\u{e9}llo", "\u{1F600}", "\\u{0048}"] {
        let encoded = text_to_unicode(text);
        assert_eq!(unicode_to_text(&encoded), Ok(encoded.clone()));
        assert_eq!(unicode_to_text(&encoded) == ok(text), text.is_empty());
    }
}

#[test]
fn decode_with_another_pattern() {
    assert_eq!(unicode_to_text_matching(TOKEN_PATTERN, "\\u{0048}i"), ok("Hi"));
    assert_eq!(
        unicode_to_text_matching("(?i)\\\\u\\{([0-9a-f]{4})\\}", "\\u{0048}\\U{0049}\\u{004a}"),
        ok("H\\U{0049}J")
    );
    assert_eq!(unicode_to_text_matching("", "\\u{0048}\\u{0049}"), ok("HI"));
    assert_eq!(unicode_to_text_matching("^\\\\", "\\u{0048}\\u{0049}"), ok("H\\u{0049}"));
    assert_eq!(unicode_to_text_matching("x", "\\u{0048}"), ok("\\u{0048}"));
    assert_eq!(unicode_to_text_matching("u", "\\u{0048}"), ok("\\u{0048}"));
}

#[test]
fn decode_with_a_pattern_that_is_rejected() {
    assert_eq!(unicode_to_text_matching("(", "\\u{0048}"), Err(DecodeError::PatternRejected));
    assert_eq!(unicode_to_text_matching("[", ""), Err(DecodeError::PatternRejected));
}

#[test]
fn replace_only_where_proposed() {
    let text = "\\u{0041}\\u{0042}\\u{0043}";
    assert_eq!(replace_tokens(text, &vec![]), ok(text));
    assert_eq!(replace_tokens(text, &vec![0, 8, 16]), ok("ABC"));
    assert_eq!(replace_tokens(text, &vec![8]), ok("\\u{0041}B\\u{0043}"));
    assert_eq!(replace_tokens(text, &vec![16, 0]), ok("A\\u{0042}C"));
    assert_eq!(replace_tokens(text, &vec![1, 7, 9, 24, 1000]), ok(text));
}

#[test]
fn replace_counts_offsets_in_bytes() {
    let text = "\u{e9}\\u{0041}";
    assert_eq!(replace_tokens(text, &vec![1]), ok(text));
    assert_eq!(replace_tokens(text, &vec![2]), ok("\u{e9}A"));
    let text = "\u{1F600}\u{4e2d}\\u{0041}";
    assert_eq!(replace_tokens(text, &vec![2]), ok(text));
    assert_eq!(replace_tokens(text, &vec![7]), ok("\u{1F600}\u{4e2d}A"));
}

#[test]
fn replace_fails_only_on_proposed_tokens() {
    let text = "\\u{D800}\\u{0041}";
    assert_eq!(replace_tokens(text, &vec![8]), ok("\\u{D800}A"));
    assert_eq!(
        replace_tokens(text, &vec![0, 8]),
        Err(DecodeError::InvalidCodepoint { position: 0, code: 0xD800 })
    );
}

#[test]
fn token_recognition() {
    let chars: Vec<char> = "x\\u{0aF9}\\u{12}".chars().collect();
    assert!(!is_token_at(&chars, 0));
    assert!(is_token_at(&chars, 1));
    assert_eq!(read_token_code(&chars, 1), 0x0AF9);
    for i in 2..chars.len() + 3 {
        assert!(!is_token_at(&chars, i));
    }
    assert!(!is_token_at(&chars, usize::MAX));
    assert!(!is_token_at(&Vec::new(), 0));
}

#[test]
fn token_codes() {
    let chars: Vec<char> = "\\u{0000}\\u{ffff}\\u{1234}".chars().collect();
    assert_eq!(read_token_code(&chars, 0), 0);
    assert_eq!(read_token_code(&chars, 8), 0xFFFF);
    assert_eq!(read_token_code(&chars, 16), 0x1234);
}

#[test]
fn utf8_widths() {
    for c in ['\u{0}', 'a', '\u{7f}', '\u{80}', '\u{7ff}', '\u{800}', '\u{ffff}', '\u{10000}', '\u{10ffff}'] {
        assert_eq!(utf8_width_of(c), c.len_utf8() as u128);
    }
}

#[test]
fn proposed_offsets() {
    assert!(!is_proposed(&vec![], 0));
    assert!(is_proposed(&vec![3, 1, 2], 2));
    assert!(!is_proposed(&vec![3, 1, 2], 0));
    assert!(!is_proposed(&vec![usize::MAX], usize::MAX as u128 + 1));
    assert!(is_proposed(&vec![usize::MAX], usize::MAX as u128));
}

#[test]
fn proposed_offsets_from_a_hint() {
    let starts = vec![0, 8, 16];
    for first in 0..5 {
        assert!(is_proposed_from(&starts, first, 0));
        assert!(is_proposed_from(&starts, first, 8));
        assert!(is_proposed_from(&starts, first, 16));
        assert!(!is_proposed_from(&starts, first, 1));
        assert!(!is_proposed_from(&starts, first, 24));
    }
    assert!(!is_proposed_from(&vec![], 0, 0));
}

#[test]
fn decode_many_tokens() {
    let mut text = String::new();
    let mut expected = String::new();
    for i in 0..200u32 {
        text.push_str(&format!("\\u{{{:04x}}}", 0x4e00 + i));
        text.push('\u{e9}');
        expected.push(char::from_u32(0x4e00 + i).unwrap());
        expected.push('\u{e9}');
    }
    assert_eq!(unicode_to_text(&text), Ok(expected));
}

#[test]
fn decode_digits_between_braces() {
    for c in ['\u{0}', 'H', '\u{e9}', '\u{7ff}', '\u{800}', '\u{abcd}', '\u{d7ff}', '\u{e000}', '\u{ffff}'] {
        let encoded = text_to_unicode(&c.to_string());
        let braced = format!("\\u{{{}}}", &encoded[2..]);
        assert_eq!(unicode_to_text(&braced), Ok(c.to_string()));
    }
}
