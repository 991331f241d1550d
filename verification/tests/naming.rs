//! Tests of name inference, dimension parsing and the text utilities.

use nativefier::error::{Error, ParseError};
use nativefier::infer::{infer_name, Size};
use nativefier::text::{count_char, find_char, parse_u32, str_contains, substring};

#[test]
fn one_dot_takes_the_first_part() {
    assert_eq!(infer_name("https://soundcloud.com").unwrap(), "soundcloud");
}

#[test]
fn two_dots_take_the_middle_part() {
    assert_eq!(infer_name("https://www.example.com/a/b?q=1").unwrap(), "example");
}

#[test]
fn too_many_dots_is_an_uncommon_format() {
    let err = infer_name("https://a.b.c.d").unwrap_err();
    match err {
        Error::InferName { url, reason } => {
            assert_eq!(url, "https://a.b.c.d");
            assert_eq!(reason, "url contains an uncommon hostname format");
        }
        other => panic!("unexpected error: {:?}", other),
    }
}

#[test]
fn no_dots_is_an_uncommon_format() {
    let err = infer_name("https://localhost").unwrap_err();
    assert!(matches!(err, Error::InferName { .. }));
}

#[test]
fn url_without_host_has_no_name() {
    let err = infer_name("data:text/plain,hello").unwrap_err();
    match err {
        Error::InferName { reason, .. } => {
            assert_eq!(reason, "url does not include hostname");
        }
        other => panic!("unexpected error: {:?}", other),
    }
}

#[test]
fn malformed_url_has_no_name() {
    let err = infer_name("http://[broken").unwrap_err();
    assert!(matches!(err, Error::Parse(ParseError::Url(_))));
}

#[test]
fn size_parses_dimensions() {
    assert_eq!("64x64".parse::<Size>().unwrap(), Size { w: 64, h: 64 });
    assert_eq!(Size::parse("10x20").unwrap(), Size { w: 10, h: 20 });
}

#[test]
fn size_with_extra_fields_takes_the_first_two() {
    assert_eq!(Size::parse("3x4x5").unwrap(), Size { w: 3, h: 4 });
}

#[test]
fn size_without_separator_is_a_size_error() {
    let err = Size::parse("64").unwrap_err();
    match err {
        ParseError::Size(t) => assert_eq!(t, "64"),
        other => panic!("unexpected error: {:?}", other),
    }
}

#[test]
fn size_with_bad_width_is_an_int_error() {
    let err = Size::parse("ax4").unwrap_err();
    match err {
        ParseError::Int(t) => assert_eq!(t, "a"),
        other => panic!("unexpected error: {:?}", other),
    }
}

#[test]
fn size_with_bad_height_is_an_int_error() {
    let err = Size::parse("4x").unwrap_err();
    match err {
        ParseError::Int(t) => assert_eq!(t, ""),
        other => panic!("unexpected error: {:?}", other),
    }
}

#[test]
fn size_overflow_is_an_int_error() {
    assert!(matches!(
        Size::parse("4294967296x2").unwrap_err(),
        ParseError::Int(_)
    ));
    assert_eq!(
        Size::parse("4294967295x1").unwrap(),
        Size {
            w: u32::MAX,
            h: 1
        }
    );
}

#[test]
fn size_accepts_a_plus_sign_like_std_parsing() {
    assert_eq!(Size::parse("+8x+9").unwrap(), Size { w: 8, h: 9 });
}

#[test]
fn size_from_pair() {
    assert_eq!(Size::from((2, 3)), Size { w: 2, h: 3 });
}

#[test]
fn error_messages_render() {
    assert_eq!(
        Error::NoCandidates.message(),
        "scraping: no icon links found"
    );
    assert_eq!(Error::NoIconsDecoded.message(), "scraping: no icons found");
    assert_eq!(
        Error::FetchPage("boom".to_string()).message(),
        "fetching page: boom"
    );
    assert_eq!(
        Error::Parse(ParseError::Int("a".to_string())).message(),
        "parsing: int: a"
    );
    assert_eq!(
        Error::InferName {
            url: "https://x".to_string(),
            reason: "r".to_string()
        }
        .message(),
        "inferring name for https://x: r"
    );
}

#[test]
fn substring_search_finds_icon_tokens() {
    assert!(str_contains("shortcut icon", "icon"));
    assert!(str_contains("apple-touch-icon", "icon"));
    assert!(str_contains("icon", "icon"));
    assert!(!str_contains("stylesheet", "icon"));
    assert!(!str_contains("ico", "icon"));
    assert!(str_contains("anything", ""));
}

#[test]
fn character_counting_and_finding() {
    assert_eq!(count_char("www.example.com", '.'), 2);
    assert_eq!(count_char("localhost", '.'), 0);
    assert_eq!(find_char("a.b", '.'), Some(1));
    assert_eq!(find_char("ab", '.'), None);
    assert_eq!(substring("abcdef", 2, 4), "cd");
}

#[test]
fn decimal_parsing_matches_std() {
    for s in ["0", "7", "64", "+15", "4294967295", "4294967296", "", "+", "1a", "-3"] {
        assert_eq!(parse_u32(s), s.parse::<u32>().ok(), "input: {}", s);
    }
}
