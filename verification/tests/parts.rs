use git_credentials::boolean::{parse_false, parse_flag, parse_true};
use git_credentials::byte_string::{as_text, split_lines, text_eq};
use git_credentials::bytes::{
    bytes_eq, contains_byte, eq_ignore_ascii_case, find_byte, to_ascii_lower,
};
use git_credentials::context::{validate, Context, Error};
use git_credentials::decode::{self, parse_line};

#[test]
fn validate_accepts_clean_keys_and_values() {
    assert_eq!(validate("url", b"https://example.com/a b\tc\r"), Ok(()));
    assert_eq!(validate("", b""), Ok(()));
    assert_eq!(validate("any=key", b"\xff=\x01"), Ok(()));
}

#[test]
fn validate_rejects_nul_and_line_feed_in_the_value() {
    assert_eq!(
        validate("host", b"a\0"),
        Err(Error::Encoding { key: String::from("host"), value: b"a\0".to_vec() })
    );
    assert_eq!(
        validate("host", b"\nb"),
        Err(Error::Encoding { key: String::from("host"), value: b"\nb".to_vec() })
    );
}

#[test]
fn validate_rejects_nul_and_line_feed_in_the_key() {
    assert_eq!(
        validate("ho\0st", b"fine"),
        Err(Error::Encoding { key: String::from("ho\0st"), value: b"fine".to_vec() })
    );
    assert_eq!(
        validate("host\n", b"fine"),
        Err(Error::Encoding { key: String::from("host\n"), value: b"fine".to_vec() })
    );
}

#[test]
fn parse_true_knows_three_words_in_any_case() {
    for word in ["yes", "on", "true", "YES", "On", "tRuE"] {
        assert!(parse_true(word.as_bytes()));
    }
    for word in ["", "no", "off", "false", "y", "yess", "1", "tru", " true", "true "] {
        assert!(!parse_true(word.as_bytes()));
    }
}

#[test]
fn parse_false_knows_three_words_in_any_case_and_the_empty_value() {
    for word in ["no", "off", "false", "NO", "Off", "fAlSe", ""] {
        assert!(parse_false(word.as_bytes()));
    }
    for word in ["yes", "on", "true", "n", "of", "0", "false ", "\0"] {
        assert!(!parse_false(word.as_bytes()));
    }
}

#[test]
fn parse_flag_is_false_only_for_the_words_for_false() {
    assert!(parse_flag(b"yes"));
    assert!(parse_flag(b"banana"));
    assert!(parse_flag(b"2"));
    assert!(!parse_flag(b""));
    assert!(!parse_flag(b"no"));
    assert!(!parse_flag(b"OFF"));
    assert!(!parse_flag(b"False"));
}

#[test]
fn only_ascii_letters_are_matched_without_case() {
    assert!(eq_ignore_ascii_case(b"AbC-09", b"aBc-09"));
    assert!(!eq_ignore_ascii_case(b"abc", b"abd"));
    assert!(!eq_ignore_ascii_case(b"abc", b"abcd"));
    assert!(!eq_ignore_ascii_case(b"@", b"`"));
    assert!(!eq_ignore_ascii_case(b"[", b"{"));
    assert!(!eq_ignore_ascii_case(b"\xc9", b"\xe9"));
    assert!(eq_ignore_ascii_case(b"", b""));
}

#[test]
fn to_ascii_lower_changes_capitals_only() {
    assert_eq!(to_ascii_lower(b'A'), b'a');
    assert_eq!(to_ascii_lower(b'Z'), b'z');
    assert_eq!(to_ascii_lower(b'a'), b'a');
    assert_eq!(to_ascii_lower(b'@'), b'@');
    assert_eq!(to_ascii_lower(b'['), b'[');
    assert_eq!(to_ascii_lower(0xc9), 0xc9);
    for byte in 0..=255u8 {
        assert_eq!(to_ascii_lower(byte), byte.to_ascii_lowercase());
    }
}

#[test]
fn find_byte_gives_the_first_occurrence() {
    assert_eq!(find_byte(b"a=b=c", b'='), Some(1));
    assert_eq!(find_byte(b"=", b'='), Some(0));
    assert_eq!(find_byte(b"abc", b'='), None);
    assert_eq!(find_byte(b"", b'='), None);
}

#[test]
fn contains_byte_looks_at_every_byte() {
    assert!(contains_byte(b"abc\0", 0));
    assert!(contains_byte(b"\nabc", b'\n'));
    assert!(!contains_byte(b"abc", 0));
    assert!(!contains_byte(b"", 0));
}

#[test]
fn bytes_eq_compares_length_and_content() {
    assert!(bytes_eq(b"url", b"url"));
    assert!(bytes_eq(b"", b""));
    assert!(!bytes_eq(b"url", b"urL"));
    assert!(!bytes_eq(b"url", b"url "));
}

#[test]
fn as_text_reads_well_formed_utf8_only() {
    assert_eq!(as_text(b"plain"), Some("plain"));
    assert_eq!(as_text("☃βツ".as_bytes()), Some("☃βツ"));
    assert_eq!(as_text(b""), Some(""));
    assert_eq!(as_text(b"abc\xff"), None);
    assert_eq!(as_text(b"\xed\xa0\x80"), None);
    assert_eq!(as_text(b"\xf0\x9d\x9ca"), None);
    assert_eq!(as_text(b"\xc0\x80"), None);
}

#[test]
fn text_eq_compares_characters() {
    assert!(text_eq("host", "host"));
    assert!(!text_eq("host", "Host"));
    assert!(!text_eq("host", "hos"));
    assert!(text_eq("", ""));
}

#[test]
fn parse_line_parts_at_the_first_equals_sign() {
    assert_eq!(parse_line(b"key=value"), Ok(("key", &b"value"[..])));
    assert_eq!(parse_line(b"key=a=b"), Ok(("key", &b"a=b"[..])));
    assert_eq!(parse_line(b"=value"), Ok(("", &b"value"[..])));
    assert_eq!(parse_line(b"key="), Ok(("key", &b""[..])));
    assert_eq!(parse_line(b"k\xc3\xa9y=\xff"), Ok(("kéy", &b"\xff"[..])));
}

#[test]
fn parse_line_names_what_it_refuses() {
    assert_eq!(parse_line(b"no separator"), Err(decode::Error::Syntax { line: b"no separator".to_vec() }));
    assert_eq!(parse_line(b""), Err(decode::Error::Syntax { line: Vec::new() }));
    assert_eq!(parse_line(b"\xff=v"), Err(decode::Error::Syntax { line: b"\xff=v".to_vec() }));
    assert_eq!(
        parse_line(b"k=\0"),
        Err(decode::Error::Encoding(Error::Encoding { key: String::from("k"), value: b"\0".to_vec() }))
    );
    assert_eq!(
        parse_line(b"k\0=v"),
        Err(decode::Error::Encoding(Error::Encoding { key: String::from("k\0"), value: b"v".to_vec() }))
    );
}

#[test]
fn set_field_stores_known_keys_and_passes_over_the_others() {
    let mut context = Context::default();
    assert_eq!(context.set_field("url", b"\xffu"), Ok(()));
    assert_eq!(context.set_field("path", b"p"), Ok(()));
    assert_eq!(context.set_field("protocol", b"https"), Ok(()));
    assert_eq!(context.set_field("host", b"h"), Ok(()));
    assert_eq!(context.set_field("username", b"u"), Ok(()));
    assert_eq!(context.set_field("password", b"w"), Ok(()));
    assert_eq!(context.set_field("quit", b"off"), Ok(()));
    assert_eq!(context.set_field("other", b"\xff"), Ok(()));
    let expected = Context {
        protocol: Some(String::from("https")),
        host: Some(String::from("h")),
        path: Some(b"p".to_vec()),
        username: Some(String::from("u")),
        password: Some(String::from("w")),
        url: Some(b"\xffu".to_vec()),
        quit: Some(false),
    };
    assert_eq!(context, expected);
}

#[test]
fn set_field_leaves_the_context_as_it_was_when_it_fails() {
    let mut context = Context { host: Some(String::from("kept")), ..Context::default() };
    assert_eq!(
        context.set_field("host", b"\xff"),
        Err(decode::Error::IllformedUtf8InValue {
            key: String::from("host"),
            value: b"\xff".to_vec()
        })
    );
    assert_eq!(context, Context { host: Some(String::from("kept")), ..Context::default() });
}

#[test]
fn an_encoding_error_becomes_a_decoding_error() {
    let inner = Error::Encoding { key: String::from("k"), value: b"\n".to_vec() };
    assert_eq!(decode::Error::from(inner.clone()), decode::Error::Encoding(inner));
}

#[test]
fn split_lines_cuts_at_line_feeds_alone() {
    assert_eq!(split_lines(b""), Vec::<&[u8]>::new());
    assert_eq!(split_lines(b"one"), vec![&b"one"[..]]);
    assert_eq!(split_lines(b"one\n"), vec![&b"one"[..]]);
    assert_eq!(split_lines(b"\n"), vec![&b""[..]]);
    assert_eq!(split_lines(b"one\ntwo"), vec![&b"one"[..], &b"two"[..]]);
    assert_eq!(split_lines(b"\n\nx\n\n"), vec![&b""[..], &b""[..], &b"x"[..], &b""[..]]);
    assert_eq!(
        split_lines(b"a\r\n\r\nb\r"),
        vec![&b"a\r"[..], &b"\r"[..], &b"b\r"[..]]
    );
    assert_eq!(split_lines(b"a\0b\n=\n"), vec![&b"a\0b"[..], &b"="[..]]);
}
