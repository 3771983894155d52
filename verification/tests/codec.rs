use git_credentials::context::{Context, Error};
use git_credentials::decode;

fn text(s: &str) -> Option<String> {
    Some(String::from(s))
}

fn bytes(b: &[u8]) -> Option<Vec<u8>> {
    Some(b.to_vec())
}

fn full() -> Context {
    Context {
        protocol: text("https"),
        host: text("example.com"),
        path: bytes(b"repo/one.git"),
        username: text("alice"),
        password: text("s3cr=t pass"),
        url: bytes(b"https://example.com/repo/one.git"),
        quit: Some(true),
    }
}

fn encoded(context: &Context) -> Vec<u8> {
    let mut out = Vec::new();
    assert_eq!(context.write_to(&mut out), Ok(()));
    out
}

#[test]
fn encoding_is_bit_exact_and_in_the_order_of_the_format() {
    let expected: &[u8] = b"url=https://example.com/repo/one.git\npath=repo/one.git\nprotocol=https\nhost=example.com\nusername=alice\npassword=s3cr=t pass\nquit=true\n";
    assert_eq!(encoded(&full()), expected.to_vec());
}

#[test]
fn a_full_context_survives_the_round_trip() {
    let context = full();
    assert_eq!(Context::from_bytes(&encoded(&context)), Ok(context));
}

#[test]
fn a_context_with_a_false_flag_survives_the_round_trip() {
    let context = Context { quit: Some(false), ..Context::default() };
    let out = encoded(&context);
    assert_eq!(out, b"quit=false\n".to_vec());
    assert_eq!(Context::from_bytes(&out), Ok(context));
}

#[test]
fn text_beyond_ascii_survives_the_round_trip() {
    let context = Context {
        username: text("zoë"),
        password: text("пароль ☃"),
        ..Context::default()
    };
    let out = encoded(&context);
    assert_eq!(out, "username=zoë\npassword=пароль ☃\n".as_bytes().to_vec());
    assert_eq!(Context::from_bytes(&out), Ok(context));
}

#[test]
fn bytes_that_are_no_text_survive_the_round_trip_in_url_and_path() {
    let context = Context {
        url: bytes(b"https://\xff\xfe/"),
        path: bytes(b"\xc3\x28"),
        ..Context::default()
    };
    let out = encoded(&context);
    assert_eq!(out, b"url=https://\xff\xfe/\npath=\xc3\x28\n".to_vec());
    assert_eq!(Context::from_bytes(&out), Ok(context));
}

#[test]
fn empty_values_survive_the_round_trip() {
    let context = Context {
        url: bytes(b""),
        host: text(""),
        ..Context::default()
    };
    let out = encoded(&context);
    assert_eq!(out, b"url=\nhost=\n".to_vec());
    assert_eq!(Context::from_bytes(&out), Ok(context));
}

#[test]
fn the_default_context_has_no_field() {
    let context = Context::default();
    assert_eq!(context.protocol, None);
    assert_eq!(context.host, None);
    assert_eq!(context.path, None);
    assert_eq!(context.username, None);
    assert_eq!(context.password, None);
    assert_eq!(context.url, None);
    assert_eq!(context.quit, None);
}

#[test]
fn the_empty_context_is_encoded_as_nothing_and_decoded_from_nothing() {
    assert_eq!(encoded(&Context::default()), Vec::<u8>::new());
    assert_eq!(Context::from_bytes(b""), Ok(Context::default()));
}

#[test]
fn an_unset_field_leaves_no_line() {
    let context = Context { host: None, password: None, quit: None, ..full() };
    let out = encoded(&context);
    assert_eq!(
        out,
        b"url=https://example.com/repo/one.git\npath=repo/one.git\nprotocol=https\nusername=alice\n"
            .to_vec()
    );
    let back = Context::from_bytes(&out).unwrap();
    assert_eq!(back.host, None);
    assert_eq!(back.password, None);
    assert_eq!(back.quit, None);
    assert_eq!(back, context);
}

#[test]
fn encoding_appends_to_what_the_sink_holds() {
    let mut out = b"before\n".to_vec();
    let context = Context { host: text("h"), ..Context::default() };
    assert_eq!(context.write_to(&mut out), Ok(()));
    assert_eq!(out, b"before\nhost=h\n".to_vec());
}

#[test]
fn encoding_rejects_a_line_feed_in_a_byte_value() {
    let context = Context { url: bytes(b"a\nb"), ..Context::default() };
    let mut out = Vec::new();
    assert_eq!(
        context.write_to(&mut out),
        Err(Error::Encoding { key: String::from("url"), value: b"a\nb".to_vec() })
    );
    assert_eq!(out, Vec::<u8>::new());
}

#[test]
fn encoding_rejects_a_nul_byte_in_a_byte_value() {
    let context = Context { path: bytes(b"a\0b"), ..Context::default() };
    let mut out = Vec::new();
    assert_eq!(
        context.write_to(&mut out),
        Err(Error::Encoding { key: String::from("path"), value: b"a\0b".to_vec() })
    );
    assert_eq!(out, Vec::<u8>::new());
}

#[test]
fn encoding_rejects_a_line_feed_in_each_text_value() {
    let bad = "first\nsecond";
    let cases = [
        ("protocol", Context { protocol: text(bad), ..Context::default() }),
        ("host", Context { host: text(bad), ..Context::default() }),
        ("username", Context { username: text(bad), ..Context::default() }),
        ("password", Context { password: text(bad), ..Context::default() }),
    ];
    for (key, context) in cases {
        let mut out = Vec::new();
        assert_eq!(
            context.write_to(&mut out),
            Err(Error::Encoding { key: String::from(key), value: bad.as_bytes().to_vec() })
        );
        assert_eq!(out, Vec::<u8>::new());
    }
}

#[test]
fn encoding_rejects_a_nul_byte_in_a_text_value() {
    let context = Context { password: text("pa\0ss"), ..Context::default() };
    let mut out = Vec::new();
    assert_eq!(
        context.write_to(&mut out),
        Err(Error::Encoding { key: String::from("password"), value: b"pa\0ss".to_vec() })
    );
}

#[test]
fn encoding_stops_at_the_first_bad_field_and_keeps_the_lines_before_it() {
    let context = Context {
        url: bytes(b"u"),
        path: bytes(b"p"),
        protocol: text("bad\n"),
        host: text("worse\0"),
        username: text("never written"),
        ..Context::default()
    };
    let mut out = Vec::new();
    assert_eq!(
        context.write_to(&mut out),
        Err(Error::Encoding { key: String::from("protocol"), value: b"bad\n".to_vec() })
    );
    assert_eq!(out, b"url=u\npath=p\n".to_vec());
}

#[test]
fn keys_are_accepted_in_any_order() {
    let input = b"quit=true\npassword=s3cr=t pass\nusername=alice\nhost=example.com\nprotocol=https\npath=repo/one.git\nurl=https://example.com/repo/one.git\n";
    assert_eq!(Context::from_bytes(input), Ok(full()));
}

#[test]
fn the_last_line_needs_no_line_feed() {
    let expected = Context { url: bytes(b"u"), host: text("h"), ..Context::default() };
    assert_eq!(Context::from_bytes(b"url=u\nhost=h"), Ok(expected));
}

#[test]
fn the_last_occurrence_of_a_key_wins() {
    let expected = Context { host: text("second"), url: bytes(b"2"), ..Context::default() };
    assert_eq!(Context::from_bytes(b"host=first\nurl=1\nurl=2\nhost=second\n"), Ok(expected));
}

#[test]
fn a_value_is_everything_after_the_first_equals_sign() {
    let expected = Context { url: bytes(b"a=b=c"), password: text("=x="), ..Context::default() };
    assert_eq!(Context::from_bytes(b"url=a=b=c\npassword==x=\n"), Ok(expected));
}

#[test]
fn decoding_rejects_a_nul_byte_in_a_value() {
    assert_eq!(
        Context::from_bytes(b"host=a\nurl=x\0y\npath=p\n"),
        Err(decode::Error::Encoding(Error::Encoding {
            key: String::from("url"),
            value: b"x\0y".to_vec()
        }))
    );
}

#[test]
fn decoding_rejects_a_nul_byte_in_the_value_of_an_unknown_key() {
    assert_eq!(
        Context::from_bytes(b"foo=\0\n"),
        Err(decode::Error::Encoding(Error::Encoding {
            key: String::from("foo"),
            value: b"\0".to_vec()
        }))
    );
}

#[test]
fn decoding_rejects_a_nul_byte_in_a_key() {
    assert_eq!(
        Context::from_bytes(b"ho\0st=example.com\n"),
        Err(decode::Error::Encoding(Error::Encoding {
            key: String::from("ho\0st"),
            value: b"example.com".to_vec()
        }))
    );
}

#[test]
fn unknown_keys_are_ignored() {
    let expected = Context { url: bytes(b"u"), host: text("h"), ..Context::default() };
    assert_eq!(Context::from_bytes(b"url=u\nfoo=bar\nhost=h\n"), Ok(expected));
    assert_eq!(Context::from_bytes(b"foo=bar\n"), Ok(Context::default()));
    assert_eq!(Context::from_bytes(b"=bar\nURL=x\nhost =y\nquit2=no\n"), Ok(Context::default()));
}

#[test]
fn an_unknown_key_may_carry_bytes_that_are_no_text() {
    assert_eq!(Context::from_bytes(b"foo=\xff\n"), Ok(Context::default()));
}

fn quit_of(input: &[u8]) -> Option<bool> {
    Context::from_bytes(input).unwrap().quit
}

#[test]
fn the_words_for_true_set_the_flag() {
    assert_eq!(quit_of(b"quit=On\n"), Some(true));
    assert_eq!(quit_of(b"quit=YES\n"), Some(true));
    assert_eq!(quit_of(b"quit=true\n"), Some(true));
    assert_eq!(quit_of(b"quit=yes\n"), Some(true));
    assert_eq!(quit_of(b"quit=on\n"), Some(true));
    assert_eq!(quit_of(b"quit=TrUe\n"), Some(true));
}

#[test]
fn the_words_for_false_and_the_empty_value_clear_the_flag() {
    assert_eq!(quit_of(b"quit=off\n"), Some(false));
    assert_eq!(quit_of(b"quit=No\n"), Some(false));
    assert_eq!(quit_of(b"quit=\n"), Some(false));
    assert_eq!(quit_of(b"quit=false\n"), Some(false));
    assert_eq!(quit_of(b"quit=FALSE\n"), Some(false));
    assert_eq!(quit_of(b"quit=OFF\n"), Some(false));
    assert_eq!(quit_of(b"quit="), Some(false));
}

#[test]
fn a_word_that_is_not_known_sets_the_flag() {
    assert_eq!(quit_of(b"quit=banana\n"), Some(true));
    assert_eq!(quit_of(b"quit=0\n"), Some(true));
    assert_eq!(quit_of(b"quit= no\n"), Some(true));
    assert_eq!(quit_of(b"quit=\xff\n"), Some(true));
}

#[test]
fn a_blank_line_ends_the_decoding() {
    let expected = Context { url: bytes(b"http://x"), ..Context::default() };
    let decoded = Context::from_bytes(b"url=http://x\n\nhost=ignored\n").unwrap();
    assert_eq!(decoded.url, bytes(b"http://x"));
    assert_eq!(decoded.host, None);
    assert_eq!(decoded, expected);
}

#[test]
fn nothing_after_a_blank_line_is_looked_at() {
    let expected = Context { url: bytes(b"u"), ..Context::default() };
    assert_eq!(Context::from_bytes(b"url=u\n\nmalformed\nhost=\xff\nurl=\0\n"), Ok(expected));
    assert_eq!(Context::from_bytes(b"\nurl=u\n"), Ok(Context::default()));
    assert_eq!(Context::from_bytes(b"\n"), Ok(Context::default()));
}

#[test]
fn a_line_without_equals_sign_is_a_syntax_error_that_names_the_line() {
    assert_eq!(
        Context::from_bytes(b"malformed"),
        Err(decode::Error::Syntax { line: b"malformed".to_vec() })
    );
    assert_eq!(
        Context::from_bytes(b"url=u\nmal\xffformed\nhost=h\n"),
        Err(decode::Error::Syntax { line: b"mal\xffformed".to_vec() })
    );
}

#[test]
fn a_key_that_is_no_text_is_a_syntax_error_that_names_the_line() {
    assert_eq!(
        Context::from_bytes(b"ho\xffst=example.com\n"),
        Err(decode::Error::Syntax { line: b"ho\xffst=example.com".to_vec() })
    );
    assert_eq!(
        Context::from_bytes(b"\xed\xa0\x80=surrogate\n"),
        Err(decode::Error::Syntax { line: b"\xed\xa0\x80=surrogate".to_vec() })
    );
}

#[test]
fn the_first_line_that_fails_decides_the_error() {
    assert_eq!(
        Context::from_bytes(b"username=\xff\nmalformed\n"),
        Err(decode::Error::IllformedUtf8InValue {
            key: String::from("username"),
            value: b"\xff".to_vec()
        })
    );
    assert_eq!(
        Context::from_bytes(b"malformed\nusername=\xff\n"),
        Err(decode::Error::Syntax { line: b"malformed".to_vec() })
    );
}

#[test]
fn a_text_value_that_is_no_text_is_illformed() {
    for key in ["protocol", "host", "username", "password"] {
        let mut input = key.as_bytes().to_vec();
        input.extend_from_slice(b"=caf\xe9\n");
        assert_eq!(
            Context::from_bytes(&input),
            Err(decode::Error::IllformedUtf8InValue {
                key: String::from(key),
                value: b"caf\xe9".to_vec()
            })
        );
    }
}

#[test]
fn overlong_and_truncated_sequences_are_no_text() {
    assert_eq!(
        Context::from_bytes(b"host=\xf0\x82\x82\xac\n"),
        Err(decode::Error::IllformedUtf8InValue {
            key: String::from("host"),
            value: b"\xf0\x82\x82\xac".to_vec()
        })
    );
    assert_eq!(
        Context::from_bytes(b"host=\xe2\x98\n"),
        Err(decode::Error::IllformedUtf8InValue {
            key: String::from("host"),
            value: b"\xe2\x98".to_vec()
        })
    );
}

#[test]
fn url_and_path_take_bytes_that_are_no_text() {
    let expected = Context { url: bytes(b"\xff\xfe"), path: bytes(b"caf\xe9"), ..Context::default() };
    assert_eq!(Context::from_bytes(b"url=\xff\xfe\npath=caf\xe9\n"), Ok(expected));
}

#[test]
fn each_text_field_takes_its_own_value() {
    let expected = Context {
        protocol: text("p"),
        host: text("h"),
        username: text("u"),
        password: text("w"),
        ..Context::default()
    };
    assert_eq!(Context::from_bytes(b"password=w\nusername=u\nhost=h\nprotocol=p\n"), Ok(expected));
}

#[test]
fn a_carriage_return_before_the_line_feed_stays_in_the_value() {
    let expected = Context {
        url: bytes(b"u\r"),
        host: text("h\r"),
        quit: Some(true),
        ..Context::default()
    };
    assert_eq!(Context::from_bytes(b"url=u\r\nhost=h\r\nquit=\r\n"), Ok(expected));
}

#[test]
fn a_line_of_a_carriage_return_alone_is_a_syntax_error() {
    assert_eq!(
        Context::from_bytes(b"\r\n"),
        Err(decode::Error::Syntax { line: b"\r".to_vec() })
    );
    assert_eq!(
        Context::from_bytes(b"url=u\n\r\nhost=h\n"),
        Err(decode::Error::Syntax { line: b"\r".to_vec() })
    );
}

#[test]
fn a_carriage_return_is_a_byte_like_any_other() {
    let expected = Context {
        url: bytes(b"u\r\r"),
        path: bytes(b"a\rb"),
        host: text("h\r"),
        ..Context::default()
    };
    assert_eq!(Context::from_bytes(b"url=u\r\r\npath=a\rb\nhost=h\r"), Ok(expected));
}

#[test]
fn a_value_that_ends_with_a_carriage_return_survives_the_round_trip() {
    let context = Context {
        url: bytes(b"a\r"),
        path: bytes(b"\r"),
        username: text("b\r"),
        password: text("\r\r"),
        ..Context::default()
    };
    let out = encoded(&context);
    assert_eq!(out, b"url=a\r\npath=\r\nusername=b\r\npassword=\r\r\n".to_vec());
    assert_eq!(Context::from_bytes(&out), Ok(context));
}

#[test]
fn whatever_is_decoded_can_be_encoded() {
    let decoded = Context::from_bytes(b"url=a=b\r\nfoo=bar\nhost=h\nquit=maybe\n\nrest").unwrap();
    assert_eq!(encoded(&decoded), b"url=a=b\r\nhost=h\nquit=true\n".to_vec());
}

#[test]
fn a_line_with_an_unknown_key_changes_nothing() {
    let with = b"url=u\nfoo=bar\nhost=h\nbroken";
    let without = b"url=u\nhost=h\nbroken";
    assert_eq!(Context::from_bytes(with), Context::from_bytes(without));
    let with = b"url=u\nfoo=bar\n\nhost=h\n";
    let without = b"url=u\n\nhost=h\n";
    assert_eq!(Context::from_bytes(with), Context::from_bytes(without));
}
