//! What holds of encoding and decoding together: each law is a proof that
//! Verus checks against the model of the format.
//!
//! - [`round_trip`]: what is decoded from an encoding.
//! - [`encoding_of_clean_context`], [`omission`]: an absent field leaves no
//!   line, and is absent again after decoding.
//! - [`encode_fails_iff_unclean`], [`unclean_value_is_rejected`],
//!   [`decode_rejects_nul`], [`decoded_is_clean`]: NUL bytes and line feeds
//!   in a value are refused in both directions.
//! - [`unknown_key_is_passed_over`]: a key that is not known changes nothing.
//! - [`empty_line_ends_decoding`]: nothing after an empty line is read.
//! - [`line_without_equals_is_refused`],
//!   [`decode_refuses_line_without_equals`],
//!   [`decode_refuses_first_line_without_equals`]: a line needs its `=`.
//! - [`text_field_refuses_other_bytes`], [`byte_fields_take_any_bytes`]:
//!   which fields need well-formed UTF-8.

use crate::byte_string::lines_of;
use crate::bytes::{is_clean, lemma_no_occurrence, EQUALS, LINE_FEED, NUL};
use crate::context::{
    emit, encode, field_line, flag_bytes, is_encodable, key_value, optional_line, text_bytes,
    ContextView, Output,
};
use crate::decode::{decode, is_known_key, is_text_key, read_line, read_lines, ErrorView};
use crate::lemmas::{
    lemma_first_equals, lemma_key_value_has_no_line_feed, lemma_keys, lemma_line_of_field,
    lemma_lines_after_line, lemma_lines_of_concat, lemma_parsed_key_value,
    lemma_read_lines_keep_clean, lemma_read_lines_until_empty, lemma_read_lines_without,
    lemma_read_written_host, lemma_read_written_password, lemma_read_written_path,
    lemma_read_written_protocol, lemma_read_written_quit, lemma_read_written_url,
    lemma_read_written_username, lemma_regrouped, lemma_words,
};
use vstd::prelude::*;
use vstd::utf8::{encode_utf8, valid_utf8};

verus! {

/// Round trip: a context whose values hold neither a NUL byte nor a line
/// feed is encoded without error and decoded from its encoding as it was.
pub proof fn round_trip(context: ContextView)
    requires
        context.is_clean(),
    ensures
        encode(context).failure is None,
        decode(encode(context).bytes) == Ok::<ContextView, ErrorView>(context),
{
    encoding_of_clean_context(context);
    let from_quit = optional_line("quit"@, flag_bytes(context.quit)) + Seq::<u8>::empty();
    let from_password = optional_line("password"@, text_bytes(context.password)) + from_quit;
    let from_username = optional_line("username"@, text_bytes(context.username)) + from_password;
    let from_host = optional_line("host"@, text_bytes(context.host)) + from_username;
    let from_protocol = optional_line("protocol"@, text_bytes(context.protocol)) + from_host;
    let from_path = optional_line("path"@, context.path) + from_protocol;
    let from_url = optional_line("url"@, context.url) + from_path;
    lemma_regrouped(
        optional_line("url"@, context.url),
        optional_line("path"@, context.path),
        optional_line("protocol"@, text_bytes(context.protocol)),
        optional_line("host"@, text_bytes(context.host)),
        optional_line("username"@, text_bytes(context.username)),
        optional_line("password"@, text_bytes(context.password)),
        optional_line("quit"@, flag_bytes(context.quit)),
    );
    assert(encode(context).bytes == from_url);

    let c0 = ContextView::empty();
    let c1 = ContextView { url: context.url, ..c0 };
    let c2 = ContextView { path: context.path, ..c1 };
    let c3 = ContextView { protocol: context.protocol, ..c2 };
    let c4 = ContextView { host: context.host, ..c3 };
    let c5 = ContextView { username: context.username, ..c4 };
    let c6 = ContextView { password: context.password, ..c5 };
    let c7 = ContextView { quit: context.quit, ..c6 };
    assert(c7 == context);

    lemma_read_written_url(c0, context.url, from_path);
    assert(read_lines(c0, lines_of(from_url)) == read_lines(c1, lines_of(from_path)));
    lemma_read_written_path(c1, context.path, from_protocol);
    assert(read_lines(c1, lines_of(from_path)) == read_lines(c2, lines_of(from_protocol)));
    lemma_read_written_protocol(c2, context.protocol, from_host);
    assert(read_lines(c2, lines_of(from_protocol)) == read_lines(c3, lines_of(from_host)));
    lemma_read_written_host(c3, context.host, from_username);
    assert(read_lines(c3, lines_of(from_host)) == read_lines(c4, lines_of(from_username)));
    lemma_read_written_username(c4, context.username, from_password);
    assert(read_lines(c4, lines_of(from_username)) == read_lines(c5, lines_of(from_password)));
    lemma_read_written_password(c5, context.password, from_quit);
    assert(read_lines(c5, lines_of(from_password)) == read_lines(c6, lines_of(from_quit)));
    lemma_read_written_quit(c6, context.quit, Seq::<u8>::empty());
    assert(read_lines(c6, lines_of(from_quit)) == read_lines(c7, lines_of(Seq::<u8>::empty())));
    assert(read_lines(c7, lines_of(Seq::<u8>::empty())) == Ok::<ContextView, ErrorView>(c7));
}

/// The encoding of a context whose values are clean is the lines of its
/// present fields, in the order of the format, and nothing else: an absent
/// field leaves no byte.
pub proof fn encoding_of_clean_context(context: ContextView)
    requires
        context.is_clean(),
    ensures
        encode(context).failure is None,
        encode(context).bytes == optional_line("url"@, context.url) + optional_line(
            "path"@,
            context.path,
        ) + optional_line("protocol"@, text_bytes(context.protocol)) + optional_line(
            "host"@,
            text_bytes(context.host),
        ) + optional_line("username"@, text_bytes(context.username)) + optional_line(
            "password"@,
            text_bytes(context.password),
        ) + optional_line("quit"@, flag_bytes(context.quit)),
{
    lemma_keys();
    lemma_words();
    assert(is_known_key("url"@) && is_known_key("path"@) && is_known_key("protocol"@)
        && is_known_key("host"@) && is_known_key("username"@) && is_known_key("password"@)
        && is_known_key("quit"@));
    let start = Output { bytes: Seq::empty(), failure: None };
    let url = emit(start, "url"@, context.url);
    assert(url.failure is None && url.bytes =~= optional_line("url"@, context.url));
    let path = emit(url, "path"@, context.path);
    assert(path.failure is None && path.bytes =~= url.bytes + optional_line(
        "path"@,
        context.path,
    ));
    let protocol = emit(path, "protocol"@, text_bytes(context.protocol));
    assert(protocol.failure is None && protocol.bytes =~= path.bytes + optional_line(
        "protocol"@,
        text_bytes(context.protocol),
    ));
    let host = emit(protocol, "host"@, text_bytes(context.host));
    assert(host.failure is None && host.bytes =~= protocol.bytes + optional_line(
        "host"@,
        text_bytes(context.host),
    ));
    let username = emit(host, "username"@, text_bytes(context.username));
    assert(username.failure is None && username.bytes =~= host.bytes + optional_line(
        "username"@,
        text_bytes(context.username),
    ));
    let password = emit(username, "password"@, text_bytes(context.password));
    assert(password.failure is None && password.bytes =~= username.bytes + optional_line(
        "password"@,
        text_bytes(context.password),
    ));
    let quit = emit(password, "quit"@, flag_bytes(context.quit));
    assert(quit.failure is None && quit.bytes =~= password.bytes + optional_line(
        "quit"@,
        flag_bytes(context.quit),
    ));
}

/// Omission: in what is decoded from the encoding of a context, a field is
/// present exactly where it was present in that context.
pub proof fn omission(context: ContextView)
    requires
        context.is_clean(),
    ensures
        decode(encode(context).bytes) matches Ok(back) && {
            &&& back.url is None <==> context.url is None
            &&& back.path is None <==> context.path is None
            &&& back.protocol is None <==> context.protocol is None
            &&& back.host is None <==> context.host is None
            &&& back.username is None <==> context.username is None
            &&& back.password is None <==> context.password is None
            &&& back.quit == context.quit
        },
{
    round_trip(context);
}

/// Whether the context has a field of this key that is written as this value.
pub open spec fn has_field(context: ContextView, key: Seq<char>, value: Seq<u8>) -> bool {
    ||| key == "url"@ && context.url == Some(value)
    ||| key == "path"@ && context.path == Some(value)
    ||| key == "protocol"@ && text_bytes(context.protocol) == Some(value)
    ||| key == "host"@ && text_bytes(context.host) == Some(value)
    ||| key == "username"@ && text_bytes(context.username) == Some(value)
    ||| key == "password"@ && text_bytes(context.password) == Some(value)
}

/// Rejection on the way out: an encoding fails exactly where a value that
/// is present holds a NUL byte or a line feed, and the error names such a
/// field.
pub proof fn encode_fails_iff_unclean(context: ContextView)
    ensures
        encode(context).failure is None <==> context.is_clean(),
        encode(context).failure matches Some(crate::context::ErrorView::Encoding { key, value })
            ==> has_field(context, key, value) && !is_clean(value),
{
    if context.is_clean() {
        encoding_of_clean_context(context);
    } else {
        lemma_keys();
        lemma_words();
        assert(is_known_key("url"@) && is_known_key("path"@) && is_known_key("protocol"@)
            && is_known_key("host"@) && is_known_key("username"@) && is_known_key("password"@)
            && is_known_key("quit"@));
    }
}

/// Rejection on the way in: a line whose value holds a NUL byte or a line
/// feed is refused with an error that names the key and the value, whatever
/// the key and whatever was read before.
pub proof fn unclean_value_is_rejected(context: ContextView, key: Seq<char>, value: Seq<u8>)
    requires
        !encode_utf8(key).contains(EQUALS),
        !is_clean(value),
    ensures
        read_line(context, key_value(key, value)) == Err::<ContextView, ErrorView>(
            ErrorView::Encoding(crate::context::ErrorView::Encoding { key, value }),
        ),
{
    lemma_first_equals(key, value);
}

/// Rejection on the way in: an input whose first line gives a key a value
/// with a NUL byte is refused with an error that names the key and the
/// value.
pub proof fn decode_rejects_nul(key: Seq<char>, value: Seq<u8>, rest: Seq<u8>)
    requires
        !encode_utf8(key).contains(EQUALS),
        !encode_utf8(key).contains(LINE_FEED),
        !value.contains(LINE_FEED),
        value.contains(NUL),
    ensures
        decode(key_value(key, value) + seq![LINE_FEED] + rest) == Err::<ContextView, ErrorView>(
            ErrorView::Encoding(crate::context::ErrorView::Encoding { key, value }),
        ),
{
    let line = key_value(key, value);
    lemma_key_value_has_no_line_feed(key, value);
    lemma_lines_after_line(line, rest);
    unclean_value_is_rejected(ContextView::empty(), key, value);
    assert(lines_of(line + seq![LINE_FEED] + rest)[0] == line);
    assert(line.len() > 0);
}

/// Whatever is decoded can be encoded: no value of a decoded context holds
/// a NUL byte or a line feed.
pub proof fn decoded_is_clean(input: Seq<u8>)
    ensures
        decode(input) matches Ok(context) ==> context.is_clean() && encode(context).failure is None,
{
    lemma_read_lines_keep_clean(ContextView::empty(), lines_of(input));
    if let Ok(context) = decode(input) {
        encode_fails_iff_unclean(context);
    }
}

/// Unknown-key tolerance: a line with a key that is not known, put between
/// the lines of an input, changes nothing in what the input decodes to.
pub proof fn unknown_key_is_passed_over(
    before: Seq<u8>,
    key: Seq<char>,
    value: Seq<u8>,
    after: Seq<u8>,
)
    requires
        before.len() == 0 || before.last() == LINE_FEED,
        is_encodable(key, value),
        !encode_utf8(key).contains(EQUALS),
        !is_known_key(key),
    ensures
        decode(before + field_line(key, value) + after) == decode(before + after),
{
    let line = key_value(key, value);
    lemma_parsed_key_value(key, value);
    lemma_line_of_field(key, value, after);
    lemma_lines_of_concat(before, field_line(key, value) + after);
    lemma_lines_of_concat(before, after);
    assert(before + field_line(key, value) + after =~= before + (field_line(key, value) + after));
    assert(line.len() > 0);
    lemma_read_lines_without(ContextView::empty(), lines_of(before), line, lines_of(after));
}

/// Termination: nothing that follows an empty line is read.
pub proof fn empty_line_ends_decoding(before: Seq<u8>, after: Seq<u8>)
    requires
        before.len() == 0 || before.last() == LINE_FEED,
    ensures
        decode(before + seq![LINE_FEED] + after) == decode(before),
{
    let blank = Seq::<u8>::empty();
    lemma_no_occurrence(blank, LINE_FEED);
    lemma_lines_after_line(blank, after);
    assert(blank + seq![LINE_FEED] + after =~= seq![LINE_FEED] + after);
    lemma_lines_of_concat(before, seq![LINE_FEED] + after);
    assert(before + seq![LINE_FEED] + after =~= before + (seq![LINE_FEED] + after));
    lemma_read_lines_until_empty(ContextView::empty(), lines_of(before), lines_of(after));
}

/// Syntax failure: a line without `=` is refused with an error that holds
/// the line, whatever was read before.
pub proof fn line_without_equals_is_refused(context: ContextView, line: Seq<u8>)
    requires
        !line.contains(EQUALS),
    ensures
        read_line(context, line) == Err::<ContextView, ErrorView>(ErrorView::Syntax { line }),
{
    line.index_of_first_ensures(EQUALS);
}

/// Syntax failure: an input that is one line without `=` is refused with an
/// error that holds that line.
pub proof fn decode_refuses_line_without_equals(line: Seq<u8>)
    requires
        line.len() > 0,
        !line.contains(EQUALS),
        !line.contains(LINE_FEED),
    ensures
        decode(line) == Err::<ContextView, ErrorView>(ErrorView::Syntax { line }),
{
    line.index_of_first_ensures(LINE_FEED);
    line_without_equals_is_refused(ContextView::empty(), line);
    assert(lines_of(line) =~= seq![line]);
}

/// Syntax failure: an input whose first line is not empty and has no `=`
/// is refused with an error that holds that line, whatever follows it.
pub proof fn decode_refuses_first_line_without_equals(line: Seq<u8>, rest: Seq<u8>)
    requires
        line.len() > 0,
        !line.contains(EQUALS),
        !line.contains(LINE_FEED),
    ensures
        decode(line + seq![LINE_FEED] + rest) == Err::<ContextView, ErrorView>(
            ErrorView::Syntax { line },
        ),
{
    lemma_lines_after_line(line, rest);
    line_without_equals_is_refused(ContextView::empty(), line);
    assert(lines_of(line + seq![LINE_FEED] + rest)[0] == line);
}

/// A text field takes text only: a clean value that is not well-formed
/// UTF-8 is refused for it with an error that names the key and the value.
pub proof fn text_field_refuses_other_bytes(
    context: ContextView,
    key: Seq<char>,
    value: Seq<u8>,
)
    requires
        is_text_key(key),
        is_clean(value),
        !valid_utf8(value),
    ensures
        read_line(context, key_value(key, value)) == Err::<ContextView, ErrorView>(
            ErrorView::IllformedUtf8InValue { key, value },
        ),
{
    lemma_keys();
    assert(is_known_key(key));
    lemma_parsed_key_value(key, value);
}

/// `url` and `path` take any clean bytes as they are.
pub proof fn byte_fields_take_any_bytes(context: ContextView, value: Seq<u8>)
    requires
        is_clean(value),
    ensures
        read_line(context, key_value("url"@, value)) == Ok::<ContextView, ErrorView>(
            ContextView { url: Some(value), ..context },
        ),
        read_line(context, key_value("path"@, value)) == Ok::<ContextView, ErrorView>(
            ContextView { path: Some(value), ..context },
        ),
{
    lemma_keys();
    assert(is_known_key("url"@) && is_known_key("path"@));
    lemma_parsed_key_value("url"@, value);
    lemma_parsed_key_value("path"@, value);
}

} // verus!
