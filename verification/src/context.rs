//! The context that is exchanged, the validation that every field passes
//! before it is written or stored, and the encoder.

use crate::bytes::{contains_byte, is_clean, EQUALS, LINE_FEED, NUL};
use crate::laws::encode_fails_iff_unclean;
use vstd::prelude::*;
use vstd::slice::slice_to_vec;
use vstd::string::StringSliceAdditionalSpecFns;
use vstd::utf8::encode_utf8;

verus! {

/// The fields of a credential exchange. Each is either absent or present
/// with a value; `url` and `path` are opaque bytes, the other values text.
#[derive(Debug, Clone, PartialEq, Eq)]
pub struct Context {
    pub protocol: Option<String>,
    pub host: Option<String>,
    pub path: Option<Vec<u8>>,
    pub username: Option<String>,
    pub password: Option<String>,
    pub url: Option<Vec<u8>>,
    pub quit: Option<bool>,
}

/// A context as a mathematical value.
pub struct ContextView {
    pub protocol: Option<Seq<char>>,
    pub host: Option<Seq<char>>,
    pub path: Option<Seq<u8>>,
    pub username: Option<Seq<char>>,
    pub password: Option<Seq<char>>,
    pub url: Option<Seq<u8>>,
    pub quit: Option<bool>,
}

/// The characters of an optional text.
pub open spec fn text_view(text: Option<String>) -> Option<Seq<char>> {
    match text {
        Some(s) => Some(s@),
        None => None,
    }
}

/// The bytes of an optional byte string.
pub open spec fn bytes_view(bytes: Option<Vec<u8>>) -> Option<Seq<u8>> {
    match bytes {
        Some(b) => Some(b@),
        None => None,
    }
}

impl View for Context {
    type V = ContextView;

    open spec fn view(&self) -> ContextView {
        ContextView {
            protocol: text_view(self.protocol),
            host: text_view(self.host),
            path: bytes_view(self.path),
            username: text_view(self.username),
            password: text_view(self.password),
            url: bytes_view(self.url),
            quit: self.quit,
        }
    }
}

/// A key or a value that cannot be encoded.
#[derive(Debug, Clone, PartialEq, Eq)]
pub enum Error {
    /// The key or the value holds a NUL byte or a line feed.
    Encoding { key: String, value: Vec<u8> },
}

/// An [`Error`] as a mathematical value.
pub enum ErrorView {
    Encoding { key: Seq<char>, value: Seq<u8> },
}

impl View for Error {
    type V = ErrorView;

    open spec fn view(&self) -> ErrorView {
        match self {
            Error::Encoding { key, value } => ErrorView::Encoding { key: key@, value: value@ },
        }
    }
}

/// The bytes as which an optional text is written.
pub open spec fn text_bytes(text: Option<Seq<char>>) -> Option<Seq<u8>> {
    match text {
        Some(chars) => Some(encode_utf8(chars)),
        None => None,
    }
}

/// The bytes as which an optional flag is written.
pub open spec fn flag_bytes(flag: Option<bool>) -> Option<Seq<u8>> {
    match flag {
        Some(true) => Some("true".spec_bytes()),
        Some(false) => Some("false".spec_bytes()),
        None => None,
    }
}

/// Whether the format can carry this key with this value.
pub open spec fn is_encodable(key: Seq<char>, value: Seq<u8>) -> bool {
    is_clean(encode_utf8(key)) && is_clean(value)
}

/// A key and a value as they stand in a line: the key, `=`, the value as
/// it is.
pub open spec fn key_value(key: Seq<char>, value: Seq<u8>) -> Seq<u8> {
    encode_utf8(key) + seq![EQUALS] + value
}

/// The line of one field: the key and the value, and a line feed.
pub open spec fn field_line(key: Seq<char>, value: Seq<u8>) -> Seq<u8> {
    key_value(key, value) + seq![LINE_FEED]
}

/// The line of a field, or nothing for a field that is absent.
pub open spec fn optional_line(key: Seq<char>, value: Option<Seq<u8>>) -> Seq<u8> {
    match value {
        Some(v) => field_line(key, v),
        None => Seq::empty(),
    }
}

/// How far an encoding got: the bytes written, and the error that ended it.
pub struct Output {
    pub bytes: Seq<u8>,
    pub failure: Option<ErrorView>,
}

/// The output after one more field. An absent field adds nothing; a field
/// that cannot be encoded ends the encoding, and nothing is written after it.
pub open spec fn emit(output: Output, key: Seq<char>, value: Option<Seq<u8>>) -> Output {
    match (output.failure, value) {
        (None, Some(v)) => if is_encodable(key, v) {
            Output { bytes: output.bytes + field_line(key, v), failure: None }
        } else {
            Output { bytes: output.bytes, failure: Some(ErrorView::Encoding { key, value: v }) }
        },
        _ => output,
    }
}

/// The output of encoding a context after bytes that are there already.
pub open spec fn encode_onto(start: Seq<u8>, context: ContextView) -> Output {
    let output = Output { bytes: start, failure: None };
    let output = emit(output, "url"@, context.url);
    let output = emit(output, "path"@, context.path);
    let output = emit(output, "protocol"@, text_bytes(context.protocol));
    let output = emit(output, "host"@, text_bytes(context.host));
    let output = emit(output, "username"@, text_bytes(context.username));
    let output = emit(output, "password"@, text_bytes(context.password));
    emit(output, "quit"@, flag_bytes(context.quit))
}

/// The encoding of a context: its fields in the order of the format.
pub open spec fn encode(context: ContextView) -> Output {
    encode_onto(Seq::empty(), context)
}

impl ContextView {
    /// The context in which every field is absent.
    pub open spec fn empty() -> ContextView {
        ContextView {
            protocol: None,
            host: None,
            path: None,
            username: None,
            password: None,
            url: None,
            quit: None,
        }
    }

    /// Every value that is present is free of NUL bytes and line feeds.
    pub open spec fn is_clean(self) -> bool {
        &&& self.url matches Some(v) ==> is_clean(v)
        &&& self.path matches Some(v) ==> is_clean(v)
        &&& self.protocol matches Some(t) ==> is_clean(encode_utf8(t))
        &&& self.host matches Some(t) ==> is_clean(encode_utf8(t))
        &&& self.username matches Some(t) ==> is_clean(encode_utf8(t))
        &&& self.password matches Some(t) ==> is_clean(encode_utf8(t))
    }
}

impl Default for Context {
    fn default() -> (context: Context)
        ensures
            context@ == ContextView::empty(),
    {
        Context {
            protocol: None,
            host: None,
            path: None,
            username: None,
            password: None,
            url: None,
            quit: None,
        }
    }
}

/// Accepts a key and a value that hold neither a NUL byte nor a line feed,
/// and names both in the error otherwise.
pub fn validate(key: &str, value: &[u8]) -> (checked: Result<(), Error>)
    ensures
        checked is Ok <==> is_encodable(key@, value@),
        checked matches Err(e) ==> e@ == (ErrorView::Encoding { key: key@, value: value@ }),
{
    let name = key.as_bytes();
    if contains_byte(name, NUL) || contains_byte(name, LINE_FEED) || contains_byte(value, NUL)
        || contains_byte(value, LINE_FEED) {
        return Err(Error::Encoding { key: key.to_owned(), value: slice_to_vec(value) });
    }
    Ok(())
}

/// The bytes of an optional slice.
pub open spec fn slice_view(bytes: Option<&[u8]>) -> Option<Seq<u8>> {
    match bytes {
        Some(b) => Some(b@),
        None => None,
    }
}

/// The value of a byte field as it is written.
fn bytes_of(field: &Option<Vec<u8>>) -> (bytes: Option<&[u8]>)
    ensures
        slice_view(bytes) == bytes_view(*field),
{
    match field {
        Some(value) => Some(value.as_slice()),
        None => None,
    }
}

/// The value of a text field as it is written.
fn text_of(field: &Option<String>) -> (bytes: Option<&[u8]>)
    ensures
        slice_view(bytes) == text_bytes(text_view(*field)),
{
    match field {
        Some(value) => Some(value.as_str().as_bytes()),
        None => None,
    }
}

/// The value of a flag as it is written.
fn flag_word(flag: Option<bool>) -> (bytes: Option<&'static [u8]>)
    ensures
        slice_view(bytes) == flag_bytes(flag),
{
    match flag {
        Some(true) => Some("true".as_bytes()),
        Some(false) => Some("false".as_bytes()),
        None => None,
    }
}

/// Appends the line of one field.
fn write_key(out: &mut Vec<u8>, key: &str, value: &[u8])
    ensures
        final(out)@ == old(out)@ + field_line(key@, value@),
{
    out.extend_from_slice(key.as_bytes());
    out.push(EQUALS);
    out.extend_from_slice(value);
    out.push(LINE_FEED);
    assert(out@ =~= old(out)@ + field_line(key@, value@));
}

/// Checks one field, if it is present, and appends its line.
fn write_field(out: &mut Vec<u8>, key: &str, value: Option<&[u8]>) -> (written: Result<(), Error>)
    ensures
        final(out)@ == emit(
            Output { bytes: old(out)@, failure: None },
            key@,
            slice_view(value),
        ).bytes,
        match written {
            Ok(()) => emit(
                Output { bytes: old(out)@, failure: None },
                key@,
                slice_view(value),
            ).failure is None,
            Err(e) => emit(
                Output { bytes: old(out)@, failure: None },
                key@,
                slice_view(value),
            ).failure == Some(e@),
        },
{
    match value {
        Some(bytes) => match validate(key, bytes) {
            Ok(()) => {
                write_key(out, key, bytes);
                Ok(())
            },
            Err(e) => Err(e),
        },
        None => Ok(()),
    }
}

/// One more field adds the same bytes and fails alike, whatever was written
/// before it.
pub proof fn lemma_emit_onto(start: Seq<u8>, output: Output, key: Seq<char>, value: Option<Seq<u8>>)
    ensures
        emit(Output { bytes: start + output.bytes, failure: output.failure }, key, value).bytes
            == start + emit(output, key, value).bytes,
        emit(Output { bytes: start + output.bytes, failure: output.failure }, key, value).failure
            == emit(output, key, value).failure,
{
    let onto = emit(Output { bytes: start + output.bytes, failure: output.failure }, key, value);
    assert(onto.bytes =~= start + emit(output, key, value).bytes);
}

/// Encoding after other bytes appends the encoding, and fails alike.
pub proof fn lemma_encode_onto(start: Seq<u8>, context: ContextView)
    ensures
        encode_onto(start, context).bytes == start + encode(context).bytes,
        encode_onto(start, context).failure == encode(context).failure,
{
    let a0 = Output { bytes: Seq::empty(), failure: None };
    assert(start + a0.bytes =~= start);
    let a1 = emit(a0, "url"@, context.url);
    lemma_emit_onto(start, a0, "url"@, context.url);
    let a2 = emit(a1, "path"@, context.path);
    lemma_emit_onto(start, a1, "path"@, context.path);
    let a3 = emit(a2, "protocol"@, text_bytes(context.protocol));
    lemma_emit_onto(start, a2, "protocol"@, text_bytes(context.protocol));
    let a4 = emit(a3, "host"@, text_bytes(context.host));
    lemma_emit_onto(start, a3, "host"@, text_bytes(context.host));
    let a5 = emit(a4, "username"@, text_bytes(context.username));
    lemma_emit_onto(start, a4, "username"@, text_bytes(context.username));
    let a6 = emit(a5, "password"@, text_bytes(context.password));
    lemma_emit_onto(start, a5, "password"@, text_bytes(context.password));
    lemma_emit_onto(start, a6, "quit"@, flag_bytes(context.quit));
}

impl Context {
    /// Appends the encoding of `self` to `out`: one line per present field,
    /// in the order `url`, `path`, `protocol`, `host`, `username`,
    /// `password`, `quit`. The first value that holds a NUL byte or a line
    /// feed ends the encoding with an error that names it; the lines of the
    /// fields before it have been appended by then, and nothing after them.
    /// The encoding succeeds exactly where no value holds such a byte.
    pub fn write_to(&self, out: &mut Vec<u8>) -> (written: Result<(), Error>)
        ensures
            final(out)@ == old(out)@ + encode(self@).bytes,
            match written {
                Ok(()) => encode(self@).failure is None,
                Err(e) => encode(self@).failure == Some(e@),
            },
            written is Ok <==> self@.is_clean(),
    {
        proof {
            lemma_encode_onto(out@, self@);
            encode_fails_iff_unclean(self@);
        }
        match write_field(out, "url", bytes_of(&self.url)) {
            Ok(()) => {},
            Err(e) => {
                return Err(e);
            },
        }
        match write_field(out, "path", bytes_of(&self.path)) {
            Ok(()) => {},
            Err(e) => {
                return Err(e);
            },
        }
        match write_field(out, "protocol", text_of(&self.protocol)) {
            Ok(()) => {},
            Err(e) => {
                return Err(e);
            },
        }
        match write_field(out, "host", text_of(&self.host)) {
            Ok(()) => {},
            Err(e) => {
                return Err(e);
            },
        }
        match write_field(out, "username", text_of(&self.username)) {
            Ok(()) => {},
            Err(e) => {
                return Err(e);
            },
        }
        match write_field(out, "password", text_of(&self.password)) {
            Ok(()) => {},
            Err(e) => {
                return Err(e);
            },
        }
        write_field(out, "quit", flag_word(self.quit))
    }
}

} // verus!
