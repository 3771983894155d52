//! The decoder: from the bytes of an exchange to the context they describe.

use crate::boolean::{flag_of, parse_flag};
use crate::byte_string::{as_text, lines_of, split_lines, text_eq, views};
use crate::bytes::{find_byte, EQUALS};
use crate::context::{is_encodable, validate, Context, ContextView};
use crate::laws::decoded_is_clean;
use vstd::prelude::*;
use vstd::slice::{slice_subrange, slice_to_vec};
use vstd::utf8::{decode_utf8, valid_utf8};

verus! {

/// Why an input could not be decoded.
#[derive(Debug, Clone, PartialEq, Eq)]
pub enum Error {
    /// The value of a text field is not well-formed UTF-8.
    IllformedUtf8InValue { key: String, value: Vec<u8> },
    /// The key or the value of a line holds a NUL byte.
    Encoding(crate::context::Error),
    /// The line has no `=`, or its key is not well-formed UTF-8.
    Syntax { line: Vec<u8> },
}

/// An [`Error`] as a mathematical value.
pub enum ErrorView {
    IllformedUtf8InValue { key: Seq<char>, value: Seq<u8> },
    Encoding(crate::context::ErrorView),
    Syntax { line: Seq<u8> },
}

impl View for Error {
    type V = ErrorView;

    open spec fn view(&self) -> ErrorView {
        match self {
            Error::IllformedUtf8InValue { key, value } => ErrorView::IllformedUtf8InValue {
                key: key@,
                value: value@,
            },
            Error::Encoding(e) => ErrorView::Encoding(e@),
            Error::Syntax { line } => ErrorView::Syntax { line: line@ },
        }
    }
}

impl From<crate::context::Error> for Error {
    fn from(error: crate::context::Error) -> (wrapped: Error) {
        Error::Encoding(error)
    }
}

impl vstd::std_specs::convert::FromSpecImpl<crate::context::Error> for Error {
    open spec fn obeys_from_spec() -> bool {
        true
    }

    open spec fn from_spec(error: crate::context::Error) -> Error {
        Error::Encoding(error)
    }
}

/// The key and the value of a line: what stands before its first `=`, read
/// as text, and what stands after it, as it is.
pub open spec fn parsed_line(line: Seq<u8>) -> Result<(Seq<char>, Seq<u8>), ErrorView> {
    match line.index_of_first(EQUALS) {
        None => Err(ErrorView::Syntax { line }),
        Some(at) => {
            let key = line.take(at);
            let value = line.skip(at + 1);
            if !valid_utf8(key) {
                Err(ErrorView::Syntax { line })
            } else if !is_encodable(decode_utf8(key), value) {
                Err(
                    ErrorView::Encoding(
                        crate::context::ErrorView::Encoding { key: decode_utf8(key), value },
                    ),
                )
            } else {
                Ok((decode_utf8(key), value))
            }
        },
    }
}

/// Whether `key` names one of the four text fields.
pub open spec fn is_text_key(key: Seq<char>) -> bool {
    key == "protocol"@ || key == "host"@ || key == "username"@ || key == "password"@
}

/// Whether `key` names one of the seven fields.
pub open spec fn is_known_key(key: Seq<char>) -> bool {
    is_text_key(key) || key == "url"@ || key == "path"@ || key == "quit"@
}

/// The context after a field was read. A text field takes the characters
/// that the value encodes, `url` and `path` take the value as it is, `quit`
/// takes the flag that the value stands for, and any other key changes
/// nothing. A later value of a key replaces an earlier one.
pub open spec fn with_field(context: ContextView, key: Seq<char>, value: Seq<u8>) -> Result<
    ContextView,
    ErrorView,
> {
    if is_text_key(key) {
        if !valid_utf8(value) {
            Err(ErrorView::IllformedUtf8InValue { key, value })
        } else if key == "protocol"@ {
            Ok(ContextView { protocol: Some(decode_utf8(value)), ..context })
        } else if key == "host"@ {
            Ok(ContextView { host: Some(decode_utf8(value)), ..context })
        } else if key == "username"@ {
            Ok(ContextView { username: Some(decode_utf8(value)), ..context })
        } else {
            Ok(ContextView { password: Some(decode_utf8(value)), ..context })
        }
    } else if key == "url"@ {
        Ok(ContextView { url: Some(value), ..context })
    } else if key == "path"@ {
        Ok(ContextView { path: Some(value), ..context })
    } else if key == "quit"@ {
        Ok(ContextView { quit: Some(flag_of(value)), ..context })
    } else {
        Ok(context)
    }
}

/// The context after one line was read.
pub open spec fn read_line(context: ContextView, line: Seq<u8>) -> Result<ContextView, ErrorView> {
    match parsed_line(line) {
        Ok((key, value)) => with_field(context, key, value),
        Err(e) => Err(e),
    }
}

/// The context after the lines were read in order, up to the first empty
/// line or to the last line. The first line that fails ends the reading with
/// its error.
pub open spec fn read_lines(context: ContextView, lines: Seq<Seq<u8>>) -> Result<
    ContextView,
    ErrorView,
>
    decreases lines.len(),
{
    if lines.len() == 0 || lines[0].len() == 0 {
        Ok(context)
    } else {
        match read_line(context, lines[0]) {
            Ok(next) => read_lines(next, lines.drop_first()),
            Err(e) => Err(e),
        }
    }
}

/// What an input decodes to.
pub open spec fn decode(input: Seq<u8>) -> Result<ContextView, ErrorView> {
    read_lines(ContextView::empty(), lines_of(input))
}

/// Parts a line into its key and its value, and checks both.
pub fn parse_line<'a>(line: &'a [u8]) -> (parsed: Result<(&'a str, &'a [u8]), Error>)
    ensures
        match parsed {
            Ok((key, value)) => parsed_line(line@) == Ok::<(Seq<char>, Seq<u8>), ErrorView>(
                (key@, value@),
            ),
            Err(e) => parsed_line(line@) == Err::<(Seq<char>, Seq<u8>), ErrorView>(e@),
        },
{
    match find_byte(line, EQUALS) {
        None => Err(Error::Syntax { line: slice_to_vec(line) }),
        Some(at) => {
            let value = slice_subrange(line, at + 1, line.len());
            match as_text(slice_subrange(line, 0, at)) {
                None => Err(Error::Syntax { line: slice_to_vec(line) }),
                Some(key) => match validate(key, value) {
                    Ok(()) => Ok((key, value)),
                    Err(e) => Err(Error::from(e)),
                },
            }
        },
    }
}

impl Context {
    /// Stores the value of one field.
    pub fn set_field(&mut self, key: &str, value: &[u8]) -> (stored: Result<(), Error>)
        ensures
            match stored {
                Ok(()) => with_field(old(self)@, key@, value@) == Ok::<ContextView, ErrorView>(
                    final(self)@,
                ),
                Err(e) => with_field(old(self)@, key@, value@) == Err::<ContextView, ErrorView>(
                    e@,
                ) && final(self)@ == old(self)@,
            },
    {
        let protocol = text_eq(key, "protocol");
        let host = text_eq(key, "host");
        let username = text_eq(key, "username");
        if protocol || host || username || text_eq(key, "password") {
            match as_text(value) {
                None => {
                    return Err(
                        Error::IllformedUtf8InValue {
                            key: key.to_owned(),
                            value: slice_to_vec(value),
                        },
                    );
                },
                Some(text) => {
                    if protocol {
                        self.protocol = Some(text.to_owned());
                    } else if host {
                        self.host = Some(text.to_owned());
                    } else if username {
                        self.username = Some(text.to_owned());
                    } else {
                        self.password = Some(text.to_owned());
                    }
                },
            }
        } else if text_eq(key, "url") {
            self.url = Some(slice_to_vec(value));
        } else if text_eq(key, "path") {
            self.path = Some(slice_to_vec(value));
        } else if text_eq(key, "quit") {
            self.quit = Some(parse_flag(value));
        }
        Ok(())
    }

    /// Decodes a context from `input`: one field per line, up to the first
    /// empty line or to the end of the input. A line ends at a line feed and
    /// holds every other byte as it is. Keys may come in any order, a key
    /// that is not known is passed over, and the first line that cannot be
    /// read ends the decoding with its error. No value of a decoded context
    /// holds a NUL byte or a line feed.
    pub fn from_bytes(input: &[u8]) -> (decoded: Result<Context, Error>)
        ensures
            match decoded {
                Ok(context) => decode(input@) == Ok::<ContextView, ErrorView>(context@)
                    && context@.is_clean(),
                Err(e) => decode(input@) == Err::<ContextView, ErrorView>(e@),
            },
    {
        let lines = split_lines(input);
        let mut context = Context::default();
        let mut i: usize = 0;
        assert(views(lines@).skip(0) =~= lines_of(input@));
        while i < lines.len()
            invariant
                i <= lines.len(),
                read_lines(context@, views(lines@).skip(i as int)) == decode(input@),
            decreases lines.len() - i,
        {
            let line = lines[i];
            let ghost rest = views(lines@).skip(i as int);
            assert(rest[0] == line@);
            assert(rest.drop_first() =~= views(lines@).skip(i + 1));
            if line.len() == 0 {
                proof {
                    decoded_is_clean(input@);
                }
                return Ok(context);
            }
            match parse_line(line) {
                Ok((key, value)) => match context.set_field(key, value) {
                    Ok(()) => {},
                    Err(e) => {
                        return Err(e);
                    },
                },
                Err(e) => {
                    return Err(e);
                },
            }
            i = i + 1;
        }
        proof {
            decoded_is_clean(input@);
        }
        Ok(context)
    }
}

} // verus!
