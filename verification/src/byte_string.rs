//! What the codec takes from the `bstr` crate: cutting a byte string after
//! its line feeds and reading a byte string as text. Verus does not look into
//! that crate; the two contracts here say what its documentation and source
//! show, and everything else in this library is proved from them.

use crate::bytes::{bytes_eq, LINE_FEED};
use bstr::ByteSlice;
use vstd::prelude::*;
use vstd::slice::slice_subrange;
use vstd::string::StringSliceAdditionalSpecFns;
use vstd::utf8::{decode_utf8, encode_utf8_decode_utf8, valid_utf8};

verus! {

/// The lines of a byte string: what stands before each of its line feeds,
/// from the line feed before or from the start, and what follows the last
/// line feed, if anything does. No byte but the line feed is taken away.
pub open spec fn lines_of(input: Seq<u8>) -> Seq<Seq<u8>>
    decreases input.len(),
{
    if input.len() == 0 {
        Seq::empty()
    } else {
        match input.index_of_first(LINE_FEED) {
            None => seq![input],
            Some(end) => {
                proof {
                    input.index_of_first_ensures(LINE_FEED);
                }
                seq![input.take(end)] + lines_of(input.skip(end + 1))
            },
        }
    }
}

/// The pieces of a byte string that is cut after each line feed: every
/// piece ends with its line feed, but for a last one that holds what follows
/// the last line feed, if anything does.
pub open spec fn terminated_lines_of(input: Seq<u8>) -> Seq<Seq<u8>>
    decreases input.len(),
{
    if input.len() == 0 {
        Seq::empty()
    } else {
        match input.index_of_first(LINE_FEED) {
            None => seq![input],
            Some(end) => {
                proof {
                    input.index_of_first_ensures(LINE_FEED);
                }
                seq![input.take(end + 1)] + terminated_lines_of(input.skip(end + 1))
            },
        }
    }
}

/// A piece without the line feed at its end.
pub open spec fn without_line_feed(piece: Seq<u8>) -> Seq<u8> {
    if piece.len() > 0 && piece.last() == LINE_FEED {
        piece.drop_last()
    } else {
        piece
    }
}

/// The byte strings that a vector of slices holds, in order.
pub open spec fn views(slices: Seq<&[u8]>) -> Seq<Seq<u8>> {
    Seq::new(slices.len(), |i: int| slices[i]@)
}

/// The lines are the pieces without their line feeds.
pub proof fn lemma_lines_of_pieces(input: Seq<u8>)
    ensures
        lines_of(input).len() == terminated_lines_of(input).len(),
        forall|i: int|
            0 <= i < lines_of(input).len() ==> #[trigger] lines_of(input)[i] == without_line_feed(
                terminated_lines_of(input)[i],
            ),
    decreases input.len(),
{
    if input.len() > 0 {
        input.index_of_first_ensures(LINE_FEED);
        match input.index_of_first(LINE_FEED) {
            None => {
                assert(input.last() != LINE_FEED);
            },
            Some(end) => {
                let rest = input.skip(end + 1);
                lemma_lines_of_pieces(rest);
                assert(input.take(end + 1).drop_last() =~= input.take(end));
                assert forall|i: int| 0 <= i < lines_of(input).len() implies #[trigger] lines_of(
                    input,
                )[i] == without_line_feed(terminated_lines_of(input)[i]) by {
                    if i > 0 {
                        assert(lines_of(input)[i] == lines_of(rest)[i - 1]);
                        assert(terminated_lines_of(input)[i] == terminated_lines_of(rest)[i - 1]);
                    }
                }
            },
        }
    }
}

/// Calls `bstr::ByteSlice::lines_with_terminator` and collects what the
/// iterator yields. Trusted: the pieces are those of
/// [`terminated_lines_of`], which restates the crate's `LinesWithTerminator`
/// iterator: it cuts after each `\n`, which stays at the end of its piece,
/// and yields a non-empty rest as the last piece.
#[verifier::external_body]
pub(crate) fn split_lines_with_terminator<'a>(input: &'a [u8]) -> (pieces: Vec<&'a [u8]>)
    ensures
        views(pieces@) == terminated_lines_of(input@),
{
    input.lines_with_terminator().collect()
}

/// Calls `bstr::ByteSlice::to_str`. Trusted: the call succeeds exactly on
/// well-formed UTF-8, and the text it returns consists of the very bytes it
/// was given.
#[verifier::external_body]
pub(crate) fn to_str<'a>(bytes: &'a [u8]) -> (text: Option<&'a str>)
    ensures
        text is Some <==> valid_utf8(bytes@),
        text matches Some(s) ==> s.spec_bytes() == bytes@,
{
    bytes.to_str().ok()
}

/// Splits a byte string into its lines, at line feeds alone.
pub fn split_lines<'a>(input: &'a [u8]) -> (lines: Vec<&'a [u8]>)
    ensures
        views(lines@) == lines_of(input@),
{
    let pieces = split_lines_with_terminator(input);
    let mut lines: Vec<&'a [u8]> = Vec::new();
    let mut i: usize = 0;
    while i < pieces.len()
        invariant
            i <= pieces.len(),
            lines.len() == i,
            forall|j: int| 0 <= j < i ==> lines@[j]@ == without_line_feed(#[trigger] pieces@[j]@),
        decreases pieces.len() - i,
    {
        let piece = pieces[i];
        let end = piece.len();
        if end > 0 && piece[end - 1] == LINE_FEED {
            let line = slice_subrange(piece, 0, end - 1);
            assert(line@ =~= piece@.drop_last());
            lines.push(line);
        } else {
            lines.push(piece);
        }
        i = i + 1;
    }
    proof {
        lemma_lines_of_pieces(input@);
        assert forall|j: int| 0 <= j < lines.len() implies views(lines@)[j] == lines_of(
            input@,
        )[j] by {
            assert(views(pieces@)[j] == pieces@[j]@);
        }
        assert(views(lines@) =~= lines_of(input@));
    }
    lines
}

/// Reads a byte string as text: the characters that it encodes, where it is
/// well-formed UTF-8, and nothing otherwise.
pub fn as_text<'a>(bytes: &'a [u8]) -> (text: Option<&'a str>)
    ensures
        text is Some <==> valid_utf8(bytes@),
        text matches Some(s) ==> s@ == decode_utf8(bytes@) && s.spec_bytes() == bytes@,
{
    let text = to_str(bytes);
    proof {
        if let Some(s) = text {
            encode_utf8_decode_utf8(s@);
        }
    }
    text
}

/// Whether two texts hold the same characters.
pub fn text_eq(a: &str, b: &str) -> (same: bool)
    ensures
        same == (a@ == b@),
{
    proof {
        encode_utf8_decode_utf8(a@);
        encode_utf8_decode_utf8(b@);
    }
    bytes_eq(a.as_bytes(), b.as_bytes())
}

} // verus!
