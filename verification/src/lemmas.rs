//! The lemmas on which the laws rest: what the keys and the words of the
//! format are made of, how an input parts into lines, and what reading a
//! written field does.

use crate::boolean::flag_of;
use crate::byte_string::lines_of;
use crate::bytes::{is_clean, lemma_first_occurrence, lemma_no_occurrence, EQUALS, LINE_FEED};
use crate::context::{
    field_line, flag_bytes, is_encodable, key_value, optional_line, text_bytes, ContextView,
};
use crate::decode::{
    is_known_key, is_text_key, parsed_line, read_line, read_lines, with_field, ErrorView,
};
use vstd::prelude::*;
use vstd::string::StringSliceAdditionalSpecFns;
use vstd::utf8::{
    decode_utf8, decode_utf8_encode_utf8, encode_utf8, encode_utf8_decode_utf8,
    encode_utf8_valid_utf8, valid_utf8,
};

verus! {

/// The keys of the format and the two words for a flag, byte by byte.
pub proof fn lemma_words()
    ensures
        "url".spec_bytes() == seq![117u8, 114, 108],
        "path".spec_bytes() == seq![112u8, 97, 116, 104],
        "protocol".spec_bytes() == seq![112u8, 114, 111, 116, 111, 99, 111, 108],
        "host".spec_bytes() == seq![104u8, 111, 115, 116],
        "username".spec_bytes() == seq![117u8, 115, 101, 114, 110, 97, 109, 101],
        "password".spec_bytes() == seq![112u8, 97, 115, 115, 119, 111, 114, 100],
        "quit".spec_bytes() == seq![113u8, 117, 105, 116],
        "true".spec_bytes() == seq![116u8, 114, 117, 101],
        "false".spec_bytes() == seq![102u8, 97, 108, 115, 101],
{
    reveal_strlit("url");
    reveal_strlit("path");
    reveal_strlit("protocol");
    reveal_strlit("host");
    reveal_strlit("username");
    reveal_strlit("password");
    reveal_strlit("quit");
    reveal_strlit("true");
    reveal_strlit("false");
    vstd::string::is_ascii_spec_bytes("url");
    vstd::string::is_ascii_spec_bytes("path");
    vstd::string::is_ascii_spec_bytes("protocol");
    vstd::string::is_ascii_spec_bytes("host");
    vstd::string::is_ascii_spec_bytes("username");
    vstd::string::is_ascii_spec_bytes("password");
    vstd::string::is_ascii_spec_bytes("quit");
    vstd::string::is_ascii_spec_bytes("true");
    vstd::string::is_ascii_spec_bytes("false");
    assert("url".spec_bytes() =~= seq![117u8, 114, 108]);
    assert("path".spec_bytes() =~= seq![112u8, 97, 116, 104]);
    assert("protocol".spec_bytes() =~= seq![112u8, 114, 111, 116, 111, 99, 111, 108]);
    assert("host".spec_bytes() =~= seq![104u8, 111, 115, 116]);
    assert("username".spec_bytes() =~= seq![117u8, 115, 101, 114, 110, 97, 109, 101]);
    assert("password".spec_bytes() =~= seq![112u8, 97, 115, 115, 119, 111, 114, 100]);
    assert("quit".spec_bytes() =~= seq![113u8, 117, 105, 116]);
    assert("true".spec_bytes() =~= seq![116u8, 114, 117, 101]);
    assert("false".spec_bytes() =~= seq![102u8, 97, 108, 115, 101]);
}

/// The first line of an input ends at its first line feed, and the other
/// lines are those of what follows it.
pub proof fn lemma_lines_after_line(line: Seq<u8>, rest: Seq<u8>)
    requires
        !line.contains(LINE_FEED),
    ensures
        lines_of(line + seq![LINE_FEED] + rest) == seq![line] + lines_of(rest),
{
    let input = line + seq![LINE_FEED] + rest;
    let end = line.len() as int;
    assert forall|j: int| 0 <= j < end implies input[j] != LINE_FEED by {
        assert(input[j] == line[j]);
    }
    lemma_first_occurrence(input, LINE_FEED, end);
    assert(input.take(end) =~= line);
    assert(input.skip(end + 1) =~= rest);
}

/// A key and a value without line feed stand in a line without line feed.
pub proof fn lemma_key_value_has_no_line_feed(key: Seq<char>, value: Seq<u8>)
    requires
        !encode_utf8(key).contains(LINE_FEED),
        !value.contains(LINE_FEED),
    ensures
        !key_value(key, value).contains(LINE_FEED),
{
    let name = encode_utf8(key);
    let line = key_value(key, value);
    assert forall|j: int| 0 <= j < line.len() implies line[j] != LINE_FEED by {
        if j < name.len() {
            assert(line[j] == name[j]);
        } else if j > name.len() {
            assert(line[j] == value[j - name.len() - 1]);
        }
    }
    lemma_no_occurrence(line, LINE_FEED);
}

/// The first `=` of a line that holds a key without `=` and a value stands
/// after the key: the key's bytes are before it, and the value is after it.
pub proof fn lemma_first_equals(key: Seq<char>, value: Seq<u8>)
    requires
        !encode_utf8(key).contains(EQUALS),
    ensures
        key_value(key, value).index_of_first(EQUALS) == Some(encode_utf8(key).len() as int),
        key_value(key, value).take(encode_utf8(key).len() as int) == encode_utf8(key),
        key_value(key, value).skip(encode_utf8(key).len() as int + 1) == value,
        valid_utf8(encode_utf8(key)),
        decode_utf8(encode_utf8(key)) == key,
{
    let name = encode_utf8(key);
    let line = key_value(key, value);
    let at = name.len() as int;
    assert forall|j: int| 0 <= j < at implies line[j] != EQUALS by {
        assert(line[j] == name[j]);
    }
    lemma_first_occurrence(line, EQUALS, at);
    assert(line.take(at) =~= name);
    assert(line.skip(at + 1) =~= value);
    encode_utf8_valid_utf8(key);
    encode_utf8_decode_utf8(key);
}

/// The line of a field is split off as the key and the value that it was
/// written from.
pub proof fn lemma_line_of_field(key: Seq<char>, value: Seq<u8>, rest: Seq<u8>)
    requires
        is_encodable(key, value),
    ensures
        lines_of(field_line(key, value) + rest) == seq![key_value(key, value)] + lines_of(rest),
{
    lemma_key_value_has_no_line_feed(key, value);
    lemma_lines_after_line(key_value(key, value), rest);
}

/// A line that holds a key without `=` and a value, both free of NUL bytes
/// and line feeds, parts into that key and that value.
pub proof fn lemma_parsed_key_value(key: Seq<char>, value: Seq<u8>)
    requires
        is_encodable(key, value),
        !encode_utf8(key).contains(EQUALS),
    ensures
        parsed_line(key_value(key, value)) == Ok::<(Seq<char>, Seq<u8>), ErrorView>((key, value)),
{
    lemma_first_equals(key, value);
}

/// Reading what was written for one field stores that field and goes on
/// with the rest.
pub proof fn lemma_read_written_field(
    context: ContextView,
    key: Seq<char>,
    value: Option<Seq<u8>>,
    rest: Seq<u8>,
)
    requires
        value matches Some(v) ==> is_encodable(key, v),
        !encode_utf8(key).contains(EQUALS),
    ensures
        read_lines(context, lines_of(optional_line(key, value) + rest)) == match value {
            Some(v) => match with_field(context, key, v) {
                Ok(next) => read_lines(next, lines_of(rest)),
                Err(e) => Err(e),
            },
            None => read_lines(context, lines_of(rest)),
        },
{
    match value {
        Some(v) => {
            let line = key_value(key, v);
            let lines = lines_of(field_line(key, v) + rest);
            lemma_line_of_field(key, v, rest);
            lemma_parsed_key_value(key, v);
            assert(lines[0] == line);
            assert(line.len() > 0);
            assert(lines.drop_first() =~= lines_of(rest));
        },
        None => {
            assert(optional_line(key, value) + rest =~= rest);
        },
    }
}

/// The seven keys differ from each other, and none of them holds a byte
/// with a meaning in the format.
pub proof fn lemma_keys()
    ensures
        is_text_key("protocol"@),
        is_text_key("host"@),
        is_text_key("username"@),
        is_text_key("password"@),
        "protocol"@ != "host"@,
        "protocol"@ != "username"@,
        "protocol"@ != "password"@,
        "host"@ != "username"@,
        "host"@ != "password"@,
        "username"@ != "password"@,
        !is_text_key("url"@),
        !is_text_key("path"@),
        !is_text_key("quit"@),
        "url"@ != "path"@,
        "url"@ != "quit"@,
        "path"@ != "quit"@,
        forall|key: Seq<char>| #[trigger]
            is_known_key(key) ==> is_clean(encode_utf8(key)) && !encode_utf8(key).contains(EQUALS),
{
    lemma_words();
    reveal_strlit("url");
    reveal_strlit("path");
    reveal_strlit("protocol");
    reveal_strlit("host");
    reveal_strlit("username");
    reveal_strlit("password");
    reveal_strlit("quit");
    assert("protocol"@[0] == 'p' && "username"@[0] == 'u' && "password"@[1] == 'a'
        && "protocol"@[1] == 'r');
    assert("host"@[0] == 'h' && "path"@[0] == 'p' && "quit"@[0] == 'q');
    assert forall|key: Seq<char>| #[trigger] is_known_key(key) implies is_clean(encode_utf8(key))
        && !encode_utf8(key).contains(EQUALS) by {
        assert("url".spec_bytes() == encode_utf8("url"@));
        assert("path".spec_bytes() == encode_utf8("path"@));
        assert("protocol".spec_bytes() == encode_utf8("protocol"@));
        assert("host".spec_bytes() == encode_utf8("host"@));
        assert("username".spec_bytes() == encode_utf8("username"@));
        assert("password".spec_bytes() == encode_utf8("password"@));
        assert("quit".spec_bytes() == encode_utf8("quit"@));
    }
}

/// The two words that are written for a flag are read as that flag.
pub proof fn lemma_flag_words()
    ensures
        flag_of("true".spec_bytes()),
        !flag_of("false".spec_bytes()),
{
    lemma_words();
    reveal_strlit("yes");
    reveal_strlit("on");
    vstd::string::is_ascii_spec_bytes("yes");
    vstd::string::is_ascii_spec_bytes("on");
    assert("yes".spec_bytes().len() == 3);
    assert("on".spec_bytes().len() == 2);
}

/// A field after a value was read for it, or as it was where none was read.
pub open spec fn replaced<T>(before: Option<T>, read: Option<T>) -> Option<T> {
    match read {
        Some(_) => read,
        None => before,
    }
}

/// Reading what was written for `url`.
pub proof fn lemma_read_written_url(context: ContextView, value: Option<Seq<u8>>, rest: Seq<u8>)
    requires
        value matches Some(v) ==> is_clean(v),
    ensures
        read_lines(context, lines_of(optional_line("url"@, value) + rest)) == read_lines(
            ContextView { url: replaced(context.url, value), ..context },
            lines_of(rest),
        ),
{
    lemma_keys();
    assert(is_known_key("url"@));
    lemma_read_written_field(context, "url"@, value, rest);
}

/// Reading what was written for `path`.
pub proof fn lemma_read_written_path(context: ContextView, value: Option<Seq<u8>>, rest: Seq<u8>)
    requires
        value matches Some(v) ==> is_clean(v),
    ensures
        read_lines(context, lines_of(optional_line("path"@, value) + rest)) == read_lines(
            ContextView { path: replaced(context.path, value), ..context },
            lines_of(rest),
        ),
{
    lemma_keys();
    assert(is_known_key("path"@));
    lemma_read_written_field(context, "path"@, value, rest);
}

/// Reading what was written for `protocol`.
pub proof fn lemma_read_written_protocol(context: ContextView, text: Option<Seq<char>>, rest: Seq<u8>)
    requires
        text matches Some(t) ==> is_clean(encode_utf8(t)),
    ensures
        read_lines(context, lines_of(optional_line("protocol"@, text_bytes(text)) + rest))
            == read_lines(
            ContextView { protocol: replaced(context.protocol, text), ..context },
            lines_of(rest),
        ),
{
    lemma_keys();
    assert(is_known_key("protocol"@));
    if let Some(t) = text {
        encode_utf8_valid_utf8(t);
        encode_utf8_decode_utf8(t);
    }
    lemma_read_written_field(context, "protocol"@, text_bytes(text), rest);
}

/// Reading what was written for `host`.
pub proof fn lemma_read_written_host(context: ContextView, text: Option<Seq<char>>, rest: Seq<u8>)
    requires
        text matches Some(t) ==> is_clean(encode_utf8(t)),
    ensures
        read_lines(context, lines_of(optional_line("host"@, text_bytes(text)) + rest))
            == read_lines(
            ContextView { host: replaced(context.host, text), ..context },
            lines_of(rest),
        ),
{
    lemma_keys();
    assert(is_known_key("host"@));
    if let Some(t) = text {
        encode_utf8_valid_utf8(t);
        encode_utf8_decode_utf8(t);
    }
    lemma_read_written_field(context, "host"@, text_bytes(text), rest);
}

/// Reading what was written for `username`.
pub proof fn lemma_read_written_username(context: ContextView, text: Option<Seq<char>>, rest: Seq<u8>)
    requires
        text matches Some(t) ==> is_clean(encode_utf8(t)),
    ensures
        read_lines(context, lines_of(optional_line("username"@, text_bytes(text)) + rest))
            == read_lines(
            ContextView { username: replaced(context.username, text), ..context },
            lines_of(rest),
        ),
{
    lemma_keys();
    assert(is_known_key("username"@));
    if let Some(t) = text {
        encode_utf8_valid_utf8(t);
        encode_utf8_decode_utf8(t);
    }
    lemma_read_written_field(context, "username"@, text_bytes(text), rest);
}

/// Reading what was written for `password`.
pub proof fn lemma_read_written_password(context: ContextView, text: Option<Seq<char>>, rest: Seq<u8>)
    requires
        text matches Some(t) ==> is_clean(encode_utf8(t)),
    ensures
        read_lines(context, lines_of(optional_line("password"@, text_bytes(text)) + rest))
            == read_lines(
            ContextView { password: replaced(context.password, text), ..context },
            lines_of(rest),
        ),
{
    lemma_keys();
    assert(is_known_key("password"@));
    if let Some(t) = text {
        encode_utf8_valid_utf8(t);
        encode_utf8_decode_utf8(t);
    }
    lemma_read_written_field(context, "password"@, text_bytes(text), rest);
}

/// Reading what was written for `quit`.
pub proof fn lemma_read_written_quit(context: ContextView, flag: Option<bool>, rest: Seq<u8>)
    ensures
        read_lines(context, lines_of(optional_line("quit"@, flag_bytes(flag)) + rest))
            == read_lines(ContextView { quit: replaced(context.quit, flag), ..context }, lines_of(rest)),
{
    lemma_keys();
    lemma_words();
    lemma_flag_words();
    assert(is_known_key("quit"@));
    lemma_read_written_field(context, "quit"@, flag_bytes(flag), rest);
}

/// Seven byte strings in a row, grouped from the right.
pub proof fn lemma_regrouped(
    a: Seq<u8>,
    b: Seq<u8>,
    c: Seq<u8>,
    d: Seq<u8>,
    e: Seq<u8>,
    f: Seq<u8>,
    g: Seq<u8>,
)
    ensures
        a + b + c + d + e + f + g == a + (b + (c + (d + (e + (f + (g + Seq::<u8>::empty())))))),
{
    assert(a + b + c + d + e + f + g =~= a + (b + (c + (d + (e + (f + (g + Seq::<u8>::empty())))))));
}

/// Reading a line keeps the values of a context clean.
pub proof fn lemma_read_line_keeps_clean(context: ContextView, line: Seq<u8>)
    requires
        context.is_clean(),
    ensures
        read_line(context, line) matches Ok(next) ==> next.is_clean(),
{
    if let Ok((key, value)) = parsed_line(line) {
        if valid_utf8(value) {
            decode_utf8_encode_utf8(value);
        }
    }
}

/// Reading lines keeps the values of a context clean.
pub proof fn lemma_read_lines_keep_clean(context: ContextView, lines: Seq<Seq<u8>>)
    requires
        context.is_clean(),
    ensures
        read_lines(context, lines) matches Ok(last) ==> last.is_clean(),
    decreases lines.len(),
{
    if lines.len() != 0 && lines[0].len() != 0 {
        lemma_read_line_keeps_clean(context, lines[0]);
        if let Ok(next) = read_line(context, lines[0]) {
            lemma_read_lines_keep_clean(next, lines.drop_first());
        }
    }
}

/// The lines of an input that continues after a line feed are the lines up
/// to that line feed and then the lines of what follows.
pub proof fn lemma_lines_of_concat(before: Seq<u8>, after: Seq<u8>)
    requires
        before.len() == 0 || before.last() == LINE_FEED,
    ensures
        lines_of(before + after) == lines_of(before) + lines_of(after),
    decreases before.len(),
{
    if before.len() == 0 {
        assert(before + after =~= after);
        assert(lines_of(before) + lines_of(after) =~= lines_of(after));
    } else {
        before.index_of_first_ensures(LINE_FEED);
        assert(before.contains(LINE_FEED)) by {
            assert(before[before.len() - 1] == LINE_FEED);
        }
        let end = before.index_of_first(LINE_FEED)->0;
        let whole = before + after;
        assert forall|j: int| 0 <= j < end implies whole[j] != LINE_FEED by {
            assert(whole[j] == before[j]);
        }
        lemma_first_occurrence(whole, LINE_FEED, end);
        let tail = before.skip(end + 1);
        assert(whole.take(end) =~= before.take(end));
        assert(whole.skip(end + 1) =~= tail + after);
        if tail.len() > 0 {
            assert(tail.last() == before.last());
        }
        lemma_lines_of_concat(tail, after);
        assert(lines_of(whole) =~= lines_of(before) + lines_of(after));
    }
}

/// A line that leaves every context as it is can be taken out of the lines
/// without a change to what is read.
pub proof fn lemma_read_lines_without(
    context: ContextView,
    before: Seq<Seq<u8>>,
    line: Seq<u8>,
    after: Seq<Seq<u8>>,
)
    requires
        line.len() > 0,
        forall|any: ContextView| #[trigger]
            read_line(any, line) == Ok::<ContextView, ErrorView>(any),
    ensures
        read_lines(context, before + (seq![line] + after)) == read_lines(context, before + after),
    decreases before.len(),
{
    let with = before + (seq![line] + after);
    let without = before + after;
    if before.len() == 0 {
        assert(with =~= seq![line] + after);
        assert(without =~= after);
        assert(with[0] == line);
        assert(with.drop_first() =~= after);
        assert(read_line(context, line) == Ok::<ContextView, ErrorView>(context));
    } else {
        assert(with[0] == before[0] && without[0] == before[0]);
        assert(with.drop_first() =~= before.drop_first() + (seq![line] + after));
        assert(without.drop_first() =~= before.drop_first() + after);
        if before[0].len() != 0 {
            if let Ok(next) = read_line(context, before[0]) {
                lemma_read_lines_without(next, before.drop_first(), line, after);
            }
        }
    }
}

/// What stands before an empty line decides alone what an input with that
/// line decodes to.
pub proof fn lemma_read_lines_until_empty(
    context: ContextView,
    before: Seq<Seq<u8>>,
    after: Seq<Seq<u8>>,
)
    ensures
        read_lines(context, before + (seq![Seq::<u8>::empty()] + after)) == read_lines(
            context,
            before,
        ),
    decreases before.len(),
{
    let with = before + (seq![Seq::<u8>::empty()] + after);
    if before.len() == 0 {
        assert(with[0].len() == 0);
    } else {
        assert(with[0] == before[0]);
        assert(with.drop_first() =~= before.drop_first() + (seq![Seq::<u8>::empty()] + after));
        if before[0].len() != 0 {
            if let Ok(next) = read_line(context, before[0]) {
                lemma_read_lines_until_empty(next, before.drop_first(), after);
            }
        }
    }
}

} // verus!
