//! What header names, values and fields are, said of their characters and bytes.

use crate::headers::{
    field_text, has_room, is_header_name, is_name_char, is_stored_name, is_text_byte, is_value_byte,
    text_value, value_text, Fields,
};
use vstd::prelude::*;
use vstd::utf8::*;

verus! {

/// Every byte can be read as text: a tab, or from a space to a tilde.
pub open spec fn is_readable(bytes: Seq<u8>) -> bool {
    forall|i: int| 0 <= i < bytes.len() ==> (#[trigger] bytes[i] == 9 || 32 <= bytes[i] <= 126)
}

/// Every byte may stand in a value: a tab, or anything from a space on but the delete character.
pub open spec fn is_storable(bytes: Seq<u8>) -> bool {
    forall|i: int|
        0 <= i < bytes.len() ==> (#[trigger] bytes[i] == 9 || 32 <= bytes[i] && bytes[i] != 127)
}

/// `text` is what `bytes` read as: the same numbers as characters.
pub open spec fn reads_as(bytes: Seq<u8>, text: Seq<char>) -> bool {
    &&& is_readable(bytes)
    &&& text.len() == bytes.len()
    &&& forall|i: int| 0 <= i < text.len() ==> #[trigger] text[i] as int == bytes[i] as int
}

/// A value has a text just where all its bytes can be read, and the text is what they read as.
pub proof fn law_text_of_a_value(bytes: Seq<u8>, text: Seq<char>)
    ensures
        value_text(bytes) is Some <==> is_readable(bytes),
        value_text(bytes) == Some(text) <==> reads_as(bytes, text),
{
    assert(is_readable(bytes) <==> forall|i: int|
        0 <= i < bytes.len() ==> is_text_byte(#[trigger] bytes[i]));
    if reads_as(bytes, text) {
        assert forall|i: int| 0 <= i < text.len() implies text[i] == #[trigger] bytes[i] as char by {
            assert(text[i] as int == bytes[i] as int);
        }
        assert(bytes.map_values(|b: u8| b as char) =~= text);
    }
}

/// A text makes a value just where the bytes of its encoding may stand in one, and they are it.
pub proof fn law_value_of_a_text(text: Seq<char>)
    ensures
        is_storable(encode_utf8(text)) ==> text_value(text) == Some(encode_utf8(text)),
        !is_storable(encode_utf8(text)) ==> text_value(text) is None,
{
    let bytes = encode_utf8(text);
    assert(is_storable(bytes) <==> forall|i: int|
        0 <= i < bytes.len() ==> is_value_byte(#[trigger] bytes[i]));
}

/// The text of a field is that of its first value, and depends on nothing else.
pub proof fn law_text_of_a_field(fields: Fields, name: Seq<char>, text: Seq<char>)
    ensures
        field_text(fields, name) == Some(text) <==> fields.contains_key(name) && reads_as(
            fields[name][0],
            text,
        ),
        field_text(fields, name) is Some <==> fields.contains_key(name) && is_readable(
            fields[name][0],
        ),
{
    law_text_of_a_value(fields[name][0], text);
}

/// A character that may stand in a header name: a small letter, a digit or one of some signs.
pub open spec fn is_token_char(c: char) -> bool {
    let n = c as int;
    ||| 97 <= n <= 122
    ||| 48 <= n <= 57
    ||| n == 33
    ||| 35 <= n <= 39
    ||| n == 42
    ||| n == 43
    ||| n == 45
    ||| n == 46
    ||| 94 <= n <= 96
    ||| n == 124
    ||| n == 126
}

/// A name of token characters, neither empty nor longer than a header name may be.
pub open spec fn is_token(name: Seq<char>) -> bool {
    1 <= name.len() <= 65535 && forall|i: int|
        0 <= i < name.len() ==> is_token_char(#[trigger] name[i])
}

/// A text is taken for a header name just where it is a token; a stored name may hold double quotes
/// besides.
pub proof fn law_header_names_are_tokens(name: Seq<char>)
    ensures
        is_header_name(name) <==> is_token(name),
        is_stored_name(name) <==> 1 <= name.len() <= 65535 && forall|i: int|
            0 <= i < name.len() ==> (is_token_char(#[trigger] name[i]) || name[i] as int == 34),
{
    assert forall|c: char| #[trigger] is_name_char(c) <==> is_token_char(c) by {}
    if is_token(name) {
        assert forall|i: int| 0 <= i < name.len() implies is_name_char(#[trigger] name[i]) by {
            assert(is_token_char(name[i]));
        }
    }
    if is_header_name(name) {
        assert forall|i: int| 0 <= i < name.len() implies is_token_char(#[trigger] name[i]) by {
            assert(is_name_char(name[i]));
        }
    }
    assert forall|i: int| 0 <= i < name.len() implies (is_name_char(#[trigger] name[i])
        || name[i] == '"') == (is_token_char(name[i]) || name[i] as int == 34) by {}
    if is_stored_name(name) {
        assert forall|i: int| 0 <= i < name.len() implies is_token_char(#[trigger] name[i])
            || name[i] as int == 34 by {
            assert(is_name_char(name[i]) || name[i] == '"');
        }
    }
    if forall|i: int|
        0 <= i < name.len() ==> (is_token_char(#[trigger] name[i]) || name[i] as int == 34) {
        assert forall|i: int| 0 <= i < name.len() implies is_name_char(#[trigger] name[i])
            || name[i] == '"' by {
            assert(is_token_char(name[i]) || name[i] as int == 34);
        }
    }
}

/// There is room for another value while the names are finitely many, and 6553 at most.
pub proof fn law_room_for_another_value(fields: Fields)
    ensures
        has_room(fields) <==> fields.dom().finite() && fields.dom().len() <= 6553,
{
}

} // verus!
