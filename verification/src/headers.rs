//! Header maps: what they hold, and the operations on them that the library uses.

use axum::http::{HeaderMap, HeaderName, HeaderValue};
use vstd::prelude::*;
use vstd::string::*;
use vstd::utf8::*;

verus! {

/// `axum::http::HeaderMap`, the header fields of a request or a response.
#[verifier::external_type_specification]
#[verifier::external_body]
#[verifier::reject_recursive_types(T)]
pub struct ExHeaderMap<T>(axum::http::HeaderMap<T>);

/// `axum::http::HeaderValue`, one value of a header field.
#[verifier::external_type_specification]
#[verifier::external_body]
pub struct ExHeaderValue(axum::http::HeaderValue);

/// Header fields: under each name the values, in order.
pub type Fields = Map<Seq<char>, Seq<Seq<u8>>>;

/// What a header map holds: under each field name, in lower case, its values in order.
pub uninterp spec fn header_fields(headers: HeaderMap<HeaderValue>) -> Map<Seq<char>, Seq<Seq<u8>>>;

/// The bytes that a header value holds.
pub uninterp spec fn header_bytes(value: HeaderValue) -> Seq<u8>;

/// The characters of a header name in lower case.
pub open spec fn is_name_char(c: char) -> bool {
    ||| 'a' <= c <= 'z'
    ||| '0' <= c <= '9'
    ||| c == '!' || c == '#' || c == '$' || c == '%' || c == '&' || c == '\'' || c == '*'
    ||| c == '+' || c == '-' || c == '.' || c == '^' || c == '_' || c == '`' || c == '|' || c == '~'
}

/// The names that a text is taken for, in lower case.
pub open spec fn is_header_name(name: Seq<char>) -> bool {
    0 < name.len() <= 65535 && forall|i: int| 0 <= i < name.len() ==> is_name_char(#[trigger] name[i])
}

/// The names under which a header map may keep its fields. A name that came by HTTP/2 may hold a
/// double quote, though no text with one is taken for a name.
pub open spec fn is_stored_name(name: Seq<char>) -> bool {
    0 < name.len() <= 65535 && forall|i: int|
        0 <= i < name.len() ==> is_name_char(#[trigger] name[i]) || name[i] == '"'
}

/// The bytes that a value may hold to be read as text.
pub open spec fn is_text_byte(b: u8) -> bool {
    32 <= b < 127 || b == 9
}

/// The bytes that a value may hold at all.
pub open spec fn is_value_byte(b: u8) -> bool {
    32 <= b && b != 127 || b == 9
}

/// The text of a header value, if all its bytes are visible ASCII.
pub open spec fn value_text(bytes: Seq<u8>) -> Option<Seq<char>> {
    if forall|i: int| 0 <= i < bytes.len() ==> is_text_byte(#[trigger] bytes[i]) {
        Some(bytes.map_values(|b: u8| b as char))
    } else {
        None
    }
}

/// The bytes of a header value that is made from a text, if the text can stand in a header.
pub open spec fn text_value(text: Seq<char>) -> Option<Seq<u8>> {
    let bytes = encode_utf8(text);
    if forall|i: int| 0 <= i < bytes.len() ==> is_value_byte(#[trigger] bytes[i]) {
        Some(bytes)
    } else {
        None
    }
}

/// The text of the first value of a field.
pub open spec fn field_text(
    fields: Fields,
    name: Seq<char>,
) -> Option<Seq<char>> {
    if fields.contains_key(name) {
        value_text(fields[name][0])
    } else {
        None
    }
}

/// The fields after one more value was added under a name.
pub open spec fn with_appended(
    fields: Fields,
    name: Seq<char>,
    bytes: Seq<u8>,
) -> Fields {
    if fields.contains_key(name) {
        fields.insert(name, fields[name].push(bytes))
    } else {
        fields.insert(name, seq![bytes])
    }
}

/// The number of fields up to which a header map always takes another value. Its table has at most
/// 32768 slots; it may ask for more, and then refuses, once a fifth of them are in use.
pub const SAFE_FIELD_COUNT: u64 = 6553;

/// So few fields that a header map takes another value, however its table is laid out.
pub open spec fn has_room(fields: Fields) -> bool {
    fields.dom().finite() && fields.dom().len() <= SAFE_FIELD_COUNT
}

/// The values that a list of pairs gives under a name, in order.
pub open spec fn values_under(pairs: Seq<(Seq<char>, Seq<u8>)>, name: Seq<char>) -> Seq<Seq<u8>>
    decreases pairs.len(),
{
    if pairs.len() == 0 {
        Seq::empty()
    } else {
        let earlier = values_under(pairs.drop_last(), name);
        if pairs.last().0 == name {
            earlier.push(pairs.last().1)
        } else {
            earlier
        }
    }
}

/// A list of names and values as plain sequences.
pub open spec fn pairs_view(pairs: Seq<(String, HeaderValue)>) -> Seq<(Seq<char>, Seq<u8>)> {
    pairs.map_values(|pair: (String, HeaderValue)| (pair.0@, header_bytes(pair.1)))
}

/// `pairs` gives every value of every field, those of one field in order.
pub open spec fn lists_fields(
    pairs: Seq<(Seq<char>, Seq<u8>)>,
    fields: Fields,
) -> bool {
    &&& fields.dom().finite()
    &&& forall|i: int| 0 <= i < pairs.len() ==> is_stored_name((#[trigger] pairs[i]).0)
    &&& forall|name: Seq<char>| #[trigger]
        values_under(pairs, name) == (if fields.contains_key(name) {
            fields[name]
        } else {
            Seq::empty()
        })
    &&& forall|name: Seq<char>| #[trigger] fields.contains_key(name) ==> fields[name].len() > 0
}

/// The fields that a list of pairs makes when its values are added one after another.
pub open spec fn fields_of(pairs: Seq<(Seq<char>, Seq<u8>)>) -> Fields
    decreases pairs.len(),
{
    if pairs.len() == 0 {
        Map::empty()
    } else {
        with_appended(fields_of(pairs.drop_last()), pairs.last().0, pairs.last().1)
    }
}

/// `HeaderMap::new` makes a map without fields.
#[verifier::external_body]
pub(crate) fn header_map() -> (headers: HeaderMap)
    ensures
        header_fields(headers) == Fields::empty(),
{
    HeaderMap::new()
}

/// `HeaderMap::get` with a name in lower case finds the first value of the field of that name.
#[verifier::external_body]
pub(crate) fn header_get<'a>(headers: &'a HeaderMap, name: &str) -> (value: Option<&'a HeaderValue>)
    requires
        is_header_name(name@),
    ensures
        match value {
            Some(v) => {
                &&& header_fields(*headers).contains_key(name@)
                &&& header_fields(*headers)[name@].len() > 0
                &&& header_bytes(*v) == header_fields(*headers)[name@][0]
            },
            None => !header_fields(*headers).contains_key(name@),
        },
{
    headers.get(name)
}

/// `HeaderMap::remove` with a name in lower case drops the field of that name with all its values.
#[verifier::external_body]
pub(crate) fn header_remove(headers: &mut HeaderMap, name: &str)
    requires
        is_header_name(name@),
    ensures
        header_fields(*final(headers)) == header_fields(*old(headers)).remove(name@),
{
    headers.remove(name);
}

/// `HeaderMap::try_insert` leaves one value under a name. It may fail, and then changes nothing,
/// but not while there is room. `HeaderName::from_bytes` takes a name in lower case as it stands.
#[verifier::external_body]
pub(crate) fn header_insert(headers: &mut HeaderMap, name: &str, value: HeaderValue) -> (stored: bool)
    requires
        is_header_name(name@),
    ensures
        stored ==> header_fields(*final(headers)) == header_fields(*old(headers)).insert(
            name@,
            seq![header_bytes(value)],
        ),
        !stored ==> header_fields(*final(headers)) == header_fields(*old(headers)),
        has_room(header_fields(*old(headers))) ==> stored,
{
    headers.try_insert(HeaderName::from_bytes(name.as_bytes()).unwrap(), value).is_ok()
}

/// `HeaderMap::try_append` adds a value under a name, after those that are there. It may fail, and
/// then changes nothing, but not while there is room. `HeaderName::from_bytes` takes a name in
/// lower case as it stands; it refuses one that holds a double quote, and then nothing is added.
#[verifier::external_body]
pub(crate) fn header_append(headers: &mut HeaderMap, name: &str, value: &HeaderValue) -> (stored: bool)
    requires
        is_stored_name(name@),
    ensures
        stored ==> is_header_name(name@) && header_fields(*final(headers)) == with_appended(
            header_fields(*old(headers)),
            name@,
            header_bytes(*value),
        ),
        !stored ==> header_fields(*final(headers)) == header_fields(*old(headers)),
        is_header_name(name@) && has_room(header_fields(*old(headers))) ==> stored,
{
    match HeaderName::from_bytes(name.as_bytes()) {
        Ok(name) => headers.try_append(name, value.clone()).is_ok(),
        Err(_) => false,
    }
}

/// `HeaderMap::iter` walks all the values, those of one field in order. In which order the fields
/// come is left open.
#[verifier::external_body]
pub(crate) fn header_pairs(headers: &HeaderMap) -> (pairs: Vec<(String, HeaderValue)>)
    ensures
        lists_fields(pairs_view(pairs@), header_fields(*headers)),
{
    headers.iter().map(|(name, value)| (name.as_str().to_string(), value.clone())).collect()
}

/// `HeaderValue::to_str` gives the text of a value that is visible ASCII throughout.
#[verifier::external_body]
pub(crate) fn header_to_str(value: &HeaderValue) -> (text: Option<&str>)
    ensures
        match text {
            Some(t) => value_text(header_bytes(*value)) == Some(t@),
            None => value_text(header_bytes(*value)) is None,
        },
{
    value.to_str().ok()
}

/// `HeaderValue::from_str` makes a value of a text whose bytes may all stand in a header.
#[verifier::external_body]
pub(crate) fn header_from_str(text: &str) -> (value: Option<HeaderValue>)
    ensures
        match value {
            Some(v) => text_value(text@) == Some(header_bytes(v)),
            None => text_value(text@) is None,
        },
{
    HeaderValue::from_str(text).ok()
}

/// The text of the first value of a field, if there is one and it is text.
pub(crate) fn header_text<'a>(headers: &'a HeaderMap, name: &str) -> (text: Option<&'a str>)
    requires
        is_header_name(name@),
    ensures
        match text {
            Some(t) => field_text(header_fields(*headers), name@) == Some(t@),
            None => field_text(header_fields(*headers), name@) is None,
        },
{
    match header_get(headers, name) {
        Some(value) => header_to_str(value),
        None => None,
    }
}

/// A name has a value in a list of pairs just where a pair bears it.
pub proof fn lemma_values_under(pairs: Seq<(Seq<char>, Seq<u8>)>, name: Seq<char>)
    ensures
        values_under(pairs, name).len() > 0 <==> exists|i: int|
            0 <= i < pairs.len() && (#[trigger] pairs[i]).0 == name,
    decreases pairs.len(),
{
    if pairs.len() > 0 {
        let shorter = pairs.drop_last();
        lemma_values_under(shorter, name);
        if values_under(pairs, name).len() > 0 {
            if pairs.last().0 == name {
                assert(pairs[pairs.len() - 1].0 == name);
            } else {
                let i = choose|i: int| 0 <= i < shorter.len() && (#[trigger] shorter[i]).0 == name;
                assert(pairs[i].0 == name);
            }
        }
        if exists|i: int| 0 <= i < pairs.len() && (#[trigger] pairs[i]).0 == name {
            let i = choose|i: int| 0 <= i < pairs.len() && (#[trigger] pairs[i]).0 == name;
            if i < shorter.len() {
                assert(shorter[i].0 == name);
            }
        }
    }
}

/// Adding values one after another keeps the values of each name in order.
pub proof fn lemma_fields_of(pairs: Seq<(Seq<char>, Seq<u8>)>, name: Seq<char>)
    ensures
        fields_of(pairs).dom().finite(),
        fields_of(pairs).contains_key(name) <==> values_under(pairs, name).len() > 0,
        fields_of(pairs).contains_key(name) ==> fields_of(pairs)[name] == values_under(pairs, name),
    decreases pairs.len(),
{
    if pairs.len() > 0 {
        lemma_fields_of(pairs.drop_last(), name);
        lemma_fields_of(pairs.drop_last(), pairs.last().0);
        if pairs.last().0 == name {
            assert(values_under(pairs, name) =~= values_under(pairs.drop_last(), name).push(
                pairs.last().1,
            ));
            if !fields_of(pairs.drop_last()).contains_key(name) {
                assert(seq![pairs.last().1] =~= values_under(pairs, name));
            }
        }
    }
}

} // verus!
