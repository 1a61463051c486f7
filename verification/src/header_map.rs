//! The header multimap of the `http` crate, as re-exported by `hyper`.
//!
//! The map, its names and its values stay the crate's own. Three names say
//! what they hold, and each method that the proxy calls has one wrapper here
//! whose contract is stated over those names.
use hyper::header::{HeaderMap, HeaderName, HeaderValue};
use vstd::prelude::*;

verus! {

/// `http::HeaderMap`, a multimap from header names to values.
#[verifier::external_type_specification]
#[verifier::external_body]
#[verifier::reject_recursive_types(T)]
pub struct ExHeaderMap<T>(HeaderMap<T>);

/// `http::HeaderName`, a validated header name in lower case.
#[verifier::external_type_specification]
#[verifier::external_body]
pub struct ExHeaderName(HeaderName);

/// `http::HeaderValue`, the bytes of one header value.
#[verifier::external_type_specification]
#[verifier::external_body]
pub struct ExHeaderValue(HeaderValue);

/// The characters of a header name.
pub uninterp spec fn name_text(name: HeaderName) -> Seq<char>;

/// The bytes of a header value.
pub uninterp spec fn value_bytes(value: HeaderValue) -> Seq<u8>;

/// What a header map holds: for each name the values under it, in the order
/// in which they were added. A name without a value is not in the map.
pub uninterp spec fn header_fields(map: HeaderMap<HeaderValue>) -> Map<Seq<char>, Seq<Seq<u8>>>;

/// How many distinct names a header map holds.
pub uninterp spec fn distinct_names(map: HeaderMap<HeaderValue>) -> nat;

/// The number of distinct names below which an insertion always finds room.
///
/// The map refuses to grow its index past 32768 slots, and at that size it
/// asks for growth only once the names fill a fifth of the slots.
pub const ROOMY: usize = 6554;

/// A character that may stand in a header name.
pub open spec fn token_char(c: char) -> bool {
    ||| 'a' <= c <= 'z'
    ||| 'A' <= c <= 'Z'
    ||| '0' <= c <= '9'
    ||| c == '!' || c == '#' || c == '$' || c == '%' || c == '&' || c == '\'' || c == '*'
    ||| c == '+' || c == '-' || c == '.' || c == '^' || c == '_' || c == '`' || c == '|'
    ||| c == '~'
}

/// A text that names a header.
pub open spec fn is_header_name(s: Seq<char>) -> bool {
    &&& 0 < s.len() <= 65535
    &&& forall|i: int| #![trigger s[i]] 0 <= i < s.len() ==> token_char(s[i])
}

/// A byte that may stand in a header value made from a string.
pub open spec fn value_byte(b: u8) -> bool {
    b >= 32 && b != 127 || b == 9
}

/// The bytes of a value as text, if they are visible ASCII.
pub open spec fn value_as_text(bytes: Seq<u8>) -> Option<Seq<char>> {
    let s = Seq::new(bytes.len(), |i: int| bytes[i] as char);
    if crate::text::is_text(s) {
        Some(s)
    } else {
        None
    }
}

/// `HeaderName::from_static`: a name from a string that is already in lower
/// case. On other strings the function panics, so they are left out.
#[verifier::external_body]
pub(crate) fn static_name(text: &'static str) -> (name: HeaderName)
    requires
        is_header_name(text@),
        crate::text::lower(text@) == text@,
    ensures
        name_text(name) == text@,
{
    HeaderName::from_static(text)
}

/// `HeaderName::from_bytes`: a name in lower case from any text that spells
/// one, and nothing from any other text.
#[verifier::external_body]
pub(crate) fn parse_name(text: &str) -> (name: Option<HeaderName>)
    ensures
        name is Some <==> is_header_name(text@),
        name matches Some(n) ==> name_text(n) == crate::text::lower(text@),
{
    HeaderName::from_bytes(text.as_bytes()).ok()
}

/// `HeaderName::as_str`: the characters of a name.
#[verifier::external_body]
pub(crate) fn name_str(name: &HeaderName) -> (text: &str)
    ensures
        text@ == name_text(*name),
{
    name.as_str()
}

/// `HeaderValue::to_str`: the value as text if all of it is visible ASCII.
#[verifier::external_body]
pub(crate) fn value_text(value: &HeaderValue) -> (text: Option<&str>)
    ensures
        text is Some <==> value_as_text(value_bytes(*value)) is Some,
        text matches Some(t) ==> value_as_text(value_bytes(*value)) == Some(t@),
{
    value.to_str().ok()
}

/// `HeaderValue::from_str`: a value of the string's bytes, unless one of them
/// is a control character.
#[verifier::external_body]
pub(crate) fn parse_value(text: &str) -> (value: Option<HeaderValue>)
    ensures
        value is Some <==> forall|i: int|
            #![trigger vstd::utf8::encode_utf8(text@)[i]]
            0 <= i < vstd::utf8::encode_utf8(text@).len() ==> value_byte(
                vstd::utf8::encode_utf8(text@)[i],
            ),
        value matches Some(v) ==> value_bytes(v) == vstd::utf8::encode_utf8(text@),
{
    HeaderValue::from_str(text).ok()
}

/// `HeaderValue::from` on an unsigned number: the number in decimal.
#[verifier::external_body]
pub(crate) fn number_value(n: u64) -> (value: HeaderValue)
    ensures
        value_bytes(value) == vstd::utf8::encode_utf8(crate::text::decimal(n as nat)),
{
    HeaderValue::from(n)
}

/// `HeaderValue::clone`: another value of the same bytes.
#[verifier::external_body]
pub(crate) fn copy_value(value: &HeaderValue) -> (copy: HeaderValue)
    ensures
        value_bytes(copy) == value_bytes(*value),
{
    value.clone()
}

/// `HeaderMap::contains_key`.
#[verifier::external_body]
pub(crate) fn has_header(map: &HeaderMap<HeaderValue>, name: &HeaderName) -> (found: bool)
    ensures
        found == header_fields(*map).contains_key(name_text(*name)),
{
    map.contains_key(name)
}

/// `HeaderMap::get`: the first value under a name.
#[verifier::external_body]
pub(crate) fn first_value<'a>(map: &'a HeaderMap<HeaderValue>, name: &HeaderName) -> (value: Option<
    &'a HeaderValue,
>)
    ensures
        value is Some <==> header_fields(*map).contains_key(name_text(*name)),
        value matches Some(v) ==> header_fields(*map)[name_text(*name)].len() > 0 && value_bytes(*v)
            == header_fields(*map)[name_text(*name)][0],
{
    map.get(name)
}

/// `HeaderMap::get_all`: every value under a name, in order.
#[verifier::external_body]
pub(crate) fn all_values<'a>(map: &'a HeaderMap<HeaderValue>, name: &HeaderName) -> (values: Vec<
    &'a HeaderValue,
>)
    ensures
        Seq::new(values@.len(), |i: int| value_bytes(*values@[i])) == (if header_fields(
            *map,
        ).contains_key(name_text(*name)) {
            header_fields(*map)[name_text(*name)]
        } else {
            Seq::empty()
        }),
{
    map.get_all(name).iter().collect()
}

/// `HeaderMap::remove`: takes a name and all its values out.
#[verifier::external_body]
pub(crate) fn remove_header(map: &mut HeaderMap<HeaderValue>, name: &HeaderName)
    ensures
        header_fields(*final(map)) == header_fields(*old(map)).remove(name_text(*name)),
        distinct_names(*final(map)) <= distinct_names(*old(map)),
{
    map.remove(name);
}

/// `HeaderMap::try_insert`: puts one value under a name in place of whatever
/// stood there, or leaves the headers as they are where the map is full. With
/// fewer names than [`ROOMY`] it never is; with more, it depends on how the
/// names are spread over its index.
#[verifier::external_body]
pub(crate) fn insert_header(
    map: &mut HeaderMap<HeaderValue>,
    name: HeaderName,
    value: HeaderValue,
) -> (done: bool)
    ensures
        distinct_names(*old(map)) < ROOMY ==> done,
        done ==> header_fields(*final(map)) == header_fields(*old(map)).insert(
            name_text(name),
            seq![value_bytes(value)],
        ),
        !done ==> header_fields(*final(map)) == header_fields(*old(map)),
        distinct_names(*final(map)) <= distinct_names(*old(map)) + 1,
{
    map.try_insert(name, value).is_ok()
}

/// A value is text exactly when each of its bytes is a tab or lies between
/// the space and the tilde, and its text then has one character per byte.
pub proof fn law_text_of_a_value(bytes: Seq<u8>)
    ensures
        value_as_text(bytes) is Some <==> forall|i: int|
            #![trigger bytes[i]]
            0 <= i < bytes.len() ==> bytes[i] == 9 || 32 <= bytes[i] <= 126,
        value_as_text(bytes) matches Some(text) ==> text.len() == bytes.len() && forall|i: int|
            #![trigger text[i]]
            0 <= i < bytes.len() ==> text[i] as int == bytes[i] as int,
{
    let s = Seq::new(bytes.len(), |i: int| bytes[i] as char);
    assert forall|i: int| 0 <= i < bytes.len() implies #[trigger] s[i] as int == bytes[i] as int by {
    }
    if crate::text::is_text(s) {
        assert forall|i: int| 0 <= i < bytes.len() implies #[trigger] bytes[i] == 9 || 32
            <= bytes[i] <= 126 by {
            assert(crate::text::visible(s[i]));
        }
    }
}

/// A string that has no control character in it makes a value. Only the tab
/// is taken all the same.
pub proof fn law_bytes_of_a_value(b: u8)
    ensures
        !value_byte(b) <==> b == 127 || (b < 32 && b != 9),
{
}

/// A header name is made of letters, digits and fifteen signs, and is neither
/// empty nor longer than 65535 characters.
pub proof fn law_spelling_of_a_name(s: Seq<char>)
    ensures
        is_header_name(s) <==> s.len() > 0 && s.len() < 65536 && forall|i: int|
            #![trigger s[i]]
            0 <= i < s.len() ==> 'a' <= s[i] <= 'z' || 'A' <= s[i] <= 'Z' || '0' <= s[i] <= '9'
                || "!#$%&'*+-.^_`|~"@.contains(s[i]),
{
    reveal_strlit("!#$%&'*+-.^_`|~");
    let signs = "!#$%&'*+-.^_`|~"@;
    assert forall|c: char|
        #![trigger token_char(c)]
        token_char(c) <==> ('a' <= c <= 'z' || 'A' <= c <= 'Z' || '0' <= c <= '9'
            || signs.contains(c)) by {
        assert(signs.len() == 15);
        if signs.contains(c) {
            let i = choose|i: int| 0 <= i < signs.len() && signs[i] == c;
            assert(0 <= i < 15);
            assert(token_char(signs[i]));
        }
        assert(signs[0] == '!' && signs[1] == '#' && signs[2] == '$' && signs[3] == '%');
        assert(signs[4] == '&' && signs[5] == '\'' && signs[6] == '*' && signs[7] == '+');
        assert(signs[8] == '-' && signs[9] == '.' && signs[10] == '^' && signs[11] == '_');
        assert(signs[12] == '`' && signs[13] == '|' && signs[14] == '~');
    }
    if is_header_name(s) {
        assert forall|i: int| 0 <= i < s.len() implies 'a' <= #[trigger] s[i] <= 'z' || 'A' <= s[i]
            <= 'Z' || '0' <= s[i] <= '9' || signs.contains(s[i]) by {
            assert(token_char(s[i]));
        }
    }
}

} // verus!
