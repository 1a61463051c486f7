//! What a proxy may pass on of a message's headers, and what it must add.
use crate::header_map::{
    all_values, copy_value, first_value, has_header, insert_header, parse_name, parse_value,
    remove_header, static_name, value_text,
};
use crate::error::ProxyError;
use crate::text::{list_items, parse_u64};
use hyper::header::{HeaderMap, HeaderName, HeaderValue};
use vstd::prelude::*;

verus! {

/// The first value under `name` as text, if there is one and it is text.
pub open spec fn first_text(fields: Map<Seq<char>, Seq<Seq<u8>>>, name: Seq<char>) -> Option<
    Seq<char>,
> {
    if fields.contains_key(name) {
        crate::header_map::value_as_text(fields[name][0])
    } else {
        None
    }
}

/// The length that the message declares for its body.
pub open spec fn declared_length(fields: Map<Seq<char>, Seq<Seq<u8>>>) -> Option<u64> {
    match first_text(fields, "content-length"@) {
        Some(text) => crate::text::parsed_u64(text),
        None => None,
    }
}

/// The message frames its body in two ways at once.
pub open spec fn ambiguous_framing(fields: Map<Seq<char>, Seq<Seq<u8>>>) -> bool {
    fields.contains_key("content-length"@) && fields.contains_key("transfer-encoding"@)
}

/// The headers that only concern one connection, whatever `Connection` says.
pub open spec fn connection_scoped(name: Seq<char>) -> bool {
    ||| name == "connection"@
    ||| name == "keep-alive"@
    ||| name == "proxy-authenticate"@
    ||| name == "proxy-authorization"@
    ||| name == "proxy-connection"@
    ||| name == "te"@
    ||| name == "trailer"@
    ||| name == "transfer-encoding"@
    ||| name == "upgrade"@
}

/// `value` is a comma-separated list of header names, and `name` is one.
pub open spec fn value_lists(value: Seq<u8>, name: Seq<char>) -> bool {
    match crate::header_map::value_as_text(value) {
        Some(text) => exists|item: Seq<char>| #[trigger]
            crate::text::lists(text, item) && crate::header_map::is_header_name(item)
                && crate::text::lower(item) == name,
        None => false,
    }
}

/// A `Connection` header names `name`.
pub open spec fn connection_lists(
    fields: Map<Seq<char>, Seq<Seq<u8>>>,
    name: Seq<char>,
) -> bool {
    fields.contains_key("connection"@) && exists|i: int|
        0 <= i < fields["connection"@].len() && #[trigger] value_lists(
            fields["connection"@][i],
            name,
        )
}

/// The names that must not be passed on.
pub open spec fn hop_by_hop(fields: Map<Seq<char>, Seq<Seq<u8>>>) -> Set<Seq<char>> {
    Set::new(|name: Seq<char>| connection_scoped(name) || connection_lists(fields, name))
}

/// The headers that may be passed on.
pub open spec fn end_to_end(fields: Map<Seq<char>, Seq<Seq<u8>>>) -> Map<
    Seq<char>,
    Seq<Seq<u8>>,
> {
    fields.remove_keys(hop_by_hop(fields))
}

/// The names in a list of header names.
pub open spec fn names_in(names: Seq<HeaderName>) -> Set<Seq<char>> {
    Set::new(
        |name: Seq<char>|
            exists|i: int|
                0 <= i < names.len() && #[trigger] crate::header_map::name_text(names[i]) == name,
    )
}

pub proof fn lemma_small_name(s: Seq<char>)
    requires
        0 < s.len() <= 65535,
        forall|i: int| #![trigger s[i]] 0 <= i < s.len() ==> 'a' <= s[i] <= 'z' || s[i] == '-',
    ensures
        crate::header_map::is_header_name(s),
        crate::text::lower(s) == s,
{
    assert(crate::text::lower(s) =~= s);
}

pub(crate) fn content_length() -> (name: HeaderName)
    ensures
        crate::header_map::name_text(name) == "content-length"@,
{
    proof {
        reveal_strlit("content-length");
        lemma_small_name("content-length"@);
    }
    static_name("content-length")
}

fn transfer_encoding() -> (name: HeaderName)
    ensures
        crate::header_map::name_text(name) == "transfer-encoding"@,
{
    proof {
        reveal_strlit("transfer-encoding");
        lemma_small_name("transfer-encoding"@);
    }
    static_name("transfer-encoding")
}

fn connection() -> (name: HeaderName)
    ensures
        crate::header_map::name_text(name) == "connection"@,
{
    proof {
        reveal_strlit("connection");
        lemma_small_name("connection"@);
    }
    static_name("connection")
}

/// Returns the first value under `name`, if there is one and it is text.
pub(crate) fn header_text<'a>(headers: &'a HeaderMap<HeaderValue>, name: &HeaderName) -> (r: Option<
    &'a str,
>)
    ensures
        match first_text(
            crate::header_map::header_fields(*headers),
            crate::header_map::name_text(*name),
        ) {
            Some(text) => r is Some && r->Some_0@ == text && crate::text::is_text(text),
            None => r is None,
        },
{
    match first_value(headers, name) {
        Some(value) => value_text(value),
        None => None,
    }
}

/// Returns the length that a message declares for its body.
pub(crate) fn declared_body_length(headers: &HeaderMap<HeaderValue>) -> (r: Option<u64>)
    ensures
        r == declared_length(crate::header_map::header_fields(*headers)),
{
    match header_text(headers, &content_length()) {
        Some(text) => parse_u64(text),
        None => None,
    }
}

/// Whether a request frames its body both by a length and by a transfer
/// coding, which two parsers may read as two different bodies.
pub fn is_smuggling_attempt(headers: &HeaderMap<HeaderValue>) -> (r: bool)
    ensures
        r == ambiguous_framing(crate::header_map::header_fields(*headers)),
{
    has_header(headers, &content_length()) && has_header(headers, &transfer_encoding())
}

/// Whether a request declares a body of more than `max` bytes. One that
/// declares no length, or none that is a number, does not.
pub fn content_length_exceeds(headers: &HeaderMap<HeaderValue>, max: u64) -> (r: bool)
    ensures
        r == (declared_length(crate::header_map::header_fields(*headers)) matches Some(length)
            && length > max),
{
    match declared_body_length(headers) {
        Some(length) => length > max,
        None => false,
    }
}

/// Takes every header that `names` lists out of the map.
pub(crate) fn remove_names(headers: &mut HeaderMap<HeaderValue>, names: &[HeaderName])
    ensures
        crate::header_map::header_fields(*final(headers)) == crate::header_map::header_fields(
            *old(headers),
        ).remove_keys(names_in(names@)),
        crate::header_map::distinct_names(*final(headers)) <= crate::header_map::distinct_names(
            *old(headers),
        ),
{
    let ghost before = crate::header_map::header_fields(*headers);
    let mut i: usize = 0;
    assert(before =~= before.remove_keys(names_in(names@.take(0))));
    while i < names.len()
        invariant
            i <= names.len(),
            crate::header_map::header_fields(*headers) == before.remove_keys(
                names_in(names@.take(i as int)),
            ),
            crate::header_map::distinct_names(*headers) <= crate::header_map::distinct_names(
                *old(headers),
            ),
        decreases names.len() - i,
    {
        remove_header(headers, &names[i]);
        proof {
            let ghost grown = names@.take(i + 1);
            lemma_names_grow(names@.take(i as int), names@[i as int]);
            assert(grown =~= names@.take(i as int).push(names@[i as int]));
            assert(crate::header_map::header_fields(*headers) =~= before.remove_keys(
                names_in(grown),
            ));
        }
        i = i + 1;
    }
    assert(names@.take(names@.len() as int) =~= names@);
}

proof fn lemma_names_grow(names: Seq<HeaderName>, name: HeaderName)
    ensures
        names_in(names.push(name)) == names_in(names).insert(crate::header_map::name_text(name)),
{
    let grown = names.push(name);
    assert forall|n: Seq<char>| names_in(grown).contains(n) <==> names_in(names).insert(
        crate::header_map::name_text(name),
    ).contains(n) by {
        if names_in(names).contains(n) {
            let i = choose|i: int|
                0 <= i < names.len() && #[trigger] crate::header_map::name_text(names[i]) == n;
            assert(crate::header_map::name_text(grown[i]) == n);
        }
        if n == crate::header_map::name_text(name) {
            assert(crate::header_map::name_text(grown[names.len() as int]) == n);
        }
        if names_in(grown).contains(n) {
            let i = choose|i: int|
                0 <= i < grown.len() && #[trigger] crate::header_map::name_text(grown[i]) == n;
            if i < names.len() {
                assert(crate::header_map::name_text(names[i]) == n);
            }
        }
    }
    assert(names_in(grown) =~= names_in(names).insert(crate::header_map::name_text(name)));
}

/// The header names that a `Connection` value lists.
fn listed_names(value: &HeaderValue) -> (names: Vec<HeaderName>)
    ensures
        forall|name: Seq<char>| #[trigger]
            names_in(names@).contains(name) <==> value_lists(
                crate::header_map::value_bytes(*value),
                name,
            ),
{
    let mut names: Vec<HeaderName> = Vec::new();
    match value_text(value) {
        None => names,
        Some(text) => {
            let items = list_items(text);
            let mut i: usize = 0;
            while i < items.len()
                invariant
                    i <= items.len(),
                    forall|name: Seq<char>| #[trigger]
                        names_in(names@).contains(name) <==> exists|k: int|
                            0 <= k < i && crate::header_map::is_header_name(items@[k]@)
                                && crate::text::lower(#[trigger] items@[k]@) == name,
                decreases items.len() - i,
            {
                let ghost before = names@;
                if let Some(name) = parse_name(items[i].as_str()) {
                    proof {
                        lemma_names_grow(names@, name);
                    }
                    names.push(name);
                }
                assert forall|name: Seq<char>| #[trigger]
                    names_in(names@).contains(name) <==> exists|k: int|
                        0 <= k < i + 1 && crate::header_map::is_header_name(items@[k]@)
                            && crate::text::lower(#[trigger] items@[k]@) == name by {
                    let item = items@[i as int]@;
                    assert(names_in(before).contains(name) <==> exists|k: int|
                        0 <= k < i && crate::header_map::is_header_name(items@[k]@)
                            && crate::text::lower(#[trigger] items@[k]@) == name);
                    if crate::header_map::is_header_name(item) && crate::text::lower(item)
                        == name {
                        assert(names_in(names@).contains(name));
                    }
                }
                i = i + 1;
            }
            let ghost bytes = crate::header_map::value_bytes(*value);
            assert forall|name: Seq<char>| #[trigger]
                names_in(names@).contains(name) <==> value_lists(bytes, name) by {
                if value_lists(bytes, name) {
                    let item = choose|item: Seq<char>| #[trigger]
                        crate::text::lists(text@, item) && crate::header_map::is_header_name(item)
                            && crate::text::lower(item) == name;
                    let k = choose|k: int| 0 <= k < items@.len() && #[trigger] items@[k]@ == item;
                    assert(crate::header_map::is_header_name(items@[k]@));
                    assert(crate::text::lower(items@[k]@) == name);
                    assert(names_in(names@).contains(name));
                }
                if names_in(names@).contains(name) {
                    let k = choose|k: int|
                        0 <= k < items@.len() && crate::header_map::is_header_name(items@[k]@)
                            && crate::text::lower(#[trigger] items@[k]@) == name;
                    assert(crate::text::lists(text@, items@[k]@));
                    assert(crate::header_map::value_as_text(bytes)->Some_0 == text@);
                    assert(value_lists(bytes, name));
                }
            }
            names
        },
    }
}

/// The header names that the `Connection` headers of a message list.
fn connection_names(headers: &HeaderMap<HeaderValue>) -> (names: Vec<HeaderName>)
    ensures
        forall|name: Seq<char>| #[trigger]
            names_in(names@).contains(name) <==> connection_lists(
                crate::header_map::header_fields(*headers),
                name,
            ),
{
    let ghost fields = crate::header_map::header_fields(*headers);
    let values = all_values(headers, &connection());
    let ghost bytes = Seq::new(
        values@.len(),
        |i: int| crate::header_map::value_bytes(*values@[i]),
    );
    let mut names: Vec<HeaderName> = Vec::new();
    let mut i: usize = 0;
    while i < values.len()
        invariant
            i <= values.len(),
            bytes.len() == values@.len(),
            forall|k: int|
                #![trigger values@[k]]
                0 <= k < bytes.len() ==> bytes[k] == crate::header_map::value_bytes(*values@[k]),
            forall|name: Seq<char>| #[trigger]
                names_in(names@).contains(name) <==> exists|k: int|
                    0 <= k < i && #[trigger] value_lists(bytes[k], name),
        decreases values.len() - i,
    {
        let mut listed = listed_names(values[i]);
        let ghost before = names@;
        let ghost more = listed@;
        names.append(&mut listed);
        proof {
            lemma_names_join(before, more);
            assert(names@ =~= before + more);
            assert forall|name: Seq<char>| #[trigger]
                names_in(names@).contains(name) <==> exists|k: int|
                    0 <= k < i + 1 && #[trigger] value_lists(bytes[k], name) by {
                assert(names_in(before).contains(name) <==> exists|k: int|
                    0 <= k < i && #[trigger] value_lists(bytes[k], name));
                assert(names_in(more).contains(name) <==> value_lists(bytes[i as int], name));
            }
        }
        i = i + 1;
    }
    assert forall|name: Seq<char>| #[trigger]
        names_in(names@).contains(name) <==> connection_lists(fields, name) by {
        if fields.contains_key("connection"@) {
            assert(bytes == fields["connection"@]);
        } else {
            assert(bytes.len() == 0);
        }
    }
    names
}

proof fn lemma_names_join(a: Seq<HeaderName>, b: Seq<HeaderName>)
    ensures
        names_in(a + b) == names_in(a).union(names_in(b)),
{
    assert forall|n: Seq<char>| names_in(a + b).contains(n) <==> names_in(a).union(
        names_in(b),
    ).contains(n) by {
        if names_in(a).contains(n) {
            let i = choose|i: int|
                0 <= i < a.len() && #[trigger] crate::header_map::name_text(a[i]) == n;
            assert(crate::header_map::name_text((a + b)[i]) == n);
        }
        if names_in(b).contains(n) {
            let i = choose|i: int|
                0 <= i < b.len() && #[trigger] crate::header_map::name_text(b[i]) == n;
            assert(crate::header_map::name_text((a + b)[a.len() + i]) == n);
        }
        if names_in(a + b).contains(n) {
            let i = choose|i: int|
                0 <= i < (a + b).len() && #[trigger] crate::header_map::name_text((a + b)[i]) == n;
            if i < a.len() {
                assert(crate::header_map::name_text(a[i]) == n);
            } else {
                assert(crate::header_map::name_text(b[i - a.len()]) == n);
            }
        }
    }
    assert(names_in(a + b) =~= names_in(a).union(names_in(b)));
}

/// The names of the headers that only concern one connection.
fn connection_scoped_names() -> (names: Vec<HeaderName>)
    ensures
        forall|name: Seq<char>| #[trigger]
            names_in(names@).contains(name) <==> connection_scoped(name),
{
    proof {
        reveal_strlit("keep-alive");
        reveal_strlit("proxy-authenticate");
        reveal_strlit("proxy-authorization");
        reveal_strlit("proxy-connection");
        reveal_strlit("te");
        reveal_strlit("trailer");
        reveal_strlit("upgrade");
        lemma_small_name("keep-alive"@);
        lemma_small_name("proxy-authenticate"@);
        lemma_small_name("proxy-authorization"@);
        lemma_small_name("proxy-connection"@);
        lemma_small_name("te"@);
        lemma_small_name("trailer"@);
        lemma_small_name("upgrade"@);
    }
    let names = vec![
        connection(),
        static_name("keep-alive"),
        static_name("proxy-authenticate"),
        static_name("proxy-authorization"),
        static_name("proxy-connection"),
        static_name("te"),
        static_name("trailer"),
        transfer_encoding(),
        static_name("upgrade"),
    ];
    assert forall|name: Seq<char>| #[trigger]
        names_in(names@).contains(name) <==> connection_scoped(name) by {
        assert(connection_scoped(crate::header_map::name_text(names@[0])));
        assert(connection_scoped(crate::header_map::name_text(names@[1])));
        assert(connection_scoped(crate::header_map::name_text(names@[2])));
        assert(connection_scoped(crate::header_map::name_text(names@[3])));
        assert(connection_scoped(crate::header_map::name_text(names@[4])));
        assert(connection_scoped(crate::header_map::name_text(names@[5])));
        assert(connection_scoped(crate::header_map::name_text(names@[6])));
        assert(connection_scoped(crate::header_map::name_text(names@[7])));
        assert(connection_scoped(crate::header_map::name_text(names@[8])));
    }
    names
}

/// Takes out the headers that only concern the connection on which a message
/// came: the fixed ones, and those that a `Connection` header names.
pub fn strip_hop_by_hop(headers: &mut HeaderMap<HeaderValue>)
    ensures
        crate::header_map::header_fields(*final(headers)) == end_to_end(
            crate::header_map::header_fields(*old(headers)),
        ),
        crate::header_map::distinct_names(*final(headers)) <= crate::header_map::distinct_names(
            *old(headers),
        ),
{
    let ghost fields = crate::header_map::header_fields(*headers);
    let mut listed = connection_names(headers);
    let mut names = connection_scoped_names();
    proof {
        lemma_names_join(names@, listed@);
        assert(names_in(names@ + listed@) =~= hop_by_hop(fields));
    }
    names.append(&mut listed);
    remove_names(headers, names.as_slice());
}

/// Takes the configured headers out of a response.
pub fn strip_response_headers(headers: &mut HeaderMap<HeaderValue>, names: &[HeaderName])
    ensures
        crate::header_map::header_fields(*final(headers)) == crate::header_map::header_fields(
            *old(headers),
        ).remove_keys(names_in(names@)),
        crate::header_map::distinct_names(*final(headers)) <= crate::header_map::distinct_names(
            *old(headers),
        ),
{
    remove_names(headers, names);
}

/// `text` behind the addresses that a forwarding header already holds.
pub open spec fn linked(before: Seq<char>, text: Seq<char>) -> Seq<char> {
    if before.len() == 0 {
        text
    } else if text.len() == 0 {
        before
    } else {
        before + ", "@ + text
    }
}

/// The texts among the values of a forwarding header, as one list.
pub open spec fn chain(values: Seq<Seq<u8>>) -> Seq<char>
    decreases values.len(),
{
    if values.len() == 0 {
        Seq::empty()
    } else {
        match crate::header_map::value_as_text(values.last()) {
            Some(text) => linked(chain(values.drop_last()), text),
            None => chain(values.drop_last()),
        }
    }
}

/// The chain of addresses that a request has come through, up to `client`.
/// What the client itself says of it counts only where it is trusted.
pub open spec fn forwarded_for(
    fields: Map<Seq<char>, Seq<Seq<u8>>>,
    client: Seq<char>,
    trust: bool,
) -> Seq<char> {
    if trust && fields.contains_key("x-forwarded-for"@) {
        linked(chain(fields["x-forwarded-for"@]), client)
    } else {
        client
    }
}

/// The scheme on which a request came in.
pub open spec fn inbound_scheme(tls: bool) -> Seq<char> {
    if tls {
        "https"@
    } else {
        "http"@
    }
}

/// The headers of a request with its origin written into them.
pub open spec fn forwarded(
    fields: Map<Seq<char>, Seq<Seq<u8>>>,
    client: Seq<char>,
    tls: bool,
    trust: bool,
) -> Map<Seq<char>, Seq<Seq<u8>>> {
    let with_client = fields.insert(
        "x-forwarded-for"@,
        seq![vstd::utf8::encode_utf8(forwarded_for(fields, client, trust))],
    );
    let with_scheme = if trust && fields.contains_key("x-forwarded-proto"@) {
        with_client
    } else {
        with_client.insert(
            "x-forwarded-proto"@,
            seq![vstd::utf8::encode_utf8(inbound_scheme(tls))],
        )
    };
    if trust && fields.contains_key("x-forwarded-host"@) {
        with_scheme
    } else if fields.contains_key("host"@) {
        with_scheme.insert("x-forwarded-host"@, seq![fields["host"@][0]])
    } else {
        with_scheme.remove("x-forwarded-host"@)
    }
}

/// The headers with `authority` as the host that is asked for.
pub open spec fn hosted(fields: Map<Seq<char>, Seq<Seq<u8>>>, authority: Seq<char>) -> Map<
    Seq<char>,
    Seq<Seq<u8>>,
> {
    fields.insert("host"@, seq![vstd::utf8::encode_utf8(authority)])
}

/// Makes a header value of a text.
pub(crate) fn text_value(text: &str) -> (value: HeaderValue)
    requires
        crate::text::is_text(text@),
    ensures
        crate::header_map::value_bytes(value) == vstd::utf8::encode_utf8(text@),
{
    match parse_value(text) {
        Some(value) => value,
        None => {
            proof {
                crate::text::lemma_ascii_spelled(text@);
            }
            vstd::pervasive::unreached()
        },
    }
}

/// Writes `text` behind `before`.
fn link(before: String, text: &str) -> (r: String)
    requires
        crate::text::is_text(before@),
        crate::text::is_text(text@),
    ensures
        r@ == linked(before@, text@),
        crate::text::is_text(r@),
{
    proof {
        reveal_strlit(", ");
    }
    if before.as_str().unicode_len() == 0 {
        text.to_owned()
    } else if text.unicode_len() == 0 {
        before
    } else {
        let mut r = before;
        r.append(", ");
        r.append(text);
        r
    }
}

/// Joins the texts among the values of a header.
fn join_values(values: &[&HeaderValue]) -> (r: String)
    ensures
        r@ == chain(
            Seq::new(values@.len(), |i: int| crate::header_map::value_bytes(*values@[i])),
        ),
        crate::text::is_text(r@),
{
    let ghost bytes = Seq::new(
        values@.len(),
        |i: int| crate::header_map::value_bytes(*values@[i]),
    );
    let mut r = String::new();
    let mut i: usize = 0;
    while i < values.len()
        invariant
            i <= values.len(),
            bytes.len() == values@.len(),
            forall|k: int|
                #![trigger values@[k]]
                0 <= k < bytes.len() ==> bytes[k] == crate::header_map::value_bytes(*values@[k]),
            r@ == chain(bytes.take(i as int)),
            crate::text::is_text(r@),
        decreases values.len() - i,
    {
        assert(bytes.take(i + 1).drop_last() =~= bytes.take(i as int));
        if let Some(text) = value_text(values[i]) {
            r = link(r, text);
        }
        i = i + 1;
    }
    assert(bytes.take(bytes.len() as int) =~= bytes);
    r
}

fn forwarded_for_name() -> (name: HeaderName)
    ensures
        crate::header_map::name_text(name) == "x-forwarded-for"@,
{
    proof {
        reveal_strlit("x-forwarded-for");
        lemma_small_name("x-forwarded-for"@);
    }
    static_name("x-forwarded-for")
}

fn forwarded_proto_name() -> (name: HeaderName)
    ensures
        crate::header_map::name_text(name) == "x-forwarded-proto"@,
{
    proof {
        reveal_strlit("x-forwarded-proto");
        lemma_small_name("x-forwarded-proto"@);
    }
    static_name("x-forwarded-proto")
}

fn forwarded_host_name() -> (name: HeaderName)
    ensures
        crate::header_map::name_text(name) == "x-forwarded-host"@,
{
    proof {
        reveal_strlit("x-forwarded-host");
        lemma_small_name("x-forwarded-host"@);
    }
    static_name("x-forwarded-host")
}

fn host() -> (name: HeaderName)
    ensures
        crate::header_map::name_text(name) == "host"@,
{
    proof {
        reveal_strlit("host");
        lemma_small_name("host"@);
    }
    static_name("host")
}

/// Why a message is given up when its header map has no room for what the
/// proxy adds to it.
pub open spec fn no_room() -> crate::error::ErrorView {
    crate::error::ErrorView::Internal("too many headers"@)
}

/// Puts a value under a name, or says that there is no room for it.
pub(crate) fn put_header(
    headers: &mut HeaderMap<HeaderValue>,
    name: HeaderName,
    value: HeaderValue,
) -> (r: Result<(), ProxyError>)
    ensures
        crate::header_map::distinct_names(*old(headers)) < crate::header_map::ROOMY ==> r is Ok,
        r is Ok ==> crate::header_map::header_fields(*final(headers))
            == crate::header_map::header_fields(*old(headers)).insert(
            crate::header_map::name_text(name),
            seq![crate::header_map::value_bytes(value)],
        ),
        r matches Err(e) ==> e@ == no_room() && crate::header_map::header_fields(*final(headers))
            == crate::header_map::header_fields(*old(headers)),
        crate::header_map::distinct_names(*final(headers)) <= crate::header_map::distinct_names(
            *old(headers),
        ) + 1,
{
    if insert_header(headers, name, value) {
        Ok(())
    } else {
        Err(ProxyError::Internal("too many headers".to_owned()))
    }
}

/// Two maps hold the same under every name but the forwarding ones.
pub open spec fn same_but_forwarding(
    a: Map<Seq<char>, Seq<Seq<u8>>>,
    b: Map<Seq<char>, Seq<Seq<u8>>>,
) -> bool {
    forall|name: Seq<char>|
        #![trigger a.contains_key(name)]
        #![trigger b.contains_key(name)]
        !forwarding_name(name) ==> (a.contains_key(name) <==> b.contains_key(name)) && (
        a.contains_key(name) ==> a[name] == b[name])
}

/// Writes the origin of a request into its headers: the address of the
/// client, the scheme that it used and the host that it asked for. Unless
/// the client is trusted, this replaces whatever it wrote there itself. Where
/// it is, its address joins the chain that it sent, and a scheme or a host
/// that it sent stays.
///
/// Where the map is too full for them, the forwarding headers may be
/// incomplete and nothing else has changed.
pub fn inject_forwarding_headers(
    headers: &mut HeaderMap<HeaderValue>,
    client: &str,
    tls: bool,
    trust: bool,
) -> (r: Result<(), ProxyError>)
    requires
        crate::text::is_text(client@),
    ensures
        crate::header_map::distinct_names(*old(headers)) + 3 <= crate::header_map::ROOMY
            ==> r is Ok,
        r is Ok ==> crate::header_map::header_fields(*final(headers)) == forwarded(
            crate::header_map::header_fields(*old(headers)),
            client@,
            tls,
            trust,
        ),
        r matches Err(e) ==> e@ == no_room() && same_but_forwarding(
            crate::header_map::header_fields(*old(headers)),
            crate::header_map::header_fields(*final(headers)),
        ),
        crate::header_map::distinct_names(*final(headers)) <= crate::header_map::distinct_names(
            *old(headers),
        ) + 3,
{
    let keep_scheme = trust && has_header(headers, &forwarded_proto_name());
    let keep_host = trust && has_header(headers, &forwarded_host_name());
    let asked = match first_value(headers, &host()) {
        Some(value) => Some(copy_value(value)),
        None => None,
    };
    let origin = if trust {
        let values = all_values(headers, &forwarded_for_name());
        link(join_values(values.as_slice()), client)
    } else {
        client.to_owned()
    };
    if let Err(e) = put_header(headers, forwarded_for_name(), text_value(origin.as_str())) {
        return Err(e);
    }
    if !keep_scheme {
        proof {
            reveal_strlit("https");
            reveal_strlit("http");
        }
        let scheme = if tls {
            "https"
        } else {
            "http"
        };
        if let Err(e) = put_header(headers, forwarded_proto_name(), text_value(scheme)) {
            return Err(e);
        }
    }
    if keep_host {
        return Ok(());
    }
    match asked {
        Some(value) => put_header(headers, forwarded_host_name(), value),
        None => {
            remove_header(headers, &forwarded_host_name());
            Ok(())
        },
    }
}

/// Asks for `authority` in the `Host` header. Where the map is too full for
/// it, nothing changes.
pub fn rewrite_host(headers: &mut HeaderMap<HeaderValue>, authority: &str) -> (r: Result<
    (),
    ProxyError,
>)
    requires
        crate::text::is_text(authority@),
    ensures
        crate::header_map::distinct_names(*old(headers)) < crate::header_map::ROOMY ==> r is Ok,
        r is Ok ==> crate::header_map::header_fields(*final(headers)) == hosted(
            crate::header_map::header_fields(*old(headers)),
            authority@,
        ),
        r matches Err(e) ==> e@ == no_room() && crate::header_map::header_fields(*final(headers))
            == crate::header_map::header_fields(*old(headers)),
        crate::header_map::distinct_names(*final(headers)) <= crate::header_map::distinct_names(
            *old(headers),
        ) + 1,
{
    put_header(headers, host(), text_value(authority))
}

/// What has been stripped once stays as it is when it is stripped again, and
/// can no longer frame a body in two ways.
pub proof fn law_stripping_settles(fields: Map<Seq<char>, Seq<Seq<u8>>>)
    ensures
        end_to_end(end_to_end(fields)) == end_to_end(fields),
        !ambiguous_framing(end_to_end(fields)),
{
    let once = end_to_end(fields);
    assert(hop_by_hop(fields).contains("connection"@));
    assert(hop_by_hop(fields).contains("transfer-encoding"@));
    assert forall|name: Seq<char>| hop_by_hop(once).contains(name) implies !once.contains_key(
        name,
    ) by {
        assert(hop_by_hop(fields).contains(name));
    }
    assert(end_to_end(once) =~= once);
}

/// Stripping takes out exactly the fixed connection headers and those that a
/// `Connection` header names, and leaves every other header as it was.
pub proof fn law_stripping_is_exact(fields: Map<Seq<char>, Seq<Seq<u8>>>, name: Seq<char>)
    ensures
        connection_scoped(name) || connection_lists(fields, name) ==> !end_to_end(
            fields,
        ).contains_key(name),
        !connection_scoped(name) && !connection_lists(fields, name) ==> (end_to_end(
            fields,
        ).contains_key(name) <==> fields.contains_key(name)),
        end_to_end(fields).contains_key(name) ==> end_to_end(fields)[name] == fields[name],
{
}

/// The names under which the origin of a request is written.
pub open spec fn forwarding_name(name: Seq<char>) -> bool {
    name == "x-forwarded-for"@ || name == "x-forwarded-proto"@ || name == "x-forwarded-host"@
}

/// Those names, and that of the host, are four different ones, and none of
/// them only concerns a connection.
pub proof fn lemma_names_apart()
    ensures
        "x-forwarded-for"@ != "x-forwarded-proto"@,
        "x-forwarded-for"@ != "x-forwarded-host"@,
        "x-forwarded-proto"@ != "x-forwarded-host"@,
        !forwarding_name("host"@),
        !connection_scoped("host"@),
        !connection_scoped("x-forwarded-for"@),
        !connection_scoped("x-forwarded-proto"@),
        !connection_scoped("x-forwarded-host"@),
{
    reveal_strlit("x-forwarded-for");
    reveal_strlit("x-forwarded-proto");
    reveal_strlit("x-forwarded-host");
    reveal_strlit("host");
    reveal_strlit("connection");
    reveal_strlit("keep-alive");
    reveal_strlit("proxy-authenticate");
    reveal_strlit("proxy-authorization");
    reveal_strlit("proxy-connection");
    reveal_strlit("te");
    reveal_strlit("trailer");
    reveal_strlit("transfer-encoding");
    reveal_strlit("upgrade");
    let f = "x-forwarded-for"@;
    let p = "x-forwarded-proto"@;
    let h = "x-forwarded-host"@;
    let host = "host"@;
    assert(f.len() == 15 && p.len() == 17 && h.len() == 16 && host.len() == 4);
    assert(f[0] == 'x' && p[0] == 'x' && h[0] == 'x' && host[0] == 'h');
    assert("connection"@[0] == 'c');
    assert("keep-alive"@[0] == 'k');
    assert("proxy-authenticate"@[0] == 'p');
    assert("proxy-authorization"@[0] == 'p');
    assert("proxy-connection"@[0] == 'p');
    assert("te"@[0] == 't');
    assert("trailer"@[0] == 't');
    assert("transfer-encoding"@[0] == 't');
    assert("upgrade"@[0] == 'u');
}

/// The origin that an untrusted client claims for itself does not matter:
/// upstream reads the address from which the request came, the scheme on
/// which it came and the host that it asked for, whatever the client wrote
/// into the forwarding headers.
pub proof fn law_origin_not_spoofable(
    fields: Map<Seq<char>, Seq<Seq<u8>>>,
    client: Seq<char>,
    tls: bool,
)
    ensures
        forwarded(fields, client, tls, false).contains_key("x-forwarded-for"@),
        forwarded(fields, client, tls, false)["x-forwarded-for"@] == seq![
            vstd::utf8::encode_utf8(client),
        ],
        forwarded(fields, client, tls, false).contains_key("x-forwarded-proto"@),
        forwarded(fields, client, tls, false)["x-forwarded-proto"@] == seq![
            vstd::utf8::encode_utf8(inbound_scheme(tls)),
        ],
        forwarded(fields, client, tls, false).contains_key("x-forwarded-host"@)
            <==> fields.contains_key("host"@),
        fields.contains_key("host"@) ==> forwarded(fields, client, tls, false)[
            "x-forwarded-host"@
        ] == seq![fields["host"@][0]],
{
    lemma_names_apart();
}

/// A trusted client's chain of addresses is kept, with its own address at the
/// end, and a scheme and a host that it sent are kept too.
pub proof fn law_trusted_origin_kept(
    fields: Map<Seq<char>, Seq<Seq<u8>>>,
    client: Seq<char>,
    tls: bool,
)
    ensures
        fields.contains_key("x-forwarded-for"@) ==> forwarded(fields, client, tls, true)[
            "x-forwarded-for"@
        ] == seq![vstd::utf8::encode_utf8(linked(chain(fields["x-forwarded-for"@]), client))],
        fields.contains_key("x-forwarded-proto"@) ==> forwarded(fields, client, tls, true)[
            "x-forwarded-proto"@
        ] == fields["x-forwarded-proto"@],
        fields.contains_key("x-forwarded-host"@) ==> forwarded(fields, client, tls, true)[
            "x-forwarded-host"@
        ] == fields["x-forwarded-host"@],
{
    lemma_names_apart();
}

/// Writing the origin of a request changes no other header.
pub proof fn law_forwarding_touches_nothing_else(
    fields: Map<Seq<char>, Seq<Seq<u8>>>,
    client: Seq<char>,
    tls: bool,
    trust: bool,
    name: Seq<char>,
)
    requires
        !forwarding_name(name),
    ensures
        forwarded(fields, client, tls, trust).contains_key(name) <==> fields.contains_key(name),
        fields.contains_key(name) ==> forwarded(fields, client, tls, trust)[name] == fields[name],
{
}

/// The length that a message declares is the number that its first
/// `Content-Length` writes, if that is text and writes one.
pub proof fn law_declared_length(fields: Map<Seq<char>, Seq<Seq<u8>>>, length: u64)
    ensures
        declared_length(fields) == Some(length) <==> fields.contains_key("content-length"@)
            && exists|text: Seq<char>|
            crate::header_map::value_as_text(fields["content-length"@][0]) == Some(text)
                && #[trigger] crate::text::parsed_u64(text) == Some(length),
{
}

/// A `Connection` header names a header in one of its values, if that is text,
/// as an item of the list there, in capital letters or not.
pub proof fn law_connection_names_headers(
    fields: Map<Seq<char>, Seq<Seq<u8>>>,
    name: Seq<char>,
)
    ensures
        !fields.contains_key("connection"@) ==> !connection_lists(fields, name),
        fields.contains_key("connection"@) ==> (connection_lists(fields, name) <==> exists|
            i: int,
            text: Seq<char>,
            item: Seq<char>,
        |
            0 <= i < fields["connection"@].len() && crate::header_map::value_as_text(
                #[trigger] fields["connection"@][i],
            ) == Some(text) && #[trigger] crate::text::lists(text, item)
                && crate::header_map::is_header_name(item) && crate::text::lower(item) == name),
{
    if fields.contains_key("connection"@) {
        let values = fields["connection"@];
        if connection_lists(fields, name) {
            let i = choose|i: int| 0 <= i < values.len() && #[trigger] value_lists(values[i], name);
            let text = crate::header_map::value_as_text(values[i])->Some_0;
            let item = choose|item: Seq<char>| #[trigger]
                crate::text::lists(text, item) && crate::header_map::is_header_name(item)
                    && crate::text::lower(item) == name;
            assert(crate::header_map::value_as_text(values[i]) == Some(text));
        }
        if exists|i: int, text: Seq<char>, item: Seq<char>|
            0 <= i < values.len() && crate::header_map::value_as_text(#[trigger] values[i]) == Some(
                text,
            ) && #[trigger] crate::text::lists(text, item) && crate::header_map::is_header_name(
                item,
            ) && crate::text::lower(item) == name {
            let (i, text, item) = choose|i: int, text: Seq<char>, item: Seq<char>|
                0 <= i < values.len() && crate::header_map::value_as_text(#[trigger] values[i])
                    == Some(text) && #[trigger] crate::text::lists(text, item)
                    && crate::header_map::is_header_name(item) && crate::text::lower(item) == name;
            let read = crate::header_map::value_as_text(values[i])->Some_0;
            assert(read == text);
            assert(crate::text::lists(read, item));
            assert(value_lists(values[i], name));
        }
    }
}

/// Nine headers only ever concern one connection, and no more than nine:
/// a message is passed on without these and without the ones that its
/// `Connection` header names, and with every other header and all its values.
pub proof fn law_nine_headers_stay_behind(
    fields: Map<Seq<char>, Seq<Seq<u8>>>,
    name: Seq<char>,
)
    ensures
        ({
            let nine = seq![
                "connection"@,
                "keep-alive"@,
                "proxy-authenticate"@,
                "proxy-authorization"@,
                "proxy-connection"@,
                "te"@,
                "trailer"@,
                "transfer-encoding"@,
                "upgrade"@,
            ];
            &&& connection_scoped(name) <==> nine.contains(name)
            &&& end_to_end(fields).contains_key(name) <==> fields.contains_key(name)
                && !nine.contains(name) && !connection_lists(fields, name)
            &&& fields.contains_key(name) && !nine.contains(name) && !connection_lists(fields, name)
                ==> end_to_end(fields)[name] == fields[name]
            &&& fields.contains_key(name) && !nine.contains(name) && !fields.contains_key(
                "connection"@,
            ) ==> end_to_end(fields).contains_key(name) && end_to_end(fields)[name] == fields[name]
        }),
{
    let nine = seq![
        "connection"@,
        "keep-alive"@,
        "proxy-authenticate"@,
        "proxy-authorization"@,
        "proxy-connection"@,
        "te"@,
        "trailer"@,
        "transfer-encoding"@,
        "upgrade"@,
    ];
    assert(nine[0] == "connection"@ && nine[1] == "keep-alive"@ && nine[2]
        == "proxy-authenticate"@ && nine[3] == "proxy-authorization"@ && nine[4]
        == "proxy-connection"@ && nine[5] == "te"@ && nine[6] == "trailer"@ && nine[7]
        == "transfer-encoding"@ && nine[8] == "upgrade"@);
    if nine.contains(name) {
        let i = choose|i: int| 0 <= i < nine.len() && nine[i] == name;
        assert(connection_scoped(nine[i]));
    }
}

/// A message frames its body in two ways exactly when it has both a
/// `Content-Length` and a `Transfer-Encoding`, whatever is in them.
pub proof fn law_two_framings(fields: Map<Seq<char>, Seq<Seq<u8>>>)
    ensures
        ambiguous_framing(fields) <==> fields.dom().contains("content-length"@)
            && fields.dom().contains("transfer-encoding"@),
{
}

/// A list of names holds a name exactly when one of its entries spells it.
pub proof fn law_names_in_a_list(names: Seq<HeaderName>, name: Seq<char>)
    ensures
        names_in(names).contains(name) <==> exists|i: int|
            0 <= i < names.len() && name == #[trigger] crate::header_map::name_text(names[i]),
{
}

/// The origin of a request is written into its headers: the address of the
/// client, the scheme on which it came, and the host that it asked for, if it
/// asked for one. What a trusted client says of it stands. No other header
/// changes.
pub proof fn law_origin_is_written_anew(
    fields: Map<Seq<char>, Seq<Seq<u8>>>,
    client: Seq<char>,
    tls: bool,
    trust: bool,
)
    ensures
        ({
            let sent = forwarded(fields, client, tls, trust);
            &&& sent.contains_key("x-forwarded-for"@) && sent.contains_key("x-forwarded-proto"@)
            &&& !trust || !fields.contains_key("x-forwarded-for"@) ==> sent["x-forwarded-for"@]
                == seq![vstd::utf8::encode_utf8(client)]
            &&& !trust || !fields.contains_key("x-forwarded-proto"@) ==> sent["x-forwarded-proto"@]
                == seq![
                vstd::utf8::encode_utf8(
                    if tls {
                        "https"@
                    } else {
                        "http"@
                    },
                ),
            ]
            &&& trust && fields.contains_key("x-forwarded-proto"@) ==> sent["x-forwarded-proto"@]
                == fields["x-forwarded-proto"@]
            &&& !trust || !fields.contains_key("x-forwarded-host"@) ==> (sent.contains_key(
                "x-forwarded-host"@,
            ) <==> fields.contains_key("host"@)) && (fields.contains_key("host"@)
                ==> sent["x-forwarded-host"@] == seq![fields["host"@][0]])
            &&& trust && fields.contains_key("x-forwarded-host"@) ==> sent.contains_key(
                "x-forwarded-host"@,
            ) && sent["x-forwarded-host"@] == fields["x-forwarded-host"@]
            &&& forall|name: Seq<char>|
                #![trigger sent.contains_key(name)]
                #![trigger fields.contains_key(name)]
                name != "x-forwarded-for"@ && name != "x-forwarded-proto"@ && name
                    != "x-forwarded-host"@ ==> (sent.contains_key(name) <==> fields.contains_key(
                    name,
                )) && (fields.contains_key(name) ==> sent[name] == fields[name])
        }),
{
    lemma_names_apart();
}

/// A trusted client's chain of addresses is the texts of its values, one after
/// the other with a comma and a space in between, and then the client. Its
/// last value thus reads as if it stood before the client, and one that is
/// empty or no text as if it were not there.
pub proof fn law_chain_ends_with_the_client(
    fields: Map<Seq<char>, Seq<Seq<u8>>>,
    values: Seq<Seq<u8>>,
    last: Seq<u8>,
    client: Seq<char>,
    tls: bool,
)
    ensures
        ({
            let name = "x-forwarded-for"@;
            let none = fields.insert(name, Seq::empty());
            let fewer = fields.insert(name, values);
            let all = fields.insert(name, values.push(last));
            &&& forwarded(none, client, tls, true)[name] == seq![vstd::utf8::encode_utf8(client)]
            &&& forwarded(all, client, tls, true)[name] == match crate::header_map::value_as_text(
                last,
            ) {
                None => forwarded(fewer, client, tls, true)[name],
                Some(text) => if text.len() == 0 {
                    forwarded(fewer, client, tls, true)[name]
                } else if client.len() == 0 {
                    forwarded(fewer, text, tls, true)[name]
                } else {
                    forwarded(fewer, text + ", "@ + client, tls, true)[name]
                },
            }
        }),
{
    lemma_names_apart();
    reveal_strlit(", ");
    assert(values.push(last).drop_last() =~= values);
    assert(values.push(last).last() == last);
    let before = chain(values);
    if let Some(text) = crate::header_map::value_as_text(last) {
        if text.len() > 0 && client.len() > 0 {
            assert(linked(linked(before, text), client) =~= linked(before, text + ", "@ + client));
        }
    }
}

/// A request is asked of the backend at this authority, and keeps every other
/// header.
pub proof fn law_host_is_the_authority(
    fields: Map<Seq<char>, Seq<Seq<u8>>>,
    authority: Seq<char>,
    name: Seq<char>,
)
    ensures
        hosted(fields, authority).contains_key("host"@),
        hosted(fields, authority)["host"@] == seq![vstd::utf8::encode_utf8(authority)],
        name != "host"@ ==> (hosted(fields, authority).contains_key(name)
            <==> fields.contains_key(name)) && (fields.contains_key(name) ==> hosted(
            fields,
            authority,
        )[name] == fields[name]),
{
}

/// Where the origin of a request could not be written for want of room, no
/// header but the three that hold it has changed, and the request ends as a
/// failure of the proxy itself.
pub proof fn law_want_of_room(
    before: Map<Seq<char>, Seq<Seq<u8>>>,
    after: Map<Seq<char>, Seq<Seq<u8>>>,
    name: Seq<char>,
)
    requires
        same_but_forwarding(before, after),
        name != "x-forwarded-for"@,
        name != "x-forwarded-proto"@,
        name != "x-forwarded-host"@,
    ensures
        after.contains_key(name) <==> before.contains_key(name),
        before.contains_key(name) ==> after[name] == before[name],
        no_room() == crate::error::ErrorView::Internal("too many headers"@),
        no_room().refusal() is None,
{
    assert(before.contains_key(name) <==> after.contains_key(name));
}

} // verus!
