//! The reverse proxy in front of the decoy site: what is sent on, and what is sent back.

use crate::headers::{
    field_text, fields_of, has_room, header_append, header_bytes, header_fields, header_from_str,
    header_get, header_insert, header_map, header_pairs, header_remove, header_text, header_to_str,
    is_header_name, is_value_byte, lemma_fields_of, lemma_values_under, lists_fields,
    pairs_view, text_value, value_text, values_under, Fields,
};
use crate::config::AppConfig;
use crate::host::{
    host_of, names_loopback, normalize_host, normalized_host,
    origin_from_url, origin_of, parse_url, parts_view, url_host, url_is_local, url_parts, UrlParts,
};
use crate::reply::{local_fake_response, local_reply, Reply};
use crate::text::{
    before_char, joined, same_text, strip_prefix, trim, trim_end_matches, trim_end_of, trimmed,
    until,
};
use axum::http::{HeaderMap, HeaderValue};
use vstd::prelude::*;
use vstd::string::*;
use vstd::utf8::*;

verus! {

/// The request headers that are not sent on: those that concern one connection only, and those in
/// which a front server tells where a request came from.
pub open spec fn stripped_headers() -> Seq<Seq<char>> {
    seq![
        "host"@,
        "connection"@,
        "content-length"@,
        "proxy-authenticate"@,
        "proxy-authorization"@,
        "te"@,
        "trailer"@,
        "transfer-encoding"@,
        "upgrade"@,
        "keep-alive"@,
        "cf-connecting-ip"@,
        "cf-ipcountry"@,
        "cf-ray"@,
        "cf-visitor"@,
        "cf-worker"@,
        "cf-ew-via"@,
        "cdn-loop"@,
        "x-forwarded-for"@,
        "x-forwarded-host"@,
        "x-forwarded-proto"@,
        "x-real-ip"@,
    ]
}

/// The response headers that are not sent back.
pub open spec fn skipped_headers() -> Seq<Seq<char>> {
    seq![
        "connection"@,
        "content-length"@,
        "keep-alive"@,
        "proxy-authenticate"@,
        "proxy-authorization"@,
        "te"@,
        "trailer"@,
        "transfer-encoding"@,
        "upgrade"@,
        "server"@,
        "cf-ray"@,
    ]
}

/// The request headers that are sent on.
pub open spec fn sanitized(
    fields: Fields,
) -> Fields {
    kept_fields(fields).insert("accept-encoding"@, seq![encode_utf8("identity"@)])
}

/// The fields that are not stripped.
pub open spec fn kept_fields(
    fields: Fields,
) -> Fields {
    Map::new(
        |name: Seq<char>| fields.contains_key(name) && !stripped_headers().contains(name),
        |name: Seq<char>| fields[name],
    )
}

/// Drops the headers that must not be sent on, and asks for an unencoded body.
///
/// Fails only if the header map is too full to take another field.
pub fn sanitize_proxy_request_headers(headers: &mut HeaderMap) -> (done: bool)
    ensures
        done ==> header_fields(*final(headers)) == sanitized(header_fields(*old(headers))),
        !done ==> header_fields(*final(headers)) == kept_fields(header_fields(*old(headers))),
        has_room(header_fields(*old(headers))) ==> done,
{
    let names: [&str; 21] = [
        "host",
        "connection",
        "content-length",
        "proxy-authenticate",
        "proxy-authorization",
        "te",
        "trailer",
        "transfer-encoding",
        "upgrade",
        "keep-alive",
        "cf-connecting-ip",
        "cf-ipcountry",
        "cf-ray",
        "cf-visitor",
        "cf-worker",
        "cf-ew-via",
        "cdn-loop",
        "x-forwarded-for",
        "x-forwarded-host",
        "x-forwarded-proto",
        "x-real-ip",
    ];
    let ghost fields = header_fields(*headers);
    proof {
        lemma_stripped_are_names();
    }
    let mut i: usize = 0;
    while i < 21
        invariant
            i <= 21,
            names@.len() == 21,
            forall|k: int| 0 <= k < 21 ==> #[trigger] names@[k]@ == stripped_headers()[k],
            forall|k: int| 0 <= k < 21 ==> is_header_name(#[trigger] stripped_headers()[k]),
            fields == header_fields(*old(headers)),
            forall|name: Seq<char>| #[trigger]
                header_fields(*headers).contains_key(name) <==> fields.contains_key(name)
                    && !stripped_headers().take(i as int).contains(name),
            forall|name: Seq<char>| #[trigger]
                header_fields(*headers).contains_key(name) ==> header_fields(*headers)[name]
                    == fields[name],
        decreases 21 - i,
    {
        assert(is_header_name(names@[i as int]@));
        header_remove(headers, names[i]);
        proof {
            let shorter = stripped_headers().take(i as int);
            let longer = stripped_headers().take(i + 1);
            assert(longer =~= shorter.push(stripped_headers()[i as int]));
            assert forall|name: Seq<char>|
                longer.contains(name) <==> shorter.contains(name) || name == names@[i as int]@ by {
                if shorter.contains(name) {
                    let k = choose|k: int| 0 <= k < shorter.len() && shorter[k] == name;
                    assert(longer[k] == name);
                }
                assert(longer[i as int] == names@[i as int]@);
            }
        }
        i = i + 1;
    }
    proof {
        assert(stripped_headers().take(21) =~= stripped_headers());
        assert(header_fields(*headers) =~= kept_fields(fields));
        if has_room(fields) {
            vstd::set_lib::lemma_len_subset(kept_fields(fields).dom(), fields.dom());
        }
        lemma_identity_value();
        lemma_accept_encoding_name();
    }
    match header_from_str("identity") {
        Some(identity) => header_insert(headers, "accept-encoding", identity),
        None => false,
    }
}

proof fn lemma_stripped_are_names()
    ensures
        forall|k: int| 0 <= k < 21 ==> is_header_name(#[trigger] stripped_headers()[k]),
{
    reveal_strlit("host");
    reveal_strlit("connection");
    reveal_strlit("content-length");
    reveal_strlit("proxy-authenticate");
    reveal_strlit("proxy-authorization");
    reveal_strlit("te");
    reveal_strlit("trailer");
    reveal_strlit("transfer-encoding");
    reveal_strlit("upgrade");
    reveal_strlit("keep-alive");
    reveal_strlit("cf-connecting-ip");
    reveal_strlit("cf-ipcountry");
    reveal_strlit("cf-ray");
    reveal_strlit("cf-visitor");
    reveal_strlit("cf-worker");
    reveal_strlit("cf-ew-via");
    reveal_strlit("cdn-loop");
    reveal_strlit("x-forwarded-for");
    reveal_strlit("x-forwarded-host");
    reveal_strlit("x-forwarded-proto");
    reveal_strlit("x-real-ip");
}

proof fn lemma_accept_encoding_name()
    ensures
        is_header_name("accept-encoding"@),
{
    reveal_strlit("accept-encoding");
}

proof fn lemma_identity_value()
    ensures
        text_value("identity"@) == Some(encode_utf8("identity"@)),
{
    reveal_strlit("identity");
    is_ascii_chars_encode_utf8("identity"@);
    let bytes = encode_utf8("identity"@);
    assert forall|i: int| 0 <= i < bytes.len() implies is_value_byte(#[trigger] bytes[i]) by {
        assert("identity"@[i] as u8 == bytes[i]);
    }
}

/// Whether a response header is not sent back.
pub fn should_skip_proxy_response_header(name: &str) -> (skip: bool)
    ensures
        skip == skipped_headers().contains(name@),
{
    let names: [&str; 11] = [
        "connection",
        "content-length",
        "keep-alive",
        "proxy-authenticate",
        "proxy-authorization",
        "te",
        "trailer",
        "transfer-encoding",
        "upgrade",
        "server",
        "cf-ray",
    ];
    let mut i: usize = 0;
    while i < 11
        invariant
            i <= 11,
            names@.len() == 11,
            forall|k: int| 0 <= k < 11 ==> #[trigger] names@[k]@ == skipped_headers()[k],
            forall|k: int| 0 <= k < i ==> #[trigger] skipped_headers()[k] != name@,
        decreases 11 - i,
    {
        if same_text(names[i], name) {
            assert(skipped_headers()[i as int] == name@);
            return true;
        }
        i = i + 1;
    }
    assert(!skipped_headers().contains(name@));
    false
}

/// The value of an optional text.
pub open spec fn text_opt(text: Option<&str>) -> Option<Seq<char>> {
    match text {
        Some(t) => Some(t@),
        None => None,
    }
}

/// The value of an optional owned text.
pub open spec fn string_opt(text: Option<String>) -> Option<Seq<char>> {
    match text {
        Some(t) => Some(t@),
        None => None,
    }
}

/// The host that a request is addressed to. What a front server says of it counts first, even if
/// it is not readable.
pub open spec fn request_host(fields: Fields) -> Option<Seq<char>> {
    if fields.contains_key("x-forwarded-host"@) {
        field_text(fields, "x-forwarded-host"@)
    } else {
        field_text(fields, "host"@)
    }
}

/// The scheme that a request came by.
pub open spec fn request_scheme(fields: Fields) -> Seq<char> {
    match field_text(fields, "x-forwarded-proto"@) {
        Some(list) => {
            let scheme = trimmed(until(list, ','));
            if scheme == "http"@ || scheme == "https"@ {
                scheme
            } else {
                "https"@
            }
        },
        None => "https"@,
    }
}

/// The origin under which clients see the service.
pub open spec fn public_origin(fields: Fields) -> Option<Seq<char>> {
    match request_host(fields) {
        Some(host) => Some(request_scheme(fields) + "://"@ + host),
        None => None,
    }
}

/// Whether a request is addressed to the host of a URL.
pub open spec fn is_same_host(
    current_host: Option<Seq<char>>,
    url: Option<(Seq<char>, Option<Seq<char>>, Option<u16>)>,
) -> bool {
    current_host matches Some(host) && host_of(url) == Some(normalized_host(host))
}

proof fn lemma_host_headers_are_names()
    ensures
        is_header_name("x-forwarded-host"@),
        is_header_name("x-forwarded-proto"@),
        is_header_name("host"@),
{
    reveal_strlit("x-forwarded-host");
    reveal_strlit("x-forwarded-proto");
    reveal_strlit("host");
}

/// The host that a request is addressed to.
pub fn current_host(headers: &HeaderMap) -> (host: Option<&str>)
    ensures
        text_opt(host) == request_host(header_fields(*headers)),
{
    proof {
        lemma_host_headers_are_names();
    }
    match header_get(headers, "x-forwarded-host") {
        Some(value) => header_to_str(value),
        None => header_text(headers, "host"),
    }
}

/// Whether a request is addressed to the host of a URL.
pub fn addresses_host(current_host: Option<&str>, url: &Option<UrlParts>) -> (same: bool)
    ensures
        same == is_same_host(text_opt(current_host), parts_view(*url)),
{
    match (current_host, url_host(url)) {
        (Some(host), Some(other)) => same_text(normalize_host(host).as_str(), other.as_str()),
        _ => false,
    }
}

/// Whether the decoy site is the very host that a request is addressed to.
pub fn proxy_target_is_current_host(config: &AppConfig, headers: &HeaderMap) -> (same: bool)
    ensures
        same == is_same_host(
            request_host(header_fields(*headers)),
            url_parts(config.fake_website@),
        ),
{
    addresses_host(current_host(headers), &parse_url(config.fake_website.as_str()))
}

/// The origin under which clients see the service, as far as a request tells.
pub fn public_origin_from_headers(headers: &HeaderMap) -> (origin: Option<String>)
    ensures
        string_opt(origin) == public_origin(header_fields(*headers)),
{
    proof {
        lemma_host_headers_are_names();
    }
    match current_host(headers) {
        Some(host) => {
            let mut origin: String = match header_text(headers, "x-forwarded-proto") {
                Some(list) => {
                    let scheme = trim(before_char(list, ',').as_str());
                    if same_text(scheme.as_str(), "http") || same_text(scheme.as_str(), "https") {
                        scheme
                    } else {
                        "https".to_owned()
                    }
                },
                None => "https".to_owned(),
            };
            origin.append("://");
            origin.append(host);
            Some(origin)
        },
        None => None,
    }
}

/// A redirect to the decoy site, turned to the public origin; nothing if it goes elsewhere.
pub open spec fn rewritten_location(
    location: Seq<u8>,
    fake_origin: Option<Seq<char>>,
    public_origin: Option<Seq<char>>,
) -> Option<Seq<u8>> {
    match (fake_origin, public_origin, value_text(location)) {
        (Some(fake), Some(public), Some(text)) => if fake.is_prefix_of(text) {
            text_value(public + text.skip(fake.len() as int))
        } else {
            None
        },
        _ => None,
    }
}

/// Turns a redirect to the decoy site to the public origin.
pub fn rewrite_location_header(
    value: &HeaderValue,
    fake_origin: Option<&str>,
    public_origin: Option<&str>,
) -> (rewritten: Option<HeaderValue>)
    ensures
        match rewritten {
            Some(v) => rewritten_location(
                header_bytes(*value),
                text_opt(fake_origin),
                text_opt(public_origin),
            ) == Some(header_bytes(v)),
            None => rewritten_location(
                header_bytes(*value),
                text_opt(fake_origin),
                text_opt(public_origin),
            ) is None,
        },
{
    match (fake_origin, public_origin, header_to_str(value)) {
        (Some(fake), Some(public), Some(location)) => match strip_prefix(location, fake) {
            Some(path) => header_from_str(joined(public, path.as_str()).as_str()),
            None => None,
        },
        _ => None,
    }
}

/// The value that is sent back for one value of a response header.
pub open spec fn proxied_value(
    name: Seq<char>,
    value: Seq<u8>,
    fake_origin: Option<Seq<char>>,
    public_origin: Option<Seq<char>>,
) -> Seq<u8> {
    if name == "location"@ {
        match rewritten_location(value, fake_origin, public_origin) {
            Some(rewritten) => rewritten,
            None => value,
        }
    } else {
        value
    }
}

/// The response headers that are sent back.
pub open spec fn proxied(
    fields: Fields,
    fake_origin: Option<Seq<char>>,
    public_origin: Option<Seq<char>>,
) -> Fields {
    Map::new(
        |name: Seq<char>| fields.contains_key(name) && !skipped_headers().contains(name),
        |name: Seq<char>|
            fields[name].map_values(
                |value: Seq<u8>| proxied_value(name, value, fake_origin, public_origin),
            ),
    )
}

/// What is sent back of a list of response headers.
spec fn sent_pairs(
    pairs: Seq<(Seq<char>, Seq<u8>)>,
    fake_origin: Option<Seq<char>>,
    public_origin: Option<Seq<char>>,
) -> Seq<(Seq<char>, Seq<u8>)>
    decreases pairs.len(),
{
    if pairs.len() == 0 {
        Seq::empty()
    } else {
        let earlier = sent_pairs(pairs.drop_last(), fake_origin, public_origin);
        let (name, value) = pairs.last();
        if skipped_headers().contains(name) {
            earlier
        } else {
            earlier.push((name, proxied_value(name, value, fake_origin, public_origin)))
        }
    }
}

/// Of each name that is not skipped all the values are sent back, in order.
proof fn lemma_sent_values(
    pairs: Seq<(Seq<char>, Seq<u8>)>,
    fake_origin: Option<Seq<char>>,
    public_origin: Option<Seq<char>>,
    name: Seq<char>,
)
    ensures
        values_under(sent_pairs(pairs, fake_origin, public_origin), name) == (
        if skipped_headers().contains(name) {
            Seq::empty()
        } else {
            values_under(pairs, name).map_values(
                |value: Seq<u8>| proxied_value(name, value, fake_origin, public_origin),
            )
        }),
    decreases pairs.len(),
{
    let f = |value: Seq<u8>| proxied_value(name, value, fake_origin, public_origin);
    if pairs.len() == 0 {
        assert(values_under(pairs, name).map_values(f) =~= Seq::empty());
    } else {
        lemma_sent_values(pairs.drop_last(), fake_origin, public_origin, name);
        let earlier = sent_pairs(pairs.drop_last(), fake_origin, public_origin);
        let (last_name, last_value) = pairs.last();
        if !skipped_headers().contains(last_name) {
            let longer = earlier.push(
                (last_name, proxied_value(last_name, last_value, fake_origin, public_origin)),
            );
            assert(longer.drop_last() =~= earlier);
            if last_name == name {
                assert(values_under(pairs, name).map_values(f) =~= values_under(
                    pairs.drop_last(),
                    name,
                ).map_values(f).push(f(last_value)));
            }
        }
    }
}

/// Earlier values stay when a list of headers grows.
proof fn lemma_values_grow(pairs: Seq<(Seq<char>, Seq<u8>)>, n: int, name: Seq<char>)
    requires
        0 <= n <= pairs.len(),
    ensures
        values_under(pairs.take(n), name).len() <= values_under(pairs, name).len(),
    decreases pairs.len(),
{
    if n == pairs.len() {
        assert(pairs.take(n) =~= pairs);
    } else {
        lemma_values_grow(pairs.drop_last(), n, name);
        assert(pairs.drop_last().take(n) =~= pairs.take(n));
    }
}

/// The part of the headers that was sent back so far has room, if all the headers have.
proof fn lemma_sent_has_room(
    pairs: Seq<(Seq<char>, Seq<u8>)>,
    fields: Fields,
    n: int,
    fake_origin: Option<Seq<char>>,
    public_origin: Option<Seq<char>>,
)
    requires
        lists_fields(pairs, fields),
        has_room(fields),
        0 <= n <= pairs.len(),
    ensures
        has_room(fields_of(sent_pairs(pairs.take(n), fake_origin, public_origin))),
{
    let sent = sent_pairs(pairs.take(n), fake_origin, public_origin);
    lemma_fields_of(sent, Seq::empty());
    assert forall|name: Seq<char>| fields_of(sent).dom().contains(
        name,
    ) implies fields.dom().contains(name) by {
        lemma_fields_of(sent, name);
        lemma_sent_values(pairs.take(n), fake_origin, public_origin, name);
        lemma_values_grow(pairs, n, name);
        assert(values_under(pairs, name).len() > 0);
    }
    vstd::set_lib::lemma_len_subset(fields_of(sent).dom(), fields.dom());
}

/// Every field that is to be sent back has a name that a text is taken for.
pub open spec fn has_plain_names(fields: Fields) -> bool {
    forall|name: Seq<char>| #[trigger]
        fields.contains_key(name) && !skipped_headers().contains(name) ==> is_header_name(name)
}

/// The response headers can all be sent back.
pub open spec fn can_send(fields: Fields) -> bool {
    has_room(fields) && has_plain_names(fields)
}

/// The response headers that are sent back.
///
/// Fails if one of them has a name with a double quote, or if there are more headers than a header
/// map takes.
pub fn proxy_response_headers(
    upstream: &HeaderMap,
    fake_origin: Option<&str>,
    public_origin: Option<&str>,
) -> (headers: Option<HeaderMap>)
    ensures
        headers matches Some(h) ==> {
            &&& has_plain_names(header_fields(*upstream))
            &&& header_fields(h) == proxied(
                header_fields(*upstream),
                text_opt(fake_origin),
                text_opt(public_origin),
            )
        },
        can_send(header_fields(*upstream)) ==> headers is Some,
{
    let pairs = header_pairs(upstream);
    let mut headers = header_map();
    let ghost all = pairs_view(pairs@);
    let ghost fields = header_fields(*upstream);
    let ghost fake = text_opt(fake_origin);
    let ghost public = text_opt(public_origin);
    assert(fields_of(sent_pairs(all.take(0), fake, public)) =~= Fields::empty());
    let mut i: usize = 0;
    while i < pairs.len()
        invariant
            i <= pairs@.len(),
            all == pairs_view(pairs@),
            fields == header_fields(*upstream),
            fake == text_opt(fake_origin),
            public == text_opt(public_origin),
            lists_fields(all, fields),
            header_fields(headers) == fields_of(sent_pairs(all.take(i as int), fake, public)),
            forall|k: int|
                0 <= k < i && !skipped_headers().contains((#[trigger] all[k]).0) ==> is_header_name(
                    all[k].0,
                ),
        decreases pairs@.len() - i,
    {
        let name: &str = pairs[i].0.as_str();
        let value: &HeaderValue = &pairs[i].1;
        proof {
            assert(all[i as int] == (name@, header_bytes(*value)));
            assert(all.take(i + 1).drop_last() =~= all.take(i as int));
            if has_room(fields) {
                lemma_sent_has_room(all, fields, i as int, fake, public);
            }
            lemma_values_under(all, name@);
            assert(fields.contains_key(name@));
        }
        if !should_skip_proxy_response_header(name) {
            let ghost sent = sent_pairs(all.take(i as int), fake, public);
            let ghost pair = (name@, proxied_value(name@, header_bytes(*value), fake, public));
            let rewritten: Option<HeaderValue> = if same_text(name, "location") {
                rewrite_location_header(value, fake_origin, public_origin)
            } else {
                None
            };
            let stored: bool = match &rewritten {
                Some(new_value) => header_append(&mut headers, name, new_value),
                None => header_append(&mut headers, name, value),
            };
            if !stored {
                return None;
            }
            assert(sent.push(pair).drop_last() =~= sent);
        }
        i = i + 1;
    }
    proof {
        assert(all.take(i as int) =~= all);
        assert forall|name: Seq<char>| #[trigger]
            fields.contains_key(name) && !skipped_headers().contains(name) implies is_header_name(
            name,
        ) by {
            assert(values_under(all, name).len() > 0);
            lemma_values_under(all, name);
        }
        let sent = sent_pairs(all, fake, public);
        let expected = proxied(fields, fake, public);
        assert forall|name: Seq<char>| #[trigger]
            fields_of(sent).dom().contains(name) <==> expected.dom().contains(name) by {
            lemma_fields_of(sent, name);
            lemma_sent_values(all, fake, public, name);
            assert(values_under(all, name).len() > 0 <==> fields.contains_key(name));
        }
        assert forall|name: Seq<char>| #[trigger]
            expected.dom().contains(name) implies fields_of(sent)[name] == expected[name] by {
            lemma_fields_of(sent, name);
            lemma_sent_values(all, fake, public, name);
            assert(values_under(all, name) == fields[name]);
        }
        assert(fields_of(sent) =~= expected);
    }
    Some(headers)
}

/// The address at the decoy site that stands for an address here.
pub fn proxy_target_url(fake_website: &str, path_and_query: Option<&str>) -> (url: String)
    ensures
        url@ == trim_end_of(fake_website@, '/') + (match path_and_query {
            Some(rest) => rest@,
            None => Seq::empty(),
        }),
{
    let mut url = trim_end_matches(fake_website, '/');
    match path_and_query {
        Some(rest) => {
            url.append(rest);
        },
        None => {
            assert(url@ + Seq::empty() =~= url@);
        },
    }
    url
}

/// A request to the decoy site.
pub struct ForwardRequest {
    pub target_url: String,
    pub headers: HeaderMap,
    /// The origin of the decoy site, if it has one.
    pub fake_origin: Option<String>,
    /// The origin under which clients see the service, if it is known.
    pub public_origin: Option<String>,
    /// Whether the body of the request is sent along.
    pub send_body: bool,
}

/// What to do with a request that is none of the service's own.
pub enum ProxyStep {
    /// Answer it here.
    Local(Reply),
    /// Send it on to the decoy site.
    Forward(ForwardRequest),
    /// Its headers leave no room for another one.
    Overfull,
}

/// What the parts of a URL say its origin is.
pub open spec fn url_origin(
    url: Option<(Seq<char>, Option<Seq<char>>, Option<u16>)>,
) -> Option<Seq<char>> {
    match url {
        Some(parts) => origin_of(parts),
        None => None,
    }
}

/// `step` is what to do with a request, where `url` is what the address of the decoy site says.
pub open spec fn is_proxy_step(
    fake_website: Seq<char>,
    url: Option<(Seq<char>, Option<Seq<char>>, Option<u16>)>,
    fields: Fields,
    path: Seq<char>,
    path_and_query: Option<Seq<char>>,
    body_len: Option<usize>,
    step: ProxyStep,
) -> bool {
    if is_same_host(request_host(fields), url) {
        step matches ProxyStep::Local(reply) && reply@ == local_reply(path)
    } else {
        match step {
            ProxyStep::Local(_) => false,
            ProxyStep::Forward(request) => {
                &&& request.target_url@ == trim_end_of(fake_website, '/') + (
                match path_and_query {
                    Some(rest) => rest,
                    None => Seq::empty(),
                })
                &&& header_fields(request.headers) == sanitized(fields)
                &&& string_opt(request.fake_origin) == url_origin(url)
                &&& string_opt(request.public_origin) == public_origin(fields)
                &&& request.send_body == (body_len is Some && body_len->0 > 0)
            },
            ProxyStep::Overfull => !has_room(fields),
        }
    }
}

/// Decides what to do with a request, given what the address of the decoy site says.
pub fn plan_proxy(
    fake_website: &str,
    url: &Option<UrlParts>,
    headers: HeaderMap,
    path: &str,
    path_and_query: Option<&str>,
    body_len: Option<usize>,
) -> (step: ProxyStep)
    ensures
        is_proxy_step(
            fake_website@,
            parts_view(*url),
            header_fields(headers),
            path@,
            text_opt(path_and_query),
            body_len,
            step,
        ),
{
    if addresses_host(current_host(&headers), url) {
        return ProxyStep::Local(local_fake_response(path));
    }
    let target_url = proxy_target_url(fake_website, path_and_query);
    let origin: Option<String> = match url {
        Some(parts) => origin_from_url(parts),
        None => None,
    };
    let public = public_origin_from_headers(&headers);
    let mut outgoing = headers;
    if !sanitize_proxy_request_headers(&mut outgoing) {
        return ProxyStep::Overfull;
    }
    let send_body: bool = match body_len {
        Some(len) => len > 0,
        None => false,
    };
    ProxyStep::Forward(
        ForwardRequest {
            target_url,
            headers: outgoing,
            fake_origin: origin,
            public_origin: public,
            send_body,
        },
    )
}

/// Decides what to do with a request that is none of the service's own.
pub fn proxy_to_fake(
    config: &AppConfig,
    headers: HeaderMap,
    path: &str,
    path_and_query: Option<&str>,
    body_len: Option<usize>,
) -> (step: ProxyStep)
    ensures
        is_proxy_step(
            config.fake_website@,
            url_parts(config.fake_website@),
            header_fields(headers),
            path@,
            text_opt(path_and_query),
            body_len,
            step,
        ),
{
    let url = parse_url(config.fake_website.as_str());
    plan_proxy(config.fake_website.as_str(), &url, headers, path, path_and_query, body_len)
}

/// What to answer once the decoy site has answered, or could not be reached.
pub enum ProxyAnswer {
    /// An answer of the service's own.
    Local(Reply),
    /// The body that the decoy site sent, under this status and with these headers.
    Upstream { status: u16, headers: HeaderMap },
    /// The decoy site sent headers that cannot all be sent back.
    Overfull,
}

/// `answer` is what to answer when the decoy site sent a status and headers, or nothing at all.
pub open spec fn is_proxy_answer(
    upstream: Option<(u16, Fields)>,
    path: Seq<char>,
    fake_origin: Option<Seq<char>>,
    public_origin: Option<Seq<char>>,
    answer: ProxyAnswer,
) -> bool {
    match upstream {
        None => answer matches ProxyAnswer::Local(reply) && reply@ == local_reply(path),
        Some((sent_status, fields)) => match answer {
            ProxyAnswer::Local(_) => false,
            ProxyAnswer::Upstream { status, headers } => {
                &&& status == sent_status
                &&& has_plain_names(fields)
                &&& header_fields(headers) == proxied(fields, fake_origin, public_origin)
            },
            ProxyAnswer::Overfull => !can_send(fields),
        },
    }
}

/// Decides what to answer once the decoy site has sent a status and headers, or could not be
/// reached.
pub fn answer_proxied(
    upstream: Option<(u16, &HeaderMap)>,
    path: &str,
    fake_origin: Option<&str>,
    public_origin: Option<&str>,
) -> (answer: ProxyAnswer)
    ensures
        is_proxy_answer(
            match upstream {
                Some((status, headers)) => Some((status, header_fields(*headers))),
                None => None,
            },
            path@,
            text_opt(fake_origin),
            text_opt(public_origin),
            answer,
        ),
{
    match upstream {
        Some((status, sent)) => match proxy_response_headers(sent, fake_origin, public_origin) {
            Some(headers) => ProxyAnswer::Upstream { status, headers },
            None => ProxyAnswer::Overfull,
        },
        None => ProxyAnswer::Local(local_fake_response(path)),
    }
}

/// Where a client is sent after the whitelist was cleared.
pub open spec fn redirect_target(
    fake_website: Seq<char>,
    url: Option<(Seq<char>, Option<Seq<char>>, Option<u16>)>,
    current_host: Option<Seq<char>>,
) -> Seq<char> {
    if names_loopback(url) || is_same_host(current_host, url) {
        "/"@
    } else {
        trim_end_of(fake_website, '/') + "/"@
    }
}

/// Where a client is sent, given what the address of the decoy site says.
pub fn redirect_for(
    fake_website: &str,
    url: &Option<UrlParts>,
    current_host: Option<&str>,
) -> (target: String)
    ensures
        target@ == redirect_target(fake_website@, parts_view(*url), text_opt(current_host)),
{
    if url_is_local(url) || addresses_host(current_host, url) {
        "/".to_owned()
    } else {
        joined(trim_end_matches(fake_website, '/').as_str(), "/")
    }
}

/// Where a client is sent after the whitelist was cleared.
pub fn clear_redirect_target(config: &AppConfig, headers: &HeaderMap) -> (target: String)
    ensures
        target@ == redirect_target(
            config.fake_website@,
            url_parts(config.fake_website@),
            request_host(header_fields(*headers)),
        ),
{
    let url = parse_url(config.fake_website.as_str());
    redirect_for(config.fake_website.as_str(), &url, current_host(headers))
}

} // verus!
