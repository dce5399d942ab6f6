//! What the reverse proxy sends on and sends back, said of the header fields and texts themselves.

use crate::config::AppConfig;
use crate::headers::{header_bytes, header_fields, is_header_name, text_value, value_text, Fields};
use crate::host::{normalize_host, normalized_host, parts_view, url_is_local, url_parts, UrlParts};
use crate::laws::answers::{is_pretended_reply, lemma_pretended_reply};
use crate::laws::fields::{
    is_readable, is_storable, is_token, law_header_names_are_tokens, law_text_of_a_field,
    law_text_of_a_value, law_value_of_a_text, reads_as,
};
use crate::laws::hosts::{
    is_bracketed, is_origin, is_this_machine, lemma_begins_with_127, lemma_not_bracketed,
    lemma_origin, lemma_wrapped,
};
use crate::laws::text::{
    is_all, is_blank, is_tight, law_repeating_takes_two_places, law_trimming_leaves_the_core,
    law_until_ends_at_the_first_occurrence,
};
use crate::laws::{is_header_text, law_redirect_is_moved};
use crate::proxy::{
    addresses_host, answer_proxied, can_send, clear_redirect_target, current_host, has_plain_names,
    is_proxy_step, is_same_host, plan_proxy, proxied, proxied_value, proxy_response_headers,
    proxy_target_is_current_host, proxy_target_url, proxy_to_fake, public_origin,
    public_origin_from_headers, redirect_for, request_host, rewrite_location_header,
    rewritten_location, sanitize_proxy_request_headers, sanitized,
    should_skip_proxy_response_header, skipped_headers, stripped_headers, text_opt, ForwardRequest,
    ProxyAnswer, ProxyStep,
};
use crate::text::{ascii_lower, trim_end_of, trimmed, until};
use axum::http::{HeaderMap, HeaderValue};
use vstd::prelude::*;
use vstd::string::*;
use vstd::utf8::*;

verus! {

/// The names of the request headers that are not sent on.
pub open spec fn is_withheld(name: Seq<char>) -> bool {
    ||| name == "host"@
    ||| name == "connection"@
    ||| name == "content-length"@
    ||| name == "proxy-authenticate"@
    ||| name == "proxy-authorization"@
    ||| name == "te"@
    ||| name == "trailer"@
    ||| name == "transfer-encoding"@
    ||| name == "upgrade"@
    ||| name == "keep-alive"@
    ||| name == "cf-connecting-ip"@
    ||| name == "cf-ipcountry"@
    ||| name == "cf-ray"@
    ||| name == "cf-visitor"@
    ||| name == "cf-worker"@
    ||| name == "cf-ew-via"@
    ||| name == "cdn-loop"@
    ||| name == "x-forwarded-for"@
    ||| name == "x-forwarded-host"@
    ||| name == "x-forwarded-proto"@
    ||| name == "x-real-ip"@
}

/// The names of the response headers that are not sent back.
pub open spec fn is_held_back(name: Seq<char>) -> bool {
    ||| name == "connection"@
    ||| name == "content-length"@
    ||| name == "keep-alive"@
    ||| name == "proxy-authenticate"@
    ||| name == "proxy-authorization"@
    ||| name == "te"@
    ||| name == "trailer"@
    ||| name == "transfer-encoding"@
    ||| name == "upgrade"@
    ||| name == "server"@
    ||| name == "cf-ray"@
}

/// The word `identity`, byte by byte.
pub open spec fn identity_bytes() -> Seq<u8> {
    seq![105u8, 100u8, 101u8, 110u8, 116u8, 105u8, 116u8, 121u8]
}

/// `after` is what is sent on of `before`: every field but the withheld ones with all its values,
/// and `identity` as the only encoding that is accepted.
pub open spec fn is_sent_on(before: Fields, after: Fields) -> bool {
    &&& after.contains_key("accept-encoding"@)
    &&& after["accept-encoding"@] == seq![identity_bytes()]
    &&& forall|name: Seq<char>|
        name != "accept-encoding"@ ==> {
            &&& #[trigger] after.contains_key(name) <==> before.contains_key(name) && !is_withheld(
                name,
            )
            &&& after.contains_key(name) ==> after[name] == before[name]
        }
}

proof fn lemma_withheld(name: Seq<char>)
    ensures
        stripped_headers().contains(name) <==> is_withheld(name),
        !is_withheld("accept-encoding"@),
{
    let list = stripped_headers();
    if is_withheld(name) {
        assert(list[0] == "host"@ && list[1] == "connection"@ && list[2] == "content-length"@);
        assert(list[3] == "proxy-authenticate"@ && list[4] == "proxy-authorization"@);
        assert(list[5] == "te"@ && list[6] == "trailer"@ && list[7] == "transfer-encoding"@);
        assert(list[8] == "upgrade"@ && list[9] == "keep-alive"@);
        assert(list[10] == "cf-connecting-ip"@ && list[11] == "cf-ipcountry"@);
        assert(list[12] == "cf-ray"@ && list[13] == "cf-visitor"@ && list[14] == "cf-worker"@);
        assert(list[15] == "cf-ew-via"@ && list[16] == "cdn-loop"@);
        assert(list[17] == "x-forwarded-for"@ && list[18] == "x-forwarded-host"@);
        assert(list[19] == "x-forwarded-proto"@ && list[20] == "x-real-ip"@);
        assert(list.contains(name));
    }
    if list.contains(name) {
        let k = choose|k: int| 0 <= k < list.len() && list[k] == name;
        assert(is_withheld(list[k]));
    }
    let own = "accept-encoding"@;
    if is_withheld(own) {
        reveal_strlit("accept-encoding");
        reveal_strlit("host");
        reveal_strlit("connection");
        reveal_strlit("content-length");
        reveal_strlit("proxy-authenticate");
        reveal_strlit("proxy-authorization");
        reveal_strlit("te");
        reveal_strlit("trailer");
        reveal_strlit("transfer-encoding");
        reveal_strlit("upgrade");
        reveal_strlit("keep-alive");
        reveal_strlit("cf-connecting-ip");
        reveal_strlit("cf-ipcountry");
        reveal_strlit("cf-ray");
        reveal_strlit("cf-visitor");
        reveal_strlit("cf-worker");
        reveal_strlit("cf-ew-via");
        reveal_strlit("cdn-loop");
        reveal_strlit("x-forwarded-for");
        reveal_strlit("x-forwarded-host");
        reveal_strlit("x-forwarded-proto");
        reveal_strlit("x-real-ip");
        assert(own.len() == 15 && own[0] == 'a');
    }
}

proof fn lemma_held_back(name: Seq<char>)
    ensures
        skipped_headers().contains(name) <==> is_held_back(name),
{
    let list = skipped_headers();
    if is_held_back(name) {
        assert(list[0] == "connection"@ && list[1] == "content-length"@ && list[2] == "keep-alive"@);
        assert(list[3] == "proxy-authenticate"@ && list[4] == "proxy-authorization"@);
        assert(list[5] == "te"@ && list[6] == "trailer"@ && list[7] == "transfer-encoding"@);
        assert(list[8] == "upgrade"@ && list[9] == "server"@ && list[10] == "cf-ray"@);
        assert(list.contains(name));
    }
    if list.contains(name) {
        let k = choose|k: int| 0 <= k < list.len() && list[k] == name;
        assert(is_held_back(list[k]));
    }
}

proof fn lemma_identity_bytes()
    ensures
        encode_utf8("identity"@) == identity_bytes(),
{
    reveal_strlit("identity");
    is_ascii_chars_encode_utf8("identity"@);
    let bytes = encode_utf8("identity"@);
    assert forall|i: int| 0 <= i < bytes.len() implies #[trigger] bytes[i] == identity_bytes()[i] by {
        assert("identity"@[i] as u8 == bytes[i]);
    }
    assert(bytes =~= identity_bytes());
}

proof fn lemma_sent_on(fields: Fields)
    ensures
        is_sent_on(fields, sanitized(fields)),
{
    lemma_identity_bytes();
    assert forall|name: Seq<char>| name != "accept-encoding"@ implies {
        &&& #[trigger] sanitized(fields).contains_key(name) <==> fields.contains_key(name)
            && !is_withheld(name)
        &&& sanitized(fields).contains_key(name) ==> sanitized(fields)[name] == fields[name]
    } by {
        lemma_withheld(name);
    }
}

/// Every request header is sent on with all its values but for the 21 withheld ones and
/// `accept-encoding`, which becomes `identity`. Where the map is too full for that, the withheld
/// ones are gone all the same; up to 6553 fields it never is.
pub proof fn law_only_withheld_headers_are_dropped(
    headers: &mut HeaderMap,
    done: bool,
    name: Seq<char>,
)
    requires
        call_ensures(sanitize_proxy_request_headers, (headers,), done),
    ensures
        done ==> is_sent_on(header_fields(*old(headers)), header_fields(*final(headers))),
        !done ==> {
            &&& header_fields(*final(headers)).contains_key(name) <==> header_fields(
                *old(headers),
            ).contains_key(name) && !is_withheld(name)
            &&& header_fields(*final(headers)).contains_key(name) ==> header_fields(
                *final(headers),
            )[name] == header_fields(*old(headers))[name]
        },
        header_fields(*old(headers)).dom().finite() && header_fields(*old(headers)).dom().len()
            <= 6553 ==> done,
{
    lemma_sent_on(header_fields(*old(headers)));
    lemma_withheld(name);
}

/// A response header is skipped just where it is one of the eleven that are held back.
pub proof fn law_only_these_headers_are_skipped(name: &str, skip: bool)
    requires
        call_ensures(should_skip_proxy_response_header, (name,), skip),
    ensures
        skip <==> is_held_back(name@),
{
    lemma_held_back(name@);
}

/// A location can be turned: both origins are known, and it reads as the origin of the decoy site
/// followed by `path`.
pub open spec fn leads_to_decoy(
    location: Seq<u8>,
    fake_origin: Option<&str>,
    public_origin: Option<&str>,
    path: Seq<char>,
) -> bool {
    &&& fake_origin is Some
    &&& public_origin is Some
    &&& reads_as(location, fake_origin->0@ + path)
}

/// `sent` is what becomes of a location: one that leads to the decoy site leads to the same path
/// under the public origin, as far as that can stand in a header; any other stays.
pub open spec fn is_turned(
    location: Seq<u8>,
    fake_origin: Option<&str>,
    public_origin: Option<&str>,
    sent: Seq<u8>,
) -> bool {
    &&& forall|path: Seq<char>| #[trigger]
        leads_to_decoy(location, fake_origin, public_origin, path) ==> {
            let turned = encode_utf8(public_origin->0@ + path);
            sent == if is_storable(turned) {
                turned
            } else {
                location
            }
        }
    &&& (forall|path: Seq<char>| !#[trigger]
        leads_to_decoy(location, fake_origin, public_origin, path)) ==> sent == location
}

proof fn lemma_turned(
    location: Seq<u8>,
    fake_origin: Option<&str>,
    public_origin: Option<&str>,
    path: Seq<char>,
)
    ensures
        leads_to_decoy(location, fake_origin, public_origin, path) ==> rewritten_location(
            location,
            text_opt(fake_origin),
            text_opt(public_origin),
        ) == text_value(public_origin->0@ + path),
        (forall|p: Seq<char>| !#[trigger]
            leads_to_decoy(location, fake_origin, public_origin, p)) ==> rewritten_location(
            location,
            text_opt(fake_origin),
            text_opt(public_origin),
        ) is None,
{
    if leads_to_decoy(location, fake_origin, public_origin, path) {
        let fake = fake_origin->0@;
        let text = fake + path;
        law_text_of_a_value(location, text);
        assert(text.subrange(0, fake.len() as int) =~= fake);
        assert(text.skip(fake.len() as int) =~= path);
    }
    let rewritten = rewritten_location(
        location,
        text_opt(fake_origin),
        text_opt(public_origin),
    );
    if rewritten is Some {
        let fake = fake_origin->0@;
        let text = value_text(location)->0;
        let rest = text.skip(fake.len() as int);
        law_text_of_a_value(location, text);
        assert(text =~= fake + rest);
        assert(leads_to_decoy(location, fake_origin, public_origin, rest));
    }
}

proof fn lemma_value_sent_back(
    name: Seq<char>,
    value: Seq<u8>,
    fake_origin: Option<&str>,
    public_origin: Option<&str>,
)
    ensures
        name == "location"@ ==> is_turned(
            value,
            fake_origin,
            public_origin,
            proxied_value(
                name,
                value,
                text_opt(fake_origin),
                text_opt(public_origin),
            ),
        ),
        name != "location"@ ==> proxied_value(
            name,
            value,
            text_opt(fake_origin),
            text_opt(public_origin),
        ) == value,
{
    if name == "location"@ {
        assert forall|path: Seq<char>| #[trigger]
            leads_to_decoy(value, fake_origin, public_origin, path) implies proxied_value(
            name,
            value,
            text_opt(fake_origin),
            text_opt(public_origin),
        ) == if is_storable(encode_utf8(public_origin->0@ + path)) {
            encode_utf8(public_origin->0@ + path)
        } else {
            value
        } by {
            lemma_turned(value, fake_origin, public_origin, path);
            law_value_of_a_text(public_origin->0@ + path);
        }
        lemma_turned(value, fake_origin, public_origin, Seq::empty());
    }
}

/// A location that reads as the origin of the decoy site and a path is rewritten to the public
/// origin and that path, if this can stand in a header; no other location is rewritten.
pub proof fn law_rewritten_location(
    value: HeaderValue,
    fake_origin: Option<&str>,
    public_origin: Option<&str>,
    rewritten: Option<HeaderValue>,
    path: Seq<char>,
)
    requires
        call_ensures(rewrite_location_header, (&value, fake_origin, public_origin), rewritten),
    ensures
        leads_to_decoy(header_bytes(value), fake_origin, public_origin, path) ==> {
            let turned = encode_utf8(public_origin->0@ + path);
            if is_storable(turned) {
                rewritten matches Some(v) && header_bytes(v) == turned
            } else {
                rewritten is None
            }
        },
        (forall|p: Seq<char>| !#[trigger]
            leads_to_decoy(header_bytes(value), fake_origin, public_origin, p)) ==> rewritten is None,
{
    lemma_turned(header_bytes(value), fake_origin, public_origin, path);
    if leads_to_decoy(header_bytes(value), fake_origin, public_origin, path) {
        law_value_of_a_text(public_origin->0@ + path);
    }
}

/// `after` is what is sent back of `before`: every field but those that are held back, with as many
/// values in the same order; locations are turned, every other value stays.
pub open spec fn is_sent_back(
    before: Fields,
    fake_origin: Option<&str>,
    public_origin: Option<&str>,
    after: Fields,
) -> bool {
    forall|name: Seq<char>|
        {
            &&& #[trigger] after.contains_key(name) <==> before.contains_key(name)
                && !is_held_back(name)
            &&& after.contains_key(name) ==> {
                &&& after[name].len() == before[name].len()
                &&& name != "location"@ ==> after[name] == before[name]
                &&& name == "location"@ ==> forall|k: int|
                    0 <= k < before[name].len() ==> is_turned(
                        before[name][k],
                        fake_origin,
                        public_origin,
                        #[trigger] after[name][k],
                    )
            }
        }
}

/// Every field that is sent back has a token for its name, and there are 6553 fields at most.
pub open spec fn is_sendable(fields: Fields) -> bool {
    &&& fields.dom().finite()
    &&& fields.dom().len() <= 6553
    &&& has_token_names(fields)
}

/// Every field that is sent back has a token for its name.
pub open spec fn has_token_names(fields: Fields) -> bool {
    forall|name: Seq<char>| #[trigger]
        fields.contains_key(name) && !is_held_back(name) ==> is_token(name)
}

proof fn lemma_sent_back(
    fields: Fields,
    fake_origin: Option<&str>,
    public_origin: Option<&str>,
)
    ensures
        is_sent_back(
            fields,
            fake_origin,
            public_origin,
            proxied(
                fields,
                text_opt(fake_origin),
                text_opt(public_origin),
            ),
        ),
{
    let fake = text_opt(fake_origin);
    let public = text_opt(public_origin);
    let after = proxied(fields, fake, public);
    assert forall|name: Seq<char>|
        {
            &&& #[trigger] after.contains_key(name) <==> fields.contains_key(name)
                && !is_held_back(name)
            &&& after.contains_key(name) ==> {
                &&& after[name].len() == fields[name].len()
                &&& name != "location"@ ==> after[name] == fields[name]
                &&& name == "location"@ ==> forall|k: int|
                    0 <= k < fields[name].len() ==> is_turned(
                        fields[name][k],
                        fake_origin,
                        public_origin,
                        #[trigger] after[name][k],
                    )
            }
        } by {
        lemma_held_back(name);
        if after.contains_key(name) {
            assert forall|k: int| 0 <= k < fields[name].len() implies (name == "location"@
                ==> is_turned(
                fields[name][k],
                fake_origin,
                public_origin,
                #[trigger] after[name][k],
            )) && (name != "location"@ ==> after[name][k] == fields[name][k]) by {
                lemma_value_sent_back(name, fields[name][k], fake_origin, public_origin);
            }
            if name != "location"@ {
                assert(after[name] =~= fields[name]);
            }
        }
    }
}

proof fn lemma_token_names(fields: Fields)
    ensures
        has_plain_names(fields) <==> has_token_names(fields),
        can_send(fields) <==> is_sendable(fields),
{
    assert forall|name: Seq<char>| #[trigger] fields.contains_key(name) implies (
    skipped_headers().contains(name) <==> is_held_back(name)) && (is_header_name(name) <==> is_token(
        name,
    )) by {
        lemma_held_back(name);
        law_header_names_are_tokens(name);
    }
}

/// The decoy site's headers are sent back but for the eleven that are held back; redirects to the
/// decoy site lead to the public origin. That succeeds wherever the names are tokens and not too
/// many, and never where one of them is no token.
pub proof fn law_headers_sent_back(
    upstream: HeaderMap,
    fake_origin: Option<&str>,
    public_origin: Option<&str>,
    headers: Option<HeaderMap>,
)
    requires
        call_ensures(proxy_response_headers, (&upstream, fake_origin, public_origin), headers),
    ensures
        headers matches Some(h) ==> is_sent_back(
            header_fields(upstream),
            fake_origin,
            public_origin,
            header_fields(h),
        ),
        headers is Some ==> has_token_names(header_fields(upstream)),
        is_sendable(header_fields(upstream)) ==> headers is Some,
{
    lemma_sent_back(header_fields(upstream), fake_origin, public_origin);
    lemma_token_names(header_fields(upstream));
}

/// A redirect to a path under the decoy site's origin is sent back, at the same place, as a
/// redirect to that path under the public origin.
pub proof fn law_redirects_are_turned(
    upstream: HeaderMap,
    fake_origin: &str,
    public_origin: &str,
    headers: HeaderMap,
    path: Seq<char>,
    k: int,
)
    requires
        call_ensures(
            proxy_response_headers,
            (&upstream, Some(fake_origin), Some(public_origin)),
            Some(headers),
        ),
        is_header_text(public_origin@),
        header_fields(upstream).contains_key("location"@),
        0 <= k < header_fields(upstream)["location"@].len(),
        reads_as(header_fields(upstream)["location"@][k], fake_origin@ + path),
    ensures
        header_fields(headers).contains_key("location"@),
        k < header_fields(headers)["location"@].len(),
        reads_as(header_fields(headers)["location"@][k], public_origin@ + path),
{
    let fields = header_fields(upstream);
    let location = fields["location"@][k];
    law_headers_sent_back(upstream, Some(fake_origin), Some(public_origin), Some(headers));
    lemma_location_is_not_held_back();
    assert(header_fields(headers).contains_key("location"@));
    law_text_of_a_value(location, fake_origin@ + path);
    law_redirect_is_moved(location, path, fake_origin@, public_origin@);
    lemma_turned(location, Some(fake_origin), Some(public_origin), path);
    assert(leads_to_decoy(location, Some(fake_origin), Some(public_origin), path));
    law_value_of_a_text(public_origin@ + path);
    let sent = header_fields(headers)["location"@][k];
    assert(is_turned(location, Some(fake_origin), Some(public_origin), sent));
    law_text_of_a_value(sent, public_origin@ + path);
}

proof fn lemma_location_is_not_held_back()
    ensures
        !is_held_back("location"@),
{
    reveal_strlit("location");
    reveal_strlit("connection");
    reveal_strlit("content-length");
    reveal_strlit("keep-alive");
    reveal_strlit("proxy-authenticate");
    reveal_strlit("proxy-authorization");
    reveal_strlit("te");
    reveal_strlit("trailer");
    reveal_strlit("transfer-encoding");
    reveal_strlit("upgrade");
    reveal_strlit("server");
    reveal_strlit("cf-ray");
    assert("location"@.len() == 8);
}

/// What the decoy site answers is passed back under its status, as far as it can be; without an
/// answer the service pretends to be the site itself.
pub proof fn law_answers_are_passed_back(
    upstream: Option<(u16, &HeaderMap)>,
    path: &str,
    fake_origin: Option<&str>,
    public_origin: Option<&str>,
    answer: ProxyAnswer,
)
    requires
        call_ensures(answer_proxied, (upstream, path, fake_origin, public_origin), answer),
    ensures
        match (upstream, answer) {
            (None, ProxyAnswer::Local(reply)) => is_pretended_reply(reply, path@),
            (Some((sent_status, sent)), ProxyAnswer::Upstream { status, headers }) => {
                &&& status == sent_status
                &&& has_token_names(header_fields(*sent))
                &&& is_sent_back(
                    header_fields(*sent),
                    fake_origin,
                    public_origin,
                    header_fields(headers),
                )
            },
            (Some((_, sent)), ProxyAnswer::Overfull) => !is_sendable(header_fields(*sent)),
            _ => false,
        },
{
    match upstream {
        Some((_, sent)) => {
            lemma_sent_back(header_fields(*sent), fake_origin, public_origin);
            lemma_token_names(header_fields(*sent));
        },
        None => {
            if let ProxyAnswer::Local(reply) = answer {
                lemma_pretended_reply(reply, path@);
            }
        },
    }
}

/// The host that a request names: what `x-forwarded-host` reads as, where there is one, and else
/// what `host` reads as. No other field counts.
pub open spec fn is_named_host(fields: Fields, host: Option<Seq<char>>) -> bool {
    if fields.contains_key("x-forwarded-host"@) {
        is_reading(fields["x-forwarded-host"@][0], host)
    } else if fields.contains_key("host"@) {
        is_reading(fields["host"@][0], host)
    } else {
        host is None
    }
}

/// `text` is what `bytes` read as, or nothing if they cannot be read.
pub open spec fn is_reading(bytes: Seq<u8>, text: Option<Seq<char>>) -> bool {
    match text {
        Some(t) => reads_as(bytes, t),
        None => !is_readable(bytes),
    }
}

proof fn lemma_named_host(fields: Fields)
    ensures
        is_named_host(fields, request_host(fields)),
{
    let text = match request_host(fields) {
        Some(t) => t,
        None => Seq::empty(),
    };
    law_text_of_a_field(fields, "x-forwarded-host"@, text);
    law_text_of_a_field(fields, "host"@, text);
}

proof fn lemma_named_host_is_one(fields: Fields, host: Option<Seq<char>>)
    requires
        is_named_host(fields, host),
    ensures
        host == request_host(fields),
{
    lemma_named_host(fields);
    let own = request_host(fields);
    if let (Some(a), Some(b)) = (host, own) {
        assert(a.len() == b.len());
        assert forall|i: int| 0 <= i < a.len() implies a[i] == b[i] by {
            assert(a[i] as int == b[i] as int);
        }
        assert(a =~= b);
    }
}

/// The host of a request is the one that it names.
pub proof fn law_host_of_a_request(headers: HeaderMap, host: Option<&str>)
    requires
        call_ensures(current_host, (&headers,), host),
    ensures
        is_named_host(
            header_fields(headers),
            match host {
                Some(h) => Some(h@),
                None => None,
            },
        ),
{
    lemma_named_host(header_fields(headers));
}

/// A request and a URL have the same host just where the normal forms of both hosts are equal.
pub proof fn law_same_host_is_equal_normal_form(
    current: Option<&str>,
    url: Option<UrlParts>,
    same: bool,
    name: &str,
    normal: String,
    other: &str,
    other_normal: String,
)
    requires
        call_ensures(addresses_host, (current, &url), same),
        call_ensures(normalize_host, (name,), normal),
        call_ensures(normalize_host, (other,), other_normal),
    ensures
        current is None ==> !same,
        url is None ==> !same,
        url matches Some(parts) ==> (parts.host is None ==> !same),
        current matches Some(c) ==> (url matches Some(parts) ==> (parts.host matches Some(h) ==> (
        c@ == name@ && h@ == other@ ==> (same <==> normal@ == other_normal@)))),
{
}

/// A host name without brackets, colons, dots at its end or white space around it.
pub open spec fn is_plain_host(host: Seq<char>) -> bool {
    &&& is_tight(host)
    &&& host.len() > 0 ==> host[host.len() - 1] != '.'
    &&& !host.contains(':')
    &&& !is_bracketed(host)
}

pub(crate) proof fn lemma_plain_host(host: Seq<char>)
    requires
        is_plain_host(host),
    ensures
        normalized_host(host) == ascii_lower(host),
{
    let none = Seq::<char>::empty();
    assert(none + host + none + none =~= host);
    lemma_wrapped(host, none, host, none, none);
    lemma_not_bracketed(host);
    law_repeating_takes_two_places(host, host, host, ':');
    law_until_ends_at_the_first_occurrence(host, ':', host);
}

/// Plain host names are the same just where they differ in the case of letters at most.
pub proof fn law_plain_hosts_are_the_same_up_to_case(
    current: &str,
    url: UrlParts,
    host: String,
    same: bool,
)
    requires
        call_ensures(addresses_host, (Some(current), &Some(url)), same),
        url.host == Some(host),
        is_plain_host(current@),
        is_plain_host(host@),
    ensures
        same <==> ascii_lower(current@) == ascii_lower(host@),
{
    lemma_plain_host(current@);
    lemma_plain_host(host@);
}

/// A request is for the decoy site's own host: the host that it names and that of the site's
/// address have equal normal forms.
pub open spec fn is_for_decoy_host(
    fields: Fields,
    url: Option<(Seq<char>, Option<Seq<char>>, Option<u16>)>,
) -> bool {
    exists|host: Seq<char>, site_host: Seq<char>|
        {
            &&& #[trigger] is_named_host(fields, Some(host))
            &&& url matches Some(parts) && parts.1 == Some(site_host)
            &&& #[trigger] normalized_host(site_host) == normalized_host(host)
        }
}

proof fn lemma_for_decoy_host(
    fields: Fields,
    url: Option<(Seq<char>, Option<Seq<char>>, Option<u16>)>,
)
    ensures
        is_same_host(request_host(fields), url) <==> is_for_decoy_host(fields, url),
{
    lemma_named_host(fields);
    if is_same_host(request_host(fields), url) {
        let host = request_host(fields)->0;
        let parts = url->0;
        let site_host = parts.1->0;
        assert(is_named_host(fields, Some(host)));
        assert(normalized_host(site_host) == normalized_host(host));
    }
    if is_for_decoy_host(fields, url) {
        let (host, site_host) = choose|host: Seq<char>, site_host: Seq<char>|
            {
                &&& #[trigger] is_named_host(fields, Some(host))
                &&& url matches Some(parts) && parts.1 == Some(site_host)
                &&& #[trigger] normalized_host(site_host) == normalized_host(host)
            };
        lemma_named_host_is_one(fields, Some(host));
    }
}

/// What the normal form of a host is, is what `normalize_host` returns.
pub proof fn law_normal_form_is_what_is_returned(host: &str, normal: String)
    requires
        call_ensures(normalize_host, (host,), normal),
    ensures
        normal@ == normalized_host(host@),
{
}

/// The decoy site is the host of a request just where the request names its host.
pub proof fn law_decoy_site_is_the_host(config: AppConfig, headers: HeaderMap, same: bool)
    requires
        call_ensures(proxy_target_is_current_host, (&config, &headers), same),
    ensures
        same <==> is_for_decoy_host(header_fields(headers), url_parts(config.fake_website@)),
{
    lemma_for_decoy_host(header_fields(headers), url_parts(config.fake_website@));
}

/// The scheme that a list of schemes begins with: `core` is its first entry without white space.
pub open spec fn begins_with_entry(
    list: Seq<char>,
    before: Seq<char>,
    core: Seq<char>,
    after: Seq<char>,
    rest: Seq<char>,
) -> bool {
    &&& is_blank(before)
    &&& is_tight(core)
    &&& is_blank(after)
    &&& !(before + core + after).contains(',')
    &&& list == before + core + after || list == before + core + after + seq![','] + rest
}

proof fn lemma_first_entry(
    list: Seq<char>,
    before: Seq<char>,
    core: Seq<char>,
    after: Seq<char>,
    rest: Seq<char>,
)
    requires
        begins_with_entry(list, before, core, after, rest),
    ensures
        trimmed(until(list, ',')) == core,
{
    law_until_ends_at_the_first_occurrence(before + core + after, ',', rest);
    law_trimming_leaves_the_core(before, core, after);
}

/// The public origin is the host that a request names, under `https`, or under `http` where the
/// first entry of `x-forwarded-proto` is just that. A request that names no host has none.
pub proof fn law_public_origin(
    headers: HeaderMap,
    origin: Option<String>,
    host: Option<&str>,
    list: Seq<char>,
    before: Seq<char>,
    core: Seq<char>,
    after: Seq<char>,
    rest: Seq<char>,
)
    requires
        call_ensures(public_origin_from_headers, (&headers,), origin),
        call_ensures(current_host, (&headers,), host),
    ensures
        host is None <==> origin is None,
        host matches Some(h) ==> {
            let fields = header_fields(headers);
            let told = fields.contains_key("x-forwarded-proto"@);
            let first = fields["x-forwarded-proto"@][0];
            &&& !told || !is_readable(first) ==> origin->0@ == seq![
                'h',
                't',
                't',
                'p',
                's',
                ':',
                '/',
                '/',
            ] + h@
            &&& told && reads_as(first, list) && begins_with_entry(list, before, core, after, rest)
                ==> origin->0@ == (if core == seq!['h', 't', 't', 'p'] {
                seq!['h', 't', 't', 'p', ':', '/', '/']
            } else {
                seq!['h', 't', 't', 'p', 's', ':', '/', '/']
            }) + h@
        },
{
    reveal_strlit("http");
    reveal_strlit("https");
    reveal_strlit("://");
    let fields = header_fields(headers);
    assert("http"@ =~= seq!['h', 't', 't', 'p']);
    assert("http"@ + "://"@ =~= seq!['h', 't', 't', 'p', ':', '/', '/']);
    assert("https"@ + "://"@ =~= seq!['h', 't', 't', 'p', 's', ':', '/', '/']);
    law_text_of_a_field(fields, "x-forwarded-proto"@, list);
    if begins_with_entry(list, before, core, after, rest) {
        lemma_first_entry(list, before, core, after, rest);
    }
}

/// `url` is the place `path_and_query` at a site, slashes at the end of the site's address left out.
pub open spec fn is_place_at(
    url: Seq<char>,
    site: Seq<char>,
    path_and_query: Seq<char>,
) -> bool {
    exists|base: Seq<char>, slashes: Seq<char>|
        {
            &&& site == #[trigger] (base + slashes)
            &&& is_all(slashes, '/')
            &&& base.len() > 0 ==> base[base.len() - 1] != '/'
            &&& url == base + path_and_query
        }
}

proof fn lemma_place(site: Seq<char>, path_and_query: Seq<char>)
    ensures
        is_place_at(trim_end_of(site, '/') + path_and_query, site, path_and_query),
{
    let base = trim_end_of(site, '/');
    lemma_run_at_the_end(site, '/');
    let slashes = site.skip(base.len() as int);
    assert(site =~= base + slashes);
}

proof fn lemma_run_at_the_end(s: Seq<char>, c: char)
    ensures
        trim_end_of(s, c).len() <= s.len(),
        trim_end_of(s, c) == s.take(trim_end_of(s, c).len() as int),
        is_all(s.skip(trim_end_of(s, c).len() as int), c),
        trim_end_of(s, c).len() > 0 ==> trim_end_of(s, c).last() != c,
    decreases s.len(),
{
    if s.len() > 0 && s.last() == c {
        let shorter = s.drop_last();
        lemma_run_at_the_end(shorter, c);
        let n = trim_end_of(s, c).len() as int;
        assert(shorter.take(n) =~= s.take(n));
        assert forall|i: int| 0 <= i < s.skip(n).len() implies #[trigger] s.skip(n)[i] == c by {
            if i < shorter.skip(n).len() {
                assert(shorter.skip(n)[i] == c);
            }
        }
    } else {
        assert(s.take(s.len() as int) =~= s);
    }
}

/// A request is sent to its own path and query at the decoy site.
pub proof fn law_target_is_the_same_place(
    fake_website: &str,
    path_and_query: Option<&str>,
    url: String,
)
    requires
        call_ensures(proxy_target_url, (fake_website, path_and_query), url),
    ensures
        is_place_at(
            url@,
            fake_website@,
            match path_and_query {
                Some(rest) => rest@,
                None => Seq::empty(),
            },
        ),
{
    match path_and_query {
        Some(rest) => lemma_place(fake_website@, rest@),
        None => lemma_place(fake_website@, Seq::empty()),
    }
}

/// `request` is what goes to the decoy site of a request with these fields.
pub open spec fn is_forwarded(
    fake_website: Seq<char>,
    url: Option<(Seq<char>, Option<Seq<char>>, Option<u16>)>,
    headers: HeaderMap,
    path_and_query: Option<&str>,
    body_len: Option<usize>,
    request: ForwardRequest,
) -> bool {
    &&& is_place_at(
        request.target_url@,
        fake_website,
        match path_and_query {
            Some(rest) => rest@,
            None => Seq::empty(),
        },
    )
    &&& is_sent_on(header_fields(headers), header_fields(request.headers))
    &&& match url {
        Some((scheme, Some(host), port)) => request.fake_origin matches Some(o) && is_origin(
            o@,
            scheme,
            host,
            port,
        ),
        _ => request.fake_origin is None,
    }
    &&& forall|origin: Option<String>| #[trigger]
        call_ensures(public_origin_from_headers, (&headers,), origin) ==> match (
            request.public_origin,
            origin,
        ) {
            (Some(a), Some(b)) => a@ == b@,
            (None, None) => true,
            _ => false,
        }
    &&& request.send_body <==> body_len is Some && body_len->0 != 0
}

/// What becomes of a request: one for the decoy site's own host is answered here, and any other is
/// sent on, unless it has more than 6553 header fields and they leave no room.
pub open spec fn is_dealt_with(
    fake_website: Seq<char>,
    url: Option<(Seq<char>, Option<Seq<char>>, Option<u16>)>,
    headers: HeaderMap,
    path: Seq<char>,
    path_and_query: Option<&str>,
    body_len: Option<usize>,
    step: ProxyStep,
) -> bool {
    if is_for_decoy_host(header_fields(headers), url) {
        step matches ProxyStep::Local(reply) && is_pretended_reply(reply, path)
    } else {
        match step {
            ProxyStep::Local(_) => false,
            ProxyStep::Forward(request) => is_forwarded(
                fake_website,
                url,
                headers,
                path_and_query,
                body_len,
                request,
            ),
            ProxyStep::Overfull => !(header_fields(headers).dom().finite() && header_fields(
                headers,
            ).dom().len() <= 6553),
        }
    }
}

proof fn lemma_dealt_with(
    fake_website: Seq<char>,
    url: Option<(Seq<char>, Option<Seq<char>>, Option<u16>)>,
    headers: HeaderMap,
    path: Seq<char>,
    path_and_query: Option<&str>,
    body_len: Option<usize>,
    step: ProxyStep,
)
    requires
        is_proxy_step(
            fake_website,
            url,
            header_fields(headers),
            path,
            text_opt(path_and_query),
            body_len,
            step,
        ),
    ensures
        is_dealt_with(fake_website, url, headers, path, path_and_query, body_len, step),
{
    lemma_for_decoy_host(header_fields(headers), url);
    match step {
        ProxyStep::Local(reply) => {
            lemma_pretended_reply(reply, path);
        },
        ProxyStep::Forward(request) => {
            lemma_sent_on(header_fields(headers));
            match path_and_query {
                Some(rest) => lemma_place(fake_website, rest@),
                None => lemma_place(fake_website, Seq::empty()),
            }
            if let Some((scheme, Some(host), port)) = url {
                lemma_origin(request.fake_origin->0@, scheme, host, port);
            }
        },
        ProxyStep::Overfull => {},
    }
}

/// A request that is none of the service's own is dealt with by the parts of the site's address.
pub proof fn law_requests_are_planned(
    fake_website: &str,
    url: Option<UrlParts>,
    headers: HeaderMap,
    path: &str,
    path_and_query: Option<&str>,
    body_len: Option<usize>,
    step: ProxyStep,
)
    requires
        call_ensures(
            plan_proxy,
            (fake_website, &url, headers, path, path_and_query, body_len),
            step,
        ),
    ensures
        is_dealt_with(
            fake_website@,
            match url {
                Some(parts) => Some(
                    (
                        parts.scheme@,
                        match parts.host {
                            Some(host) => Some(host@),
                            None => None,
                        },
                        parts.port,
                    ),
                ),
                None => None,
            },
            headers,
            path@,
            path_and_query,
            body_len,
            step,
        ),
{
    lemma_dealt_with(
        fake_website@,
        parts_view(url),
        headers,
        path@,
        path_and_query,
        body_len,
        step,
    );
}

/// A request that is none of the service's own is dealt with by the address of the decoy site.
pub proof fn law_requests_are_forwarded(
    config: AppConfig,
    headers: HeaderMap,
    path: &str,
    path_and_query: Option<&str>,
    body_len: Option<usize>,
    step: ProxyStep,
)
    requires
        call_ensures(proxy_to_fake, (&config, headers, path, path_and_query, body_len), step),
    ensures
        is_dealt_with(
            config.fake_website@,
            url_parts(config.fake_website@),
            headers,
            path@,
            path_and_query,
            body_len,
            step,
        ),
{
    lemma_dealt_with(
        config.fake_website@,
        url_parts(config.fake_website@),
        headers,
        path@,
        path_and_query,
        body_len,
        step,
    );
}

/// A request for a plain host other than the decoy site's is never answered here.
pub proof fn law_other_hosts_are_forwarded(
    config: AppConfig,
    headers: HeaderMap,
    path: &str,
    path_and_query: Option<&str>,
    body_len: Option<usize>,
    step: ProxyStep,
    host: Seq<char>,
    site_host: Seq<char>,
)
    requires
        call_ensures(proxy_to_fake, (&config, headers, path, path_and_query, body_len), step),
        is_named_host(header_fields(headers), Some(host)),
        url_parts(config.fake_website@) matches Some(parts) && parts.1 == Some(site_host),
        is_plain_host(host),
        is_plain_host(site_host),
    ensures
        step is Local <==> ascii_lower(host) == ascii_lower(site_host),
{
    law_requests_are_forwarded(config, headers, path, path_and_query, body_len, step);
    lemma_plain_host(host);
    lemma_plain_host(site_host);
    lemma_named_host_is_one(header_fields(headers), Some(host));
    lemma_for_decoy_host(header_fields(headers), url_parts(config.fake_website@));
}

/// Where a client is sent: to the root here, if the decoy site is this machine or the very host
/// that the client came to, and else to the decoy site, with one slash at the end.
pub open spec fn is_way_out(
    target: Seq<char>,
    fake_website: Seq<char>,
    stays: bool,
) -> bool {
    if stays {
        target == seq!['/']
    } else {
        is_place_at(target, fake_website, seq!['/'])
    }
}

proof fn lemma_slash()
    ensures
        "/"@ == seq!['/'],
{
    reveal_strlit("/");
    assert("/"@ =~= seq!['/']);
}

/// A cleared client stays where the decoy site's URL is local or has the client's host, and is sent
/// to the decoy site otherwise.
pub proof fn law_way_out(
    fake_website: &str,
    url: Option<UrlParts>,
    current: Option<&str>,
    target: String,
    local: bool,
    same: bool,
)
    requires
        call_ensures(redirect_for, (fake_website, &url, current), target),
        call_ensures(url_is_local, (&url,), local),
        call_ensures(addresses_host, (current, &url), same),
    ensures
        is_way_out(target@, fake_website@, local || same),
{
    lemma_slash();
    lemma_place(fake_website@, seq!['/']);
}

/// A cleared client stays where the decoy site is this machine or the host that the client named,
/// and is sent to the decoy site otherwise.
pub proof fn law_way_out_of_a_request(config: AppConfig, headers: HeaderMap, target: String)
    requires
        call_ensures(clear_redirect_target, (&config, &headers), target),
    ensures
        ({
            let url = url_parts(config.fake_website@);
            let local = url matches Some(parts) && parts.1 matches Some(host) && is_this_machine(
                normalized_host(host),
            );
            is_way_out(
                target@,
                config.fake_website@,
                local || is_for_decoy_host(header_fields(headers), url),
            )
        }),
{
    lemma_slash();
    lemma_place(config.fake_website@, seq!['/']);
    let url = url_parts(config.fake_website@);
    lemma_for_decoy_host(header_fields(headers), url);
    if let Some((_, Some(host), _)) = url {
        lemma_begins_with_127(normalized_host(host));
    }
}

} // verus!
