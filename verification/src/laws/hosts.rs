//! What the operations on hosts and URLs return, said of the texts that they are given.

use crate::host::{
    fake_origin, fake_website_is_local, host_part, normalize_host, normalized_host, origin_from_url,
    origin_of, url_host, url_is_local, url_parts, UrlParts,
};
use crate::laws::text::{
    is_all, is_blank, is_decimal_of, is_tight, law_decimal_reads_as_the_number,
    law_repeating_takes_two_places, law_trimming_leaves_the_core,
    law_trimming_one_character_leaves_the_core, law_until_ends_at_the_first_occurrence,
};
use crate::text::{ascii_lower, decimal, repeats, until};
use vstd::prelude::*;
use vstd::string::*;

verus! {

/// A text that begins with a bracket which is closed later on.
pub open spec fn is_bracketed(field: Seq<char>) -> bool {
    field.len() > 0 && field[0] == '[' && field.contains(']')
}

/// `text` is `field` with dots at its end, and with white space around all that.
pub open spec fn is_wrapped(
    text: Seq<char>,
    before: Seq<char>,
    field: Seq<char>,
    dots: Seq<char>,
    after: Seq<char>,
) -> bool {
    &&& text == before + field + dots + after
    &&& is_blank(before)
    &&& is_tight(field)
    &&& field.len() > 0 ==> field[field.len() - 1] != '.'
    &&& is_all(dots, '.')
    &&& is_blank(after)
}

pub(crate) proof fn lemma_wrapped(
    text: Seq<char>,
    before: Seq<char>,
    field: Seq<char>,
    dots: Seq<char>,
    after: Seq<char>,
)
    requires
        is_wrapped(text, before, field, dots, after),
    ensures
        normalized_host(text) == ascii_lower(host_part(field)),
{
    let core = field + dots;
    assert(is_tight(core)) by {
        if core.len() > 0 {
            if field.len() > 0 {
                assert(core[0] == field[0]);
            }
            if dots.len() > 0 {
                assert(core[core.len() - 1] == dots[dots.len() - 1]);
            }
        }
    }
    assert(text =~= before + core + after);
    law_trimming_leaves_the_core(before, core, after);
    law_trimming_one_character_leaves_the_core(field, dots, '.');
}

/// Of a host in brackets what stands in the brackets counts, in lower case, whatever follows them.
pub proof fn law_bracketed_host(
    host: &str,
    normal: String,
    before: Seq<char>,
    addr: Seq<char>,
    tail: Seq<char>,
    dots: Seq<char>,
    after: Seq<char>,
)
    requires
        call_ensures(normalize_host, (host,), normal),
        is_wrapped(host@, before, seq!['['] + addr + seq![']'] + tail, dots, after),
        !addr.contains(']'),
    ensures
        normal@ == ascii_lower(addr),
{
    let field = seq!['['] + addr + seq![']'] + tail;
    lemma_wrapped(host@, before, field, dots, after);
    assert(field.skip(1) =~= addr + seq![']'] + tail);
    assert(field.skip(1)[addr.len() as int] == ']');
    law_until_ends_at_the_first_occurrence(addr, ']', tail);
}

/// A host with two colons outside brackets is an address as a whole; it counts in lower case.
pub proof fn law_host_with_two_colons(
    host: &str,
    normal: String,
    before: Seq<char>,
    a: Seq<char>,
    b: Seq<char>,
    c: Seq<char>,
    dots: Seq<char>,
    after: Seq<char>,
)
    requires
        call_ensures(normalize_host, (host,), normal),
        is_wrapped(host@, before, a + seq![':'] + b + seq![':'] + c, dots, after),
        !is_bracketed(a + seq![':'] + b + seq![':'] + c),
    ensures
        normal@ == ascii_lower(a + seq![':'] + b + seq![':'] + c),
{
    let field = a + seq![':'] + b + seq![':'] + c;
    lemma_wrapped(host@, before, field, dots, after);
    lemma_not_bracketed(field);
    law_repeating_takes_two_places(a, b, c, ':');
}

/// Of a host with one colon what stands before the colon counts, in lower case.
pub proof fn law_host_before_a_port(
    host: &str,
    normal: String,
    before: Seq<char>,
    name: Seq<char>,
    port: Seq<char>,
    dots: Seq<char>,
    after: Seq<char>,
)
    requires
        call_ensures(normalize_host, (host,), normal),
        is_wrapped(host@, before, name + seq![':'] + port, dots, after),
        !is_bracketed(name + seq![':'] + port),
        !name.contains(':'),
        !port.contains(':'),
    ensures
        normal@ == ascii_lower(name),
{
    let field = name + seq![':'] + port;
    lemma_wrapped(host@, before, field, dots, after);
    lemma_not_bracketed(field);
    law_repeating_takes_two_places(name, port, port, ':');
    law_until_ends_at_the_first_occurrence(name, ':', port);
}

/// A host without a colon counts as it is, in lower case.
pub proof fn law_plain_host(
    host: &str,
    normal: String,
    before: Seq<char>,
    name: Seq<char>,
    dots: Seq<char>,
    after: Seq<char>,
)
    requires
        call_ensures(normalize_host, (host,), normal),
        is_wrapped(host@, before, name, dots, after),
        !is_bracketed(name),
        !name.contains(':'),
    ensures
        normal@ == ascii_lower(name),
{
    lemma_wrapped(host@, before, name, dots, after);
    lemma_not_bracketed(name);
    law_repeating_takes_two_places(name, name, name, ':');
    law_until_ends_at_the_first_occurrence(name, ':', name);
}

pub(crate) proof fn lemma_not_bracketed(field: Seq<char>)
    requires
        !is_bracketed(field),
    ensures
        host_part(field) == (if repeats(field, ':') {
            field
        } else {
            until(field, ':')
        }),
{
    if field.len() > 0 && field[0] == '[' && field.skip(1).contains(']') {
        let i = choose|i: int| 0 <= i < field.skip(1).len() && field.skip(1)[i] == ']';
        assert(field[i + 1] == ']');
    }
}

/// The host of a URL is the host that it names, normalized like any other.
pub proof fn law_host_of_a_url(parts: Option<UrlParts>, got: Option<String>, name: &str, normal: String)
    requires
        call_ensures(url_host, (&parts,), got),
        call_ensures(normalize_host, (name,), normal),
    ensures
        parts is None ==> got is None,
        parts matches Some(url) ==> (url.host is None ==> got is None),
        parts matches Some(url) ==> (url.host matches Some(host) ==> (host@ == name@ ==> (
        got matches Some(h) && h@ == normal@))),
{
}

/// A text begins with `127.`, character by character.
pub open spec fn begins_with_127(s: Seq<char>) -> bool {
    s.len() >= 4 && s[0] == '1' && s[1] == '2' && s[2] == '7' && s[3] == '.'
}

/// A normalized host is this machine's: `localhost`, `::1`, or an address that begins with `127.`.
pub open spec fn is_this_machine(normal: Seq<char>) -> bool {
    ||| normal == "localhost"@
    ||| normal == "::1"@
    ||| begins_with_127(normal)
}

pub(crate) proof fn lemma_begins_with_127(s: Seq<char>)
    ensures
        "127."@.is_prefix_of(s) <==> begins_with_127(s),
{
    reveal_strlit("127.");
    if begins_with_127(s) {
        assert("127."@ =~= s.subrange(0, 4));
    }
    if "127."@.is_prefix_of(s) {
        assert(s.subrange(0, 4)[0] == '1');
        assert(s.subrange(0, 4)[1] == '2');
        assert(s.subrange(0, 4)[2] == '7');
        assert(s.subrange(0, 4)[3] == '.');
    }
}

/// A URL is local just where the host that it names is this machine's.
pub proof fn law_local_urls(parts: Option<UrlParts>, local: bool, name: &str, normal: String)
    requires
        call_ensures(url_is_local, (&parts,), local),
        call_ensures(normalize_host, (name,), normal),
    ensures
        parts is None ==> !local,
        parts matches Some(url) ==> (url.host is None ==> !local),
        parts matches Some(url) ==> (url.host matches Some(host) ==> (host@ == name@ ==> (local
            <==> is_this_machine(normal@)))),
{
    lemma_begins_with_127(normal@);
}

/// The decoy site is local just where its address is a URL whose host is this machine's.
pub proof fn law_local_decoy_sites(fake_website: &str, local: bool, name: &str, normal: String)
    requires
        call_ensures(fake_website_is_local, (fake_website,), local),
        call_ensures(normalize_host, (name,), normal),
    ensures
        match url_parts(fake_website@) {
            Some((_, Some(host), _)) => host == name@ ==> (local <==> is_this_machine(normal@)),
            _ => !local,
        },
{
    lemma_begins_with_127(normal@);
}

/// `origin` is what the parts of a URL make: scheme, host and, where one is given, the port. A host
/// that holds a colon stands in brackets.
pub open spec fn is_origin(
    origin: Seq<char>,
    scheme: Seq<char>,
    host: Seq<char>,
    port: Option<u16>,
) -> bool {
    let front = if host.contains(':') {
        scheme + seq![':', '/', '/', '['] + host + seq![']']
    } else {
        scheme + seq![':', '/', '/'] + host
    };
    match port {
        Some(n) => exists|digits: Seq<char>| #[trigger]
            is_decimal_of(digits, n as int) && origin == front + seq![':'] + digits,
        None => origin == front,
    }
}

pub(crate) proof fn lemma_origin(
    origin: Seq<char>,
    scheme: Seq<char>,
    host: Seq<char>,
    port: Option<u16>,
)
    requires
        origin_of((scheme, Some(host), port)) == Some(origin),
    ensures
        is_origin(origin, scheme, host, port),
{
    reveal_strlit("://");
    reveal_strlit("[");
    reveal_strlit("]");
    reveal_strlit(":");
    let front = if host.contains(':') {
        scheme + seq![':', '/', '/', '['] + host + seq![']']
    } else {
        scheme + seq![':', '/', '/'] + host
    };
    match port {
        Some(n) => {
            law_decimal_reads_as_the_number(n as nat);
            assert(origin =~= front + seq![':'] + decimal(n as nat));
        },
        None => {
            assert(origin =~= front);
        },
    }
}

/// The origin of a URL is made of its scheme, its host and its port; a URL without a host has none.
pub proof fn law_origin_of_a_url(url: UrlParts, origin: Option<String>)
    requires
        call_ensures(origin_from_url, (&url,), origin),
    ensures
        match url.host {
            Some(host) => origin matches Some(o) && is_origin(o@, url.scheme@, host@, url.port),
            None => origin is None,
        },
{
    if let Some(host) = url.host {
        lemma_origin(origin->0@, url.scheme@, host@, url.port);
    }
}

/// The origin of the decoy site is that of its address, if the address is a URL with a host.
pub proof fn law_origin_of_the_decoy_site(fake_website: &str, origin: Option<String>)
    requires
        call_ensures(fake_origin, (fake_website,), origin),
    ensures
        match url_parts(fake_website@) {
            Some((scheme, Some(host), port)) => origin matches Some(o) && is_origin(
                o@,
                scheme,
                host,
                port,
            ),
            _ => origin is None,
        },
{
    if let Some((scheme, Some(host), port)) = url_parts(fake_website@) {
        lemma_origin(origin->0@, scheme, host, port);
    }
}

} // verus!
