//! Host names, and what a URL says about its host.

use crate::text::{
    ascii_lower, chars_of, contains_char, decimal, decimal_text, find_from, joined, lower_text,
    repeats, same_text, starts_with, text_of, trim, trim_end_matches, trim_end_of, trimmed, until,
};
use vstd::prelude::*;
use vstd::string::*;

verus! {

/// A host field without the white space around it and the dots at its end.
pub open spec fn host_field(s: Seq<char>) -> Seq<char> {
    trim_end_of(trimmed(s), '.')
}

/// The host that a host field names, port and brackets left aside, before letters are lowered:
/// what stands in brackets, or all of a bare IPv6 address, or what stands before the port.
pub open spec fn host_part(field: Seq<char>) -> Seq<char> {
    if field.len() > 0 && field[0] == '[' && field.skip(1).contains(']') {
        until(field.skip(1), ']')
    } else if repeats(field, ':') {
        field
    } else {
        until(field, ':')
    }
}

/// The form in which hosts are compared.
pub open spec fn normalized_host(s: Seq<char>) -> Seq<char> {
    ascii_lower(host_part(host_field(s)))
}

/// The form of a host field in which hosts are compared.
pub fn normalize_host(host: &str) -> (normal: String)
    ensures
        normal@ == normalized_host(host@),
{
    let host = trim_end_matches(trim(host).as_str(), '.');
    let chars = chars_of(host.as_str());
    let len: usize = chars.len();
    if len > 0 && chars[0] == '[' {
        let close: usize = find_from(&chars, 1, ']');
        proof {
            let rest = chars@.skip(1);
            assert(rest =~= chars@.subrange(1, len as int));
            if close < len {
                assert(rest[close - 1] == ']');
            } else if rest.contains(']') {
                let k = choose|k: int| 0 <= k < rest.len() && rest[k] == ']';
                assert(chars@[k + 1] == ']');
            }
        }
        if close < len {
            return lower_text(text_of(&chars, 1, close).as_str());
        }
    }
    assert(chars@.subrange(0, len as int) =~= chars@);
    let first: usize = find_from(&chars, 0, ':');
    if first < len {
        let second: usize = find_from(&chars, first + 1, ':');
        if second < len {
            assert(chars@[first as int] == ':' && chars@[second as int] == ':');
            return lower_text(host.as_str());
        }
    }
    lower_text(text_of(&chars, 0, first).as_str())
}

/// What the library reads of a URL.
pub struct UrlParts {
    pub scheme: String,
    pub host: Option<String>,
    /// The port, where it is given and is not the usual one of the scheme.
    pub port: Option<u16>,
}

impl View for UrlParts {
    type V = (Seq<char>, Option<Seq<char>>, Option<u16>);

    open spec fn view(&self) -> (Seq<char>, Option<Seq<char>>, Option<u16>) {
        (
            self.scheme@,
            match self.host {
                Some(host) => Some(host@),
                None => None,
            },
            self.port,
        )
    }
}

/// What `reqwest::Url::parse` makes of a text: nothing, or a scheme, a host and a port.
pub uninterp spec fn url_parts(text: Seq<char>) -> Option<
    (Seq<char>, Option<Seq<char>>, Option<u16>),
>;

/// Calls `reqwest::Url::parse` and reads `scheme`, `host_str` and `port` of the URL. All that is
/// claimed is that these depend on the text alone.
#[verifier::external_body]
pub(crate) fn parse_url(text: &str) -> (parts: Option<UrlParts>)
    ensures
        match parts {
            Some(p) => url_parts(text@) == Some(p@),
            None => url_parts(text@) is None,
        },
{
    match reqwest::Url::parse(text) {
        Ok(url) => Some(UrlParts {
            scheme: url.scheme().to_string(),
            host: url.host_str().map(|host| host.to_string()),
            port: url.port(),
        }),
        Err(_) => None,
    }
}

/// The view of a URL that may have failed to parse.
pub open spec fn parts_view(parts: Option<UrlParts>) -> Option<
    (Seq<char>, Option<Seq<char>>, Option<u16>),
> {
    match parts {
        Some(p) => Some(p@),
        None => None,
    }
}

/// The normalized host of a URL, if the URL parsed and names a host.
pub open spec fn host_of(
    parts: Option<(Seq<char>, Option<Seq<char>>, Option<u16>)>,
) -> Option<Seq<char>> {
    match parts {
        Some((_, Some(host), _)) => Some(normalized_host(host)),
        _ => None,
    }
}

/// Whether a normalized host is this machine.
pub open spec fn is_loopback(host: Seq<char>) -> bool {
    host == "localhost"@ || host == "::1"@ || "127."@.is_prefix_of(host)
}

/// Whether a URL names this machine as its host.
pub open spec fn names_loopback(
    parts: Option<(Seq<char>, Option<Seq<char>>, Option<u16>)>,
) -> bool {
    host_of(parts) matches Some(host) && is_loopback(host)
}

/// The host of an origin: one that holds a colon is put in brackets.
pub open spec fn bracketed(host: Seq<char>) -> Seq<char> {
    if host.contains(':') {
        "["@ + host + "]"@
    } else {
        host
    }
}

/// The origin of a URL, if it names a host.
pub open spec fn origin_of(
    parts: (Seq<char>, Option<Seq<char>>, Option<u16>),
) -> Option<Seq<char>> {
    match parts.1 {
        None => None,
        Some(host) => Some(
            parts.0 + "://"@ + bracketed(host) + match parts.2 {
                Some(port) => ":"@ + decimal(port as nat),
                None => Seq::empty(),
            },
        ),
    }
}

/// The normalized host of a URL, if the URL parsed and names a host.
pub fn url_host(parts: &Option<UrlParts>) -> (host: Option<String>)
    ensures
        match host {
            Some(h) => host_of(parts_view(*parts)) == Some(h@),
            None => host_of(parts_view(*parts)) is None,
        },
{
    match parts {
        Some(url) => match &url.host {
            Some(host) => Some(normalize_host(host.as_str())),
            None => None,
        },
        None => None,
    }
}

/// Whether a URL names this machine as its host.
pub fn url_is_local(parts: &Option<UrlParts>) -> (local: bool)
    ensures
        local == names_loopback(parts_view(*parts)),
{
    match url_host(parts) {
        Some(host) => {
            same_text(host.as_str(), "localhost") || same_text(host.as_str(), "::1") || starts_with(
                host.as_str(),
                "127.",
            )
        },
        None => false,
    }
}

/// Whether the decoy site is on this machine.
pub fn fake_website_is_local(fake_website: &str) -> (local: bool)
    ensures
        local == names_loopback(url_parts(fake_website@)),
{
    url_is_local(&parse_url(fake_website))
}

/// The origin of a URL: scheme, host and port.
pub fn origin_from_url(url: &UrlParts) -> (origin: Option<String>)
    ensures
        match origin {
            Some(o) => origin_of(url@) == Some(o@),
            None => origin_of(url@) is None,
        },
{
    match &url.host {
        Some(host) => {
            let mut origin = joined(url.scheme.as_str(), "://");
            if contains_char(host.as_str(), ':') {
                origin.append("[");
                origin.append(host.as_str());
                origin.append("]");
            } else {
                origin.append(host.as_str());
            }
            proof {
                assert(origin@ =~= url.scheme@ + "://"@ + bracketed(host@));
            }
            match url.port {
                Some(port) => {
                    origin.append(":");
                    origin.append(decimal_text(port as u32).as_str());
                    assert(origin@ =~= url.scheme@ + "://"@ + bracketed(host@) + (":"@ + decimal(
                        port as nat,
                    )));
                },
                None => {
                    assert(origin@ =~= url.scheme@ + "://"@ + bracketed(host@) + Seq::empty());
                },
            }
            Some(origin)
        },
        None => None,
    }
}

/// The origin of the decoy site.
pub fn fake_origin(fake_website: &str) -> (origin: Option<String>)
    ensures
        match (origin, url_parts(fake_website@)) {
            (Some(o), Some(parts)) => origin_of(parts) == Some(o@),
            (Some(_), None) => false,
            (None, Some(parts)) => origin_of(parts) is None,
            (None, None) => true,
        },
{
    match parse_url(fake_website) {
        Some(url) => origin_from_url(&url),
        None => None,
    }
}

} // verus!
