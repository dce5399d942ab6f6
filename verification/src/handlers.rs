//! The two requests that the service answers itself: registering an address and clearing the
//! whitelist.

use crate::config::AppConfig;
use crate::headers::{field_text, header_fields, header_text, is_header_name, Fields};
use crate::host::{parse_url, parts_view, url_parts, UrlParts};
use crate::proxy::{
    clear_redirect_target, current_host, redirect_for, redirect_target, request_host, text_opt,
};
use crate::registry::RegistryCmd;
use crate::reply::{address_reply, report_address, status_only, status_reply, Reply};
use crate::text::{ascii_lower, contains, has_part, joined, same_text};
use axum::http::HeaderMap;
use vstd::prelude::*;
use vstd::string::*;
use vstd::utf8::*;

verus! {

/// The address of a client, in its standard form.
pub enum ClientAddr {
    V4(String),
    V6(String),
}

impl View for ClientAddr {
    type V = Seq<char>;

    open spec fn view(&self) -> Seq<char> {
        match self {
            ClientAddr::V4(text) => text@,
            ClientAddr::V6(text) => text@,
        }
    }
}

/// The address range that holds one client only.
pub open spec fn single_address_range(addr: ClientAddr) -> Seq<char> {
    match addr {
        ClientAddr::V4(text) => text@ + "/32"@,
        ClientAddr::V6(text) => text@ + "/128"@,
    }
}

/// What to do next about a request to register an address.
pub enum ReportStep {
    /// Treat the request like any other.
    Proxy,
    /// Parse a text as an IP address, and go on with [`report_ip_parsed`].
    ParseAddress(String),
    /// Give an answer.
    Answer(Reply),
    /// Send a command to the registry, and go on with [`report_ip_sent`].
    Register { cmd: RegistryCmd, client_ip: String },
}

/// What to do next about a request to clear the whitelist.
pub enum ClearStep {
    /// Treat the request like any other.
    Proxy,
    /// Send a command to the registry, and go on with [`clear_ip_sent`].
    Send(RegistryCmd),
    /// Give an answer.
    Answer(Reply),
    /// Redirect the client for now.
    Redirect(String),
}

/// The address that a request is said to come from.
pub open spec fn claimed_address(fields: Fields) -> Seq<char> {
    match field_text(fields, "cf-connecting-ip"@) {
        Some(text) => text,
        None => "127.0.0.1"@,
    }
}

/// Whether a client asks for a page rather than for plain text.
pub open spec fn wants_html(fields: Fields) -> bool {
    field_text(fields, "accept"@) matches Some(accept) && has_part(accept, "text/html"@)
}

/// Whether a client asks for a page rather than for plain text.
pub fn client_wants_html(headers: &HeaderMap) -> (html: bool)
    ensures
        html == wants_html(header_fields(*headers)),
{
    proof {
        reveal_strlit("accept");
        assert(is_header_name("accept"@));
    }
    match header_text(headers, "accept") {
        Some(accept) => contains(accept, "text/html"),
        None => false,
    }
}

/// Begins to answer a request to register an address.
pub fn report_ip_handler(config: &AppConfig, secret: &str, headers: &HeaderMap) -> (step: ReportStep)
    ensures
        if secret@ == config.secret_key@ {
            step matches ReportStep::ParseAddress(text) && text@ == claimed_address(
                header_fields(*headers),
            )
        } else {
            step == ReportStep::Proxy
        },
{
    if !same_text(secret, config.secret_key.as_str()) {
        return ReportStep::Proxy;
    }
    proof {
        reveal_strlit("cf-connecting-ip");
        assert(is_header_name("cf-connecting-ip"@));
    }
    match header_text(headers, "cf-connecting-ip") {
        Some(text) => ReportStep::ParseAddress(text.to_owned()),
        None => ReportStep::ParseAddress("127.0.0.1".to_owned()),
    }
}

/// Goes on once the address was parsed, or turned out to be none.
pub fn report_ip_parsed(config: &AppConfig, parsed: Option<ClientAddr>) -> (step: ReportStep)
    requires
        parsed is Some ==> config.expiration_hours * 3600 <= u64::MAX,
    ensures
        match parsed {
            None => step matches ReportStep::Answer(reply) && reply@ == status_reply(400),
            Some(addr) => {
                &&& step matches ReportStep::Register {
                    cmd: RegistryCmd::Register(cidr, duration_secs),
                    client_ip,
                }
                &&& cidr@ == single_address_range(addr)
                &&& duration_secs == config.expiration_hours * 3600
                &&& client_ip@ == addr@
            },
        },
{
    let (client_ip, suffix): (String, &str) = match parsed {
        None => {
            return ReportStep::Answer(status_only(400));
        },
        Some(ClientAddr::V4(text)) => (text, "/32"),
        Some(ClientAddr::V6(text)) => (text, "/128"),
    };
    let cidr = joined(client_ip.as_str(), suffix);
    let duration_secs: u64 = config.expiration_hours * 3600;
    ReportStep::Register { cmd: RegistryCmd::Register(cidr, duration_secs), client_ip }
}

/// Answers once the command was sent, or could not be sent.
pub fn report_ip_sent(sent: bool, headers: &HeaderMap, client_ip: &str) -> (reply: Reply)
    ensures
        reply@ == if sent {
            address_reply(client_ip@, wants_html(header_fields(*headers)))
        } else {
            status_reply(503)
        },
{
    if !sent {
        return status_only(503);
    }
    report_address(client_ip, client_wants_html(headers))
}

/// What `str::to_lowercase` makes of a text.
pub uninterp spec fn lowercase(text: Seq<char>) -> Seq<char>;

/// Calls `str::to_lowercase`, which depends on the text alone and on an ASCII text lowers the
/// ASCII letters.
#[verifier::external_body]
fn to_lowercase(text: &str) -> (lower: String)
    ensures
        lower@ == lowercase(text@),
        is_ascii_chars(text@) ==> lower@ == ascii_lower(text@),
{
    text.to_lowercase()
}

/// What to do about a request to clear the whitelist, where `lowered` is what it is to clear in
/// lower case.
pub open spec fn is_clear_step(
    config: AppConfig,
    clear_secret: Seq<char>,
    lowered: Seq<char>,
    redirect: Seq<char>,
    step: ClearStep,
) -> bool {
    if clear_secret != config.clear_secret_key@ {
        step == ClearStep::Proxy
    } else if lowered == "all"@ {
        step == ClearStep::Send(RegistryCmd::ClearAll)
    } else {
        step matches ClearStep::Redirect(target) && target@ == redirect
    }
}

/// Begins to answer a request to clear the whitelist, given what it is to clear in lower case and
/// what the address of the decoy site says.
pub fn clear_lowered(
    config: &AppConfig,
    clear_secret: &str,
    lowered: &str,
    url: &Option<UrlParts>,
    current_host: Option<&str>,
) -> (step: ClearStep)
    ensures
        is_clear_step(
            *config,
            clear_secret@,
            lowered@,
            redirect_target(config.fake_website@, parts_view(*url), text_opt(current_host)),
            step,
        ),
{
    if !same_text(clear_secret, config.clear_secret_key.as_str()) {
        return ClearStep::Proxy;
    }
    if same_text(lowered, "all") {
        return ClearStep::Send(RegistryCmd::ClearAll);
    }
    ClearStep::Redirect(redirect_for(config.fake_website.as_str(), url, current_host))
}

/// Begins to answer a request to clear the whitelist.
pub fn clear_ip_handler(
    config: &AppConfig,
    clear_secret: &str,
    target: &str,
    headers: &HeaderMap,
) -> (step: ClearStep)
    ensures
        is_clear_step(
            *config,
            clear_secret@,
            lowercase(target@),
            redirect_target(
                config.fake_website@,
                url_parts(config.fake_website@),
                request_host(header_fields(*headers)),
            ),
            step,
        ),
        clear_secret@ == config.clear_secret_key@ && is_ascii_chars(target@) ==> (step
            is Send <==> ascii_lower(target@) == "all"@),
{
    let lowered = to_lowercase(target);
    let url = parse_url(config.fake_website.as_str());
    clear_lowered(config, clear_secret, lowered.as_str(), &url, current_host(headers))
}

/// Answers once the command was sent, or could not be sent.
pub fn clear_ip_sent(config: &AppConfig, sent: bool, headers: &HeaderMap) -> (step: ClearStep)
    ensures
        if sent {
            step matches ClearStep::Redirect(target) && target@ == redirect_target(
                config.fake_website@,
                url_parts(config.fake_website@),
                request_host(header_fields(*headers)),
            )
        } else {
            step matches ClearStep::Answer(reply) && reply@ == status_reply(503)
        },
{
    if sent {
        ClearStep::Redirect(clear_redirect_target(config, headers))
    } else {
        ClearStep::Answer(status_only(503))
    }
}

} // verus!
