//! What the service answers, said of the status, the headers and the body that are sent.

use crate::config::AppConfig;
use crate::handlers::{
    clear_ip_handler, clear_ip_sent, clear_lowered, client_wants_html, lowercase, report_ip_handler,
    report_ip_parsed, report_ip_sent, ClearStep, ClientAddr, ReportStep,
};
use crate::headers::{field_text, header_fields};
use crate::host::UrlParts;
use crate::html::{escape_html, escaped, report_ip_html};
use crate::laws::fields::{is_readable, law_text_of_a_field, reads_as};
use crate::laws::{law_escaping_goes_part_by_part, lemma_entities};
use crate::laws::text::{law_part_is_surrounded, law_part_occurs_in_what_surrounds_it};
use crate::proxy::{clear_redirect_target, redirect_for};
use crate::registry::RegistryCmd;
use crate::reply::{
    address_reply, local_fake_response, local_reply, report_address, status_only, Reply, ReplyModel,
};
use crate::text::ascii_lower;
use axum::http::HeaderMap;
use vstd::prelude::*;
use vstd::string::*;
use vstd::utf8::*;

verus! {

/// What a reply sends: a status, headers and a body.
pub open spec fn sends(
    reply: Reply,
    status: int,
    headers: Seq<(Seq<char>, Seq<char>)>,
    body: Seq<char>,
) -> bool {
    &&& reply.status == status
    &&& reply.headers@.len() == headers.len()
    &&& forall|i: int|
        0 <= i < headers.len() ==> {
            &&& (#[trigger] reply.headers@[i]).0@ == headers[i].0
            &&& reply.headers@[i].1@ == headers[i].1
        }
    &&& reply.body@ == body
}

/// A reply that is a status and nothing else.
pub open spec fn sends_status_only(reply: Reply, status: int) -> bool {
    sends(reply, status, Seq::empty(), Seq::empty())
}

pub(crate) proof fn lemma_sends(reply: Reply, model: ReplyModel)
    requires
        reply@ == model,
    ensures
        sends(reply, model.status as int, model.headers, model.body),
{
    assert forall|i: int| 0 <= i < model.headers.len() implies {
        &&& (#[trigger] reply.headers@[i]).0@ == model.headers[i].0
        &&& reply.headers@[i].1@ == model.headers[i].1
    } by {
        assert(reply@.headers[i] == (reply.headers@[i].0@, reply.headers@[i].1@));
    }
}

/// A bare status is sent with no header and no body.
pub proof fn law_bare_status(status: u16, reply: Reply)
    requires
        call_ensures(status_only, (status,), reply),
    ensures
        sends_status_only(reply, status as int),
{
    lemma_sends(reply, reply@);
}

/// The reply of the site that the service pretends to be: the front page at the root, and nothing
/// anywhere else.
pub open spec fn is_pretended_reply(reply: Reply, path: Seq<char>) -> bool {
    if path == seq!['/'] {
        sends(
            reply,
            200,
            seq![("content-type"@, "text/html; charset=utf-8"@)],
            r#"<!doctype html>
<html lang="en">
<head>
  <meta charset="utf-8">
  <meta name="viewport" content="width=device-width,initial-scale=1">
  <title>Welcome</title>
  <style>
    body{margin:0;font-family:Arial,Helvetica,sans-serif;background:#f7f7f8;color:#222}
    main{min-height:100vh;display:grid;place-items:center}
    section{max-width:560px;padding:40px 24px;text-align:center}
    h1{font-size:32px;font-weight:600;margin:0 0 12px}
    p{font-size:16px;line-height:1.6;margin:0;color:#666}
  </style>
</head>
<body>
  <main>
    <section>
      <h1>Welcome</h1>
      <p>The site is running.</p>
    </section>
  </main>
</body>
</html>"#@,
        )
    } else {
        sends_status_only(reply, 404)
    }
}

pub(crate) proof fn lemma_pretended_reply(reply: Reply, path: Seq<char>)
    requires
        reply@ == local_reply(path),
    ensures
        is_pretended_reply(reply, path),
{
    reveal_strlit("/");
    assert("/"@ =~= seq!['/']);
    lemma_sends(reply, reply@);
}

/// The site that the service pretends to be has a front page and nothing else.
pub proof fn law_pretended_site(path: &str, reply: Reply)
    requires
        call_ensures(local_fake_response, (path,), reply),
    ensures
        is_pretended_reply(reply, path@),
{
    lemma_pretended_reply(reply, path@);
}

/// What stands for a character in HTML.
pub open spec fn entity(c: char) -> Seq<char> {
    if c as int == 38 {
        seq!['&', 'a', 'm', 'p', ';']
    } else if c as int == 60 {
        seq!['&', 'l', 't', ';']
    } else if c as int == 62 {
        seq!['&', 'g', 't', ';']
    } else if c as int == 34 {
        seq!['&', 'q', 'u', 'o', 't', ';']
    } else if c as int == 39 {
        seq!['&', '#', '3', '9', ';']
    } else {
        seq![c]
    }
}

/// Escaping replaces a character by its entity wherever it stands, and the rest is escaped around
/// it; an empty text stays empty.
pub proof fn law_escaping_replaces_each_character(
    whole: &str,
    html: String,
    front: &str,
    front_html: String,
    back: &str,
    back_html: String,
    c: char,
)
    requires
        call_ensures(escape_html, (whole,), html),
        call_ensures(escape_html, (front,), front_html),
        call_ensures(escape_html, (back,), back_html),
    ensures
        whole@ == front@ + seq![c] + back@ ==> html@ == front_html@ + entity(c) + back_html@,
        whole@.len() == 0 ==> html@.len() == 0,
{
    if whole@ == front@ + seq![c] + back@ {
        law_escaping_goes_part_by_part(front@ + seq![c], back@);
        law_escaping_goes_part_by_part(front@, seq![c]);
        lemma_entities();
        assert(seq![c].drop_last() =~= Seq::empty());
        assert(escaped(seq![c].drop_last()) =~= Seq::empty());
        assert(escaped(seq![c]) =~= entity(c));
    }
}

/// The page that reports an address is one frame around the escaped address.
pub open spec fn is_address_page(page: Seq<char>, html: Seq<char>) -> bool {
    page == r#"<!doctype html>
<html lang="en">
<head>
  <meta charset="utf-8">
  <meta name="viewport" content="width=device-width,initial-scale=1">
  <title>IP Address</title>
  <style>
    html{height:100%}
    body{min-height:100%;margin:0;display:grid;place-items:center;font-family:Arial,Helvetica,sans-serif;background:#f7f8fa;color:#1f2933}
    main{width:min(92vw,760px);padding:32px 20px;text-align:center}
    .label{font-size:18px;font-weight:600;color:#5f6b7a;margin-bottom:14px}
    .ip{font-size:44px;line-height:1.18;font-weight:700;word-break:break-all;overflow-wrap:anywhere}
    @media (max-width:640px){main{width:100%;box-sizing:border-box;padding:28px 18px}.label{font-size:16px}.ip{font-size:30px;line-height:1.25}}
  </style>
</head>
<body>
  <main>
    <div class="label">Your IP</div>
    <div class="ip">"#@ + html + r#"</div>
  </main>
</body>
</html>"#@
}

/// The page that reports an address shows the escaped address in a fixed frame.
pub proof fn law_address_page(client_ip: &str, page: String, html: String)
    requires
        call_ensures(report_ip_html, (client_ip,), page),
        call_ensures(escape_html, (client_ip,), html),
    ensures
        is_address_page(page@, html@),
{
}

/// The reply that tells clients their address: a page, or the address on a line of its own; in
/// either case one that is not to be stored.
pub open spec fn tells_address(
    reply: Reply,
    client_ip: Seq<char>,
    escaped_ip: Seq<char>,
    html: bool,
) -> bool {
    if html {
        &&& sends(
            reply,
            200,
            seq![
                ("content-type"@, "text/html; charset=utf-8"@),
                ("cache-control"@, "no-store"@),
            ],
            reply.body@,
        )
        &&& is_address_page(reply.body@, escaped_ip)
    } else {
        sends(
            reply,
            200,
            seq![
                ("content-type"@, "text/plain; charset=utf-8"@),
                ("cache-control"@, "no-store"@),
            ],
            client_ip + seq!['\n'],
        )
    }
}

proof fn lemma_tells_address(reply: Reply, client_ip: Seq<char>, html: bool)
    requires
        reply@ == address_reply(client_ip, html),
    ensures
        tells_address(reply, client_ip, escaped(client_ip), html),
{
    reveal_strlit("\n");
    assert("\n"@ =~= seq!['\n']);
    lemma_sends(reply, reply@);
}

/// Clients are told their address, as a page or as plain text.
pub proof fn law_address_reply(client_ip: &str, html: bool, reply: Reply, escaped_ip: String)
    requires
        call_ensures(report_address, (client_ip, html), reply),
        call_ensures(escape_html, (client_ip,), escaped_ip),
    ensures
        tells_address(reply, client_ip@, escaped_ip@, html),
{
    lemma_tells_address(reply, client_ip@, html);
}

/// A client that lists `text/html` among what it accepts wants a page.
pub proof fn law_page_is_wanted(
    headers: HeaderMap,
    html: bool,
    a: Seq<char>,
    b: Seq<char>,
)
    requires
        call_ensures(client_wants_html, (&headers,), html),
        header_fields(headers).contains_key("accept"@),
        reads_as(header_fields(headers)["accept"@][0], a + "text/html"@ + b),
    ensures
        html,
{
    law_text_of_a_field(header_fields(headers), "accept"@, a + "text/html"@ + b);
    law_part_occurs_in_what_surrounds_it(a, "text/html"@, b);
}

/// Only a client that lists `text/html` among what it accepts wants a page.
pub proof fn law_page_is_not_forced(headers: HeaderMap, html: bool)
    requires
        call_ensures(client_wants_html, (&headers,), html),
    ensures
        html ==> header_fields(headers).contains_key("accept"@) && exists|
            a: Seq<char>,
            b: Seq<char>,
        |
            reads_as(header_fields(headers)["accept"@][0], #[trigger] (a + "text/html"@ + b)),
{
    if html {
        let fields = header_fields(headers);
        let accept = field_text(fields, "accept"@)->0;
        law_text_of_a_field(fields, "accept"@, accept);
        law_part_is_surrounded(accept, "text/html"@);
        let (a, b) = choose|a: Seq<char>, b: Seq<char>| accept == #[trigger] (a + "text/html"@ + b);
        assert(reads_as(fields["accept"@][0], a + "text/html"@ + b));
    }
}

/// A request to register is taken up just where its secret is the configured one, and then the
/// address is what the first value of `cf-connecting-ip` reads as, whatever other fields there are;
/// where that field is missing or cannot be read, it is that of this machine.
pub proof fn law_claimed_address(
    config: AppConfig,
    secret: &str,
    headers: HeaderMap,
    step: ReportStep,
    text: Seq<char>,
)
    requires
        call_ensures(report_ip_handler, (&config, secret, &headers), step),
    ensures
        secret@ != config.secret_key@ ==> step is Proxy,
        secret@ == config.secret_key@ ==> {
            let fields = header_fields(headers);
            let told = fields.contains_key("cf-connecting-ip"@);
            let first = fields["cf-connecting-ip"@][0];
            &&& step matches ReportStep::ParseAddress(address)
            &&& told && reads_as(first, text) ==> address@ == text
            &&& !told || !is_readable(first) ==> address@ == "127.0.0.1"@
        },
{
    law_text_of_a_field(header_fields(headers), "cf-connecting-ip"@, text);
}

/// Two requests that agree on the secret and on `cf-connecting-ip` are treated alike.
pub proof fn law_other_fields_do_not_claim(
    config: AppConfig,
    secret: &str,
    one: HeaderMap,
    first: ReportStep,
    other: HeaderMap,
    second: ReportStep,
)
    requires
        call_ensures(report_ip_handler, (&config, secret, &one), first),
        call_ensures(report_ip_handler, (&config, secret, &other), second),
        header_fields(one).contains_key("cf-connecting-ip"@) == header_fields(other).contains_key(
            "cf-connecting-ip"@,
        ),
        header_fields(one).contains_key("cf-connecting-ip"@) ==> header_fields(
            one,
        )["cf-connecting-ip"@] == header_fields(other)["cf-connecting-ip"@],
    ensures
        first is Proxy <==> second is Proxy,
        first matches ReportStep::ParseAddress(a) ==> (second matches ReportStep::ParseAddress(b)
            && a@ == b@),
{
}

/// An address is registered alone, for the configured hours in seconds; without an address the
/// request is a bad one.
pub proof fn law_one_address_is_registered(
    config: AppConfig,
    parsed: Option<ClientAddr>,
    step: ReportStep,
)
    requires
        parsed is Some ==> config.expiration_hours * 3600 <= u64::MAX,
        call_ensures(report_ip_parsed, (&config, parsed), step),
    ensures
        parsed is None ==> (step matches ReportStep::Answer(reply) && sends_status_only(reply, 400)),
        parsed matches Some(ClientAddr::V4(text)) ==> {
            &&& step matches ReportStep::Register {
                cmd: RegistryCmd::Register(cidr, secs),
                client_ip,
            }
            &&& cidr@ == text@ + seq!['/', '3', '2']
            &&& secs == config.expiration_hours * 3600
            &&& client_ip@ == text@
        },
        parsed matches Some(ClientAddr::V6(text)) ==> {
            &&& step matches ReportStep::Register {
                cmd: RegistryCmd::Register(cidr, secs),
                client_ip,
            }
            &&& cidr@ == text@ + seq!['/', '1', '2', '8']
            &&& secs == config.expiration_hours * 3600
            &&& client_ip@ == text@
        },
{
    reveal_strlit("/32");
    reveal_strlit("/128");
    assert("/32"@ =~= seq!['/', '3', '2']);
    assert("/128"@ =~= seq!['/', '1', '2', '8']);
    if let ReportStep::Answer(reply) = step {
        lemma_sends(reply, reply@);
    }
}

/// A registered client is told its address in the form that it wants; if the registry could not be
/// told, the service is unavailable.
pub proof fn law_registration_is_answered(
    sent: bool,
    headers: HeaderMap,
    client_ip: &str,
    reply: Reply,
    html: bool,
    escaped_ip: String,
)
    requires
        call_ensures(report_ip_sent, (sent, &headers, client_ip), reply),
        call_ensures(client_wants_html, (&headers,), html),
        call_ensures(escape_html, (client_ip,), escaped_ip),
    ensures
        sent ==> tells_address(reply, client_ip@, escaped_ip@, html),
        !sent ==> sends_status_only(reply, 503),
{
    if sent {
        lemma_tells_address(reply, client_ip@, html);
    } else {
        lemma_sends(reply, reply@);
    }
}

/// A request to clear is taken up just where its secret is the configured one; then `all` clears
/// the whitelist, and anything else only sends the client on.
pub proof fn law_clearing_is_decided(
    config: AppConfig,
    clear_secret: &str,
    lowered: &str,
    url: Option<UrlParts>,
    current_host: Option<&str>,
    step: ClearStep,
    website: &str,
    target: String,
)
    requires
        call_ensures(clear_lowered, (&config, clear_secret, lowered, &url, current_host), step),
        call_ensures(redirect_for, (website, &url, current_host), target),
        website@ == config.fake_website@,
    ensures
        clear_secret@ != config.clear_secret_key@ ==> step is Proxy,
        clear_secret@ == config.clear_secret_key@ && lowered@ == seq!['a', 'l', 'l'] ==> step
            == ClearStep::Send(RegistryCmd::ClearAll),
        clear_secret@ == config.clear_secret_key@ && lowered@ != seq!['a', 'l', 'l'] ==> (
        step matches ClearStep::Redirect(place) && place@ == target@),
{
    reveal_strlit("all");
    assert("all"@ =~= seq!['a', 'l', 'l']);
}

/// A request with the right secret clears the whitelist just where its target is `all` in lower
/// case; any other such request only sends the client on, and a wrong secret does nothing.
pub proof fn law_clearing_takes_the_secret_and_all(
    config: AppConfig,
    clear_secret: &str,
    target: &str,
    headers: HeaderMap,
    step: ClearStep,
    place: String,
)
    requires
        call_ensures(clear_ip_handler, (&config, clear_secret, target, &headers), step),
        call_ensures(clear_redirect_target, (&config, &headers), place),
    ensures
        clear_secret@ != config.clear_secret_key@ ==> step is Proxy,
        clear_secret@ == config.clear_secret_key@ && lowercase(target@) == seq!['a', 'l', 'l']
            ==> step == ClearStep::Send(RegistryCmd::ClearAll),
        clear_secret@ == config.clear_secret_key@ && lowercase(target@) != seq!['a', 'l', 'l']
            ==> (step matches ClearStep::Redirect(to) && to@ == place@),
        clear_secret@ == config.clear_secret_key@ && is_ascii_chars(target@) ==> (step is Send
            <==> ascii_lower(target@) == seq!['a', 'l', 'l']),
{
    reveal_strlit("all");
    assert("all"@ =~= seq!['a', 'l', 'l']);
}

/// Once the whitelist is cleared the client is sent on; if the registry could not be told, the
/// service is unavailable.
pub proof fn law_clearing_is_answered(
    config: AppConfig,
    sent: bool,
    headers: HeaderMap,
    step: ClearStep,
    place: String,
)
    requires
        call_ensures(clear_ip_sent, (&config, sent, &headers), step),
        call_ensures(clear_redirect_target, (&config, &headers), place),
    ensures
        sent ==> (step matches ClearStep::Redirect(to) && to@ == place@),
        !sent ==> (step matches ClearStep::Answer(reply) && sends_status_only(reply, 503)),
{
    if let ClearStep::Answer(reply) = step {
        lemma_sends(reply, reply@);
    }
}

} // verus!
