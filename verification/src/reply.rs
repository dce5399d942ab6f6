//! The answers that the service gives of its own.

use crate::html::{report_ip_html, report_page, WELCOME_PAGE};
use crate::text::{joined, same_text};
use vstd::prelude::*;
use vstd::string::*;

verus! {

/// An answer to a request.
pub struct Reply {
    pub status: u16,
    pub headers: Vec<(String, String)>,
    pub body: String,
}

/// What an answer consists of.
pub struct ReplyModel {
    pub status: u16,
    pub headers: Seq<(Seq<char>, Seq<char>)>,
    pub body: Seq<char>,
}

impl View for Reply {
    type V = ReplyModel;

    open spec fn view(&self) -> ReplyModel {
        ReplyModel {
            status: self.status,
            headers: self.headers@.map_values(|pair: (String, String)| (pair.0@, pair.1@)),
            body: self.body@,
        }
    }
}

/// An answer that is a status and nothing else.
pub open spec fn status_reply(status: u16) -> ReplyModel {
    ReplyModel { status, headers: Seq::empty(), body: Seq::empty() }
}

/// The answer of the site that the service pretends to be: a front page, and nothing else.
pub open spec fn local_reply(path: Seq<char>) -> ReplyModel {
    if path == "/"@ {
        ReplyModel {
            status: 200,
            headers: seq![("content-type"@, "text/html; charset=utf-8"@)],
            body: WELCOME_PAGE@,
        }
    } else {
        status_reply(404)
    }
}

/// The answer that tells clients their address, as a page or as plain text.
pub open spec fn address_reply(client_ip: Seq<char>, html: bool) -> ReplyModel {
    ReplyModel {
        status: 200,
        headers: seq![
            (
                "content-type"@,
                if html {
                    "text/html; charset=utf-8"@
                } else {
                    "text/plain; charset=utf-8"@
                },
            ),
            ("cache-control"@, "no-store"@),
        ],
        body: if html {
            report_page(client_ip)
        } else {
            client_ip + "\n"@
        },
    }
}

/// An answer that is a status and nothing else.
pub fn status_only(status: u16) -> (reply: Reply)
    ensures
        reply@ == status_reply(status),
{
    let reply = Reply { status, headers: Vec::new(), body: String::new() };
    assert(reply@.headers =~= Seq::empty());
    reply
}

/// The answer of the site that the service pretends to be.
pub fn local_fake_response(path: &str) -> (reply: Reply)
    ensures
        reply@ == local_reply(path@),
{
    if same_text(path, "/") {
        let mut headers: Vec<(String, String)> = Vec::new();
        headers.push(("content-type".to_owned(), "text/html; charset=utf-8".to_owned()));
        let reply = Reply { status: 200, headers, body: WELCOME_PAGE.to_owned() };
        assert(reply@.headers =~= local_reply(path@).headers);
        return reply;
    }
    status_only(404)
}

/// The answer that tells clients their address.
pub fn report_address(client_ip: &str, html: bool) -> (reply: Reply)
    ensures
        reply@ == address_reply(client_ip@, html),
{
    let content_type: &str = if html {
        "text/html; charset=utf-8"
    } else {
        "text/plain; charset=utf-8"
    };
    let body: String = if html {
        report_ip_html(client_ip)
    } else {
        joined(client_ip, "\n")
    };
    let mut headers: Vec<(String, String)> = Vec::new();
    headers.push(("content-type".to_owned(), content_type.to_owned()));
    headers.push(("cache-control".to_owned(), "no-store".to_owned()));
    let reply = Reply { status: 200, headers, body };
    assert(reply@.headers =~= address_reply(client_ip@, html).headers);
    reply
}

} // verus!
