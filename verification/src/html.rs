//! The pages that the service answers with.

use crate::text::chars_of;
use vstd::prelude::*;
use vstd::string::*;

verus! {

/// What stands before the address on the page that reports it.
pub const REPORT_PAGE_HEAD: &'static str = r#"<!doctype html>
<html lang="en">
<head>
  <meta charset="utf-8">
  <meta name="viewport" content="width=device-width,initial-scale=1">
  <title>IP Address</title>
  <style>
    html{height:100%}
    body{min-height:100%;margin:0;display:grid;place-items:center;font-family:Arial,Helvetica,sans-serif;background:#f7f8fa;color:#1f2933}
    main{width:min(92vw,760px);padding:32px 20px;text-align:center}
    .label{font-size:18px;font-weight:600;color:#5f6b7a;margin-bottom:14px}
    .ip{font-size:44px;line-height:1.18;font-weight:700;word-break:break-all;overflow-wrap:anywhere}
    @media (max-width:640px){main{width:100%;box-sizing:border-box;padding:28px 18px}.label{font-size:16px}.ip{font-size:30px;line-height:1.25}}
  </style>
</head>
<body>
  <main>
    <div class="label">Your IP</div>
    <div class="ip">"#;

/// What stands after the address on the page that reports it.
pub const REPORT_PAGE_TAIL: &'static str = r#"</div>
  </main>
</body>
</html>"#;

/// The front page that the service shows of its own.
pub const WELCOME_PAGE: &'static str = r#"<!doctype html>
<html lang="en">
<head>
  <meta charset="utf-8">
  <meta name="viewport" content="width=device-width,initial-scale=1">
  <title>Welcome</title>
  <style>
    body{margin:0;font-family:Arial,Helvetica,sans-serif;background:#f7f7f8;color:#222}
    main{min-height:100vh;display:grid;place-items:center}
    section{max-width:560px;padding:40px 24px;text-align:center}
    h1{font-size:32px;font-weight:600;margin:0 0 12px}
    p{font-size:16px;line-height:1.6;margin:0;color:#666}
  </style>
</head>
<body>
  <main>
    <section>
      <h1>Welcome</h1>
      <p>The site is running.</p>
    </section>
  </main>
</body>
</html>"#;

/// What stands for a character in HTML text.
pub open spec fn escaped_char(c: char) -> Seq<char> {
    if c == '&' {
        "&amp;"@
    } else if c == '<' {
        "&lt;"@
    } else if c == '>' {
        "&gt;"@
    } else if c == '"' {
        "&quot;"@
    } else if c == '\'' {
        "&#39;"@
    } else {
        seq![c]
    }
}

/// A text with every character that HTML treats specially replaced.
pub open spec fn escaped(s: Seq<char>) -> Seq<char>
    decreases s.len(),
{
    if s.len() == 0 {
        Seq::empty()
    } else {
        escaped(s.drop_last()) + escaped_char(s.last())
    }
}

/// Makes a text safe to stand in HTML.
pub fn escape_html(value: &str) -> (html: String)
    ensures
        html@ == escaped(value@),
{
    let chars = chars_of(value);
    let mut html = String::new();
    let mut i: usize = 0;
    while i < chars.len()
        invariant
            chars@ == value@,
            i <= chars@.len(),
            html@ == escaped(value@.take(i as int)),
        decreases chars@.len() - i,
    {
        let c: char = chars[i];
        if c == '&' {
            html.append("&amp;");
        } else if c == '<' {
            html.append("&lt;");
        } else if c == '>' {
            html.append("&gt;");
        } else if c == '"' {
            html.append("&quot;");
        } else if c == '\'' {
            html.append("&#39;");
        } else {
            html.push(c);
        }
        proof {
            let longer = value@.take(i + 1);
            assert(longer.drop_last() =~= value@.take(i as int));
            assert(html@ =~= escaped(longer.drop_last()) + escaped_char(longer.last()));
        }
        i = i + 1;
    }
    assert(value@.take(i as int) =~= value@);
    html
}

/// The page that reports an address.
pub open spec fn report_page(client_ip: Seq<char>) -> Seq<char> {
    REPORT_PAGE_HEAD@ + escaped(client_ip) + REPORT_PAGE_TAIL@
}

/// The page that tells clients which address they come from.
pub fn report_ip_html(client_ip: &str) -> (page: String)
    ensures
        page@ == report_page(client_ip@),
{
    let mut page = REPORT_PAGE_HEAD.to_owned();
    page.append(escape_html(client_ip).as_str());
    page.append(REPORT_PAGE_TAIL);
    page
}

} // verus!
