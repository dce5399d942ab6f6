use ip_registry::html::{escape_html, report_ip_html, REPORT_PAGE_HEAD, REPORT_PAGE_TAIL};
use ip_registry::reply::{local_fake_response, report_address, status_only};

#[test]
fn special_characters_are_escaped() {
    assert_eq!(
        escape_html("<a href=\"x\">'&'</a>"),
        "&lt;a href=&quot;x&quot;&gt;&#39;&amp;&#39;&lt;/a&gt;"
    );
}

#[test]
fn ampersand_is_escaped_once() {
    assert_eq!(escape_html("&lt;"), "&amp;lt;");
    assert_eq!(escape_html("&amp;"), "&amp;amp;");
}

#[test]
fn plain_text_is_not_changed() {
    assert_eq!(escape_html(""), "");
    assert_eq!(escape_html("10.0.0.1 äöü 漢字"), "10.0.0.1 äöü 漢字");
}

#[test]
fn escaping_agrees_with_replacing_one_character_after_another() {
    for text in ["&<>\"'", "a&&b<<", "'&#39;'", "&quot;\"&lt;"] {
        let expected = text
            .replace('&', "&amp;")
            .replace('<', "&lt;")
            .replace('>', "&gt;")
            .replace('"', "&quot;")
            .replace('\'', "&#39;");
        assert_eq!(escape_html(text), expected);
    }
}

#[test]
fn escaping_goes_part_by_part() {
    let whole = escape_html("a<b&c");
    assert_eq!(whole, format!("{}{}", escape_html("a<"), escape_html("b&c")));
}

#[test]
fn page_shows_the_address() {
    let page = report_ip_html("2001:db8::1");
    assert!(page.starts_with("<!doctype html>\n<html lang=\"en\">"));
    assert!(page.contains("    <div class=\"ip\">2001:db8::1</div>\n"));
    assert!(page.contains("<title>IP Address</title>"));
    assert!(page.ends_with("</body>\n</html>"));
    assert!(!page.contains("__CLIENT_IP__"));
}

#[test]
fn page_escapes_the_address() {
    let page = report_ip_html("<script>");
    assert_eq!(page, format!("{}&lt;script&gt;{}", REPORT_PAGE_HEAD, REPORT_PAGE_TAIL));
}

#[test]
fn front_page_is_served_at_the_root_only() {
    let reply = local_fake_response("/");
    assert_eq!(reply.status, 200);
    assert_eq!(
        reply.headers,
        vec![("content-type".to_string(), "text/html; charset=utf-8".to_string())]
    );
    assert!(reply.body.contains("<p>The site is running.</p>"));
    assert!(reply.body.starts_with("<!doctype html>"));
    for path in ["", "/x", "//", "/index.html"] {
        let reply = local_fake_response(path);
        assert_eq!(reply.status, 404);
        assert!(reply.headers.is_empty());
        assert_eq!(reply.body, "");
    }
}

#[test]
fn address_is_reported_as_text_or_page() {
    let text = report_address("10.0.0.1", false);
    assert_eq!(text.status, 200);
    assert_eq!(text.body, "10.0.0.1\n");
    assert_eq!(
        text.headers,
        vec![
            ("content-type".to_string(), "text/plain; charset=utf-8".to_string()),
            ("cache-control".to_string(), "no-store".to_string()),
        ]
    );
    let page = report_address("10.0.0.1", true);
    assert_eq!(page.body, report_ip_html("10.0.0.1"));
    assert_eq!(page.headers[0].1, "text/html; charset=utf-8");
}

#[test]
fn bare_status_has_nothing_else() {
    let reply = status_only(418);
    assert_eq!(reply.status, 418);
    assert!(reply.headers.is_empty());
    assert!(reply.body.is_empty());
}
