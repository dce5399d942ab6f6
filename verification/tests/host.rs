use ip_registry::host::{
    fake_origin, fake_website_is_local, normalize_host, origin_from_url, url_host, url_is_local,
    UrlParts,
};

fn parts(scheme: &str, host: Option<&str>, port: Option<u16>) -> UrlParts {
    UrlParts {
        scheme: scheme.to_string(),
        host: host.map(|h| h.to_string()),
        port,
    }
}

#[test]
fn host_loses_port_space_and_case() {
    assert_eq!(normalize_host(" Example.COM:8080 "), "example.com");
    assert_eq!(normalize_host("example.com"), "example.com");
    assert_eq!(normalize_host("EXAMPLE.com"), normalize_host("example.COM"));
}

#[test]
fn host_loses_trailing_dots_only_at_the_end() {
    assert_eq!(normalize_host("example.com.."), "example.com");
    assert_eq!(normalize_host("example.com.:80"), "example.com.");
    assert_eq!(normalize_host("..."), "");
}

#[test]
fn bracketed_address_is_what_stands_in_the_brackets() {
    assert_eq!(normalize_host("[2001:DB8::1]:443"), "2001:db8::1");
    assert_eq!(normalize_host("[::1]"), "::1");
    assert_eq!(normalize_host("[]"), "");
}

#[test]
fn unclosed_bracket_is_no_bracket() {
    assert_eq!(normalize_host("[abc:1"), "[abc");
    assert_eq!(normalize_host("[a:b:c"), "[a:b:c");
}

#[test]
fn bare_ipv6_address_keeps_its_colons() {
    assert_eq!(normalize_host("2001:DB8::1"), "2001:db8::1");
    assert_eq!(normalize_host("::1"), "::1");
}

#[test]
fn empty_host_stays_empty() {
    assert_eq!(normalize_host(""), "");
    assert_eq!(normalize_host(" \t "), "");
    assert_eq!(normalize_host(":80"), "");
}

#[test]
fn non_ascii_letters_keep_their_case() {
    assert_eq!(normalize_host("ÄB.example"), "Äb.example");
}

#[test]
fn trimming_agrees_with_unicode_white_space() {
    for code in 0..=0x10ffffu32 {
        if let Some(c) = char::from_u32(code) {
            let field = format!("{}x{}", c, c);
            let normal = normalize_host(&field);
            if c.is_whitespace() {
                assert_eq!(normal, "x", "{:x}", code);
            } else {
                assert_ne!(normal, "x", "{:x}", code);
            }
        }
    }
}

#[test]
fn loopback_names_are_local() {
    assert!(fake_website_is_local("http://localhost:3000/"));
    assert!(fake_website_is_local("http://127.0.0.1"));
    assert!(fake_website_is_local("http://127.9.9.9:80/path"));
    assert!(fake_website_is_local("https://[::1]:8443/"));
    assert!(fake_website_is_local("HTTP://LOCALHOST"));
}

#[test]
fn other_names_are_not_local() {
    assert!(!fake_website_is_local("https://example.com"));
    assert!(!fake_website_is_local("http://128.0.0.1"));
    assert!(!fake_website_is_local("localhost"));
    assert!(!fake_website_is_local("data:text/plain,127.0.0.1"));
    assert!(!fake_website_is_local(""));
}

#[test]
fn parts_decide_what_is_local() {
    assert!(url_is_local(&Some(parts("http", Some("LocalHost"), None))));
    assert!(!url_is_local(&Some(parts("http", Some("127"), None))));
    assert!(!url_is_local(&Some(parts("http", None, None))));
    assert!(!url_is_local(&None));
}

#[test]
fn host_of_a_url_is_normalized() {
    let url = Some(parts("http", Some("[FE80::1]"), Some(1)));
    assert_eq!(url_host(&url), Some("fe80::1".to_string()));
    assert_eq!(url_host(&Some(parts("data", None, None))), None);
    assert_eq!(url_host(&None), None);
}

#[test]
fn origin_holds_scheme_host_and_port() {
    let url = parts("https", Some("example.com"), None);
    assert_eq!(origin_from_url(&url), Some("https://example.com".to_string()));
    let url = parts("http", Some("example.com"), Some(8080));
    assert_eq!(origin_from_url(&url), Some("http://example.com:8080".to_string()));
    let url = parts("http", Some("fe80::1"), Some(0));
    assert_eq!(origin_from_url(&url), Some("http://[fe80::1]:0".to_string()));
    let url = parts("http", Some("h"), Some(65535));
    assert_eq!(origin_from_url(&url), Some("http://h:65535".to_string()));
    assert_eq!(origin_from_url(&parts("data", None, None)), None);
}

#[test]
fn origin_of_a_site() {
    assert_eq!(
        fake_origin("https://User@Example.com:443/a/b?c"),
        Some("https://example.com".to_string())
    );
    assert_eq!(
        fake_origin("http://example.com:8080/"),
        Some("http://example.com:8080".to_string())
    );
    assert_eq!(fake_origin("not a url"), None);
    assert_eq!(fake_origin("mailto:a@b"), None);
}

#[test]
fn origin_of_a_bracketed_host_is_bracketed_once_more() {
    assert_eq!(
        fake_origin("http://[::1]:81/"),
        Some("http://[[::1]]:81".to_string())
    );
}

#[test]
fn port_does_not_change_the_host() {
    for host in ["a", "a.b", "10.0.0.1", "x-y"] {
        assert_eq!(normalize_host(&format!("{}:8443", host)), normalize_host(host));
    }
}
