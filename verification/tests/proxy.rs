use axum::http::{HeaderMap, HeaderName, HeaderValue};
use ip_registry::config::AppConfig;
use ip_registry::host::UrlParts;
use ip_registry::proxy::{
    addresses_host, answer_proxied, clear_redirect_target, current_host, plan_proxy, proxy_response_headers,
    proxy_target_is_current_host, proxy_target_url, proxy_to_fake, public_origin_from_headers,
    redirect_for, rewrite_location_header, sanitize_proxy_request_headers,
    should_skip_proxy_response_header, ForwardRequest, ProxyAnswer,
    ProxyStep,
};

fn config(fake_website: &str) -> AppConfig {
    AppConfig {
        secret_key: "key".to_string(),
        clear_secret_key: "clear".to_string(),
        fake_website: fake_website.to_string(),
        json_path: "rules.json".to_string(),
        listen_address: "127.0.0.1:1".to_string(),
        expiration_hours: 1,
    }
}

fn headers(list: &[(&str, &str)]) -> HeaderMap {
    let mut map = HeaderMap::new();
    for (name, value) in list {
        map.append(
            HeaderName::from_bytes(name.as_bytes()).unwrap(),
            HeaderValue::from_str(value).unwrap(),
        );
    }
    map
}

fn values(map: &HeaderMap, name: &str) -> Vec<String> {
    map.get_all(name)
        .iter()
        .map(|value| value.to_str().unwrap().to_string())
        .collect()
}

fn forwarded(step: ProxyStep) -> ForwardRequest {
    match step {
        ProxyStep::Forward(request) => request,
        ProxyStep::Local(_) => panic!("answered here"),
        ProxyStep::Overfull => panic!("overfull"),
    }
}

#[test]
fn telling_headers_are_not_sent_on() {
    let stripped = [
        "host",
        "connection",
        "content-length",
        "proxy-authenticate",
        "proxy-authorization",
        "te",
        "trailer",
        "transfer-encoding",
        "upgrade",
        "keep-alive",
        "cf-connecting-ip",
        "cf-ipcountry",
        "cf-ray",
        "cf-visitor",
        "cf-worker",
        "cf-ew-via",
        "cdn-loop",
        "x-forwarded-for",
        "x-forwarded-host",
        "x-forwarded-proto",
        "x-real-ip",
    ];
    let mut map = headers(&[("user-agent", "ua"), ("cookie", "a"), ("cookie", "b")]);
    for name in stripped {
        map.append(HeaderName::from_static(name), HeaderValue::from_static("1"));
        map.append(HeaderName::from_static(name), HeaderValue::from_static("2"));
    }
    map.append("accept-encoding", HeaderValue::from_static("gzip"));
    map.append("accept-encoding", HeaderValue::from_static("br"));
    assert!(sanitize_proxy_request_headers(&mut map));
    for name in stripped {
        assert!(!map.contains_key(name), "{}", name);
    }
    assert_eq!(values(&map, "accept-encoding"), vec!["identity"]);
    assert_eq!(values(&map, "user-agent"), vec!["ua"]);
    assert_eq!(values(&map, "cookie"), vec!["a", "b"]);
    assert_eq!(map.keys_len(), 3);
}

#[test]
fn sanitizing_twice_changes_nothing() {
    let mut once = headers(&[("host", "h"), ("a", "1")]);
    assert!(sanitize_proxy_request_headers(&mut once));
    let mut twice = once.clone();
    assert!(sanitize_proxy_request_headers(&mut twice));
    assert_eq!(once, twice);
}

#[test]
fn identity_is_asked_for_even_without_headers() {
    let mut map = HeaderMap::new();
    assert!(sanitize_proxy_request_headers(&mut map));
    assert_eq!(values(&map, "accept-encoding"), vec!["identity"]);
    assert_eq!(map.len(), 1);
}

#[test]
fn many_headers_leave_room() {
    let mut map = HeaderMap::new();
    for i in 0..6500u32 {
        let name = HeaderName::from_bytes(format!("x-{}", i).as_bytes()).unwrap();
        map.append(name, HeaderValue::from_static("v"));
    }
    assert!(sanitize_proxy_request_headers(&mut map));
    assert_eq!(map.keys_len(), 6501);
    let sent = proxy_response_headers(&map, None, None).unwrap();
    assert_eq!(sent.keys_len(), 6501);
}

#[test]
fn full_map_is_reported() {
    let mut map = HeaderMap::new();
    for i in 0..30000u32 {
        let name = HeaderName::from_bytes(format!("x-{}", i).as_bytes()).unwrap();
        if map.try_append(name, HeaderValue::from_static("v")).is_err() {
            break;
        }
    }
    let before = map.keys_len();
    assert!(!sanitize_proxy_request_headers(&mut map));
    assert_eq!(map.keys_len(), before);
    assert!(!map.contains_key("accept-encoding"));
}

#[test]
fn connection_headers_are_skipped_in_answers() {
    for name in [
        "connection",
        "content-length",
        "keep-alive",
        "proxy-authenticate",
        "proxy-authorization",
        "te",
        "trailer",
        "transfer-encoding",
        "upgrade",
        "server",
        "cf-ray",
    ] {
        assert!(should_skip_proxy_response_header(name));
    }
    for name in ["location", "content-type", "set-cookie", "Server", "", "date"] {
        assert!(!should_skip_proxy_response_header(name));
    }
}

#[test]
fn host_of_a_request() {
    assert_eq!(current_host(&headers(&[("host", "a")])), Some("a"));
    assert_eq!(
        current_host(&headers(&[("host", "a"), ("x-forwarded-host", "b")])),
        Some("b")
    );
    assert_eq!(current_host(&headers(&[("x-forwarded-host", "b"), ("x-forwarded-host", "c")])), Some("b"));
    assert_eq!(current_host(&HeaderMap::new()), None);
}

#[test]
fn unreadable_forwarded_host_hides_the_host() {
    let mut map = headers(&[("host", "a")]);
    map.insert("x-forwarded-host", HeaderValue::from_bytes(b"\xff").unwrap());
    assert_eq!(current_host(&map), None);
    assert_eq!(public_origin_from_headers(&map), None);
    assert!(!proxy_target_is_current_host(&config("http://a"), &map));
}

#[test]
fn own_host_is_recognized() {
    let map = headers(&[("host", "EXAMPLE.com:8080")]);
    assert!(proxy_target_is_current_host(&config("https://example.com/x"), &map));
    assert!(!proxy_target_is_current_host(&config("https://www.example.com/x"), &map));
    assert!(!proxy_target_is_current_host(&config("nonsense"), &map));
    assert!(!proxy_target_is_current_host(&config("https://example.com"), &HeaderMap::new()));
    let map = headers(&[("host", "[::1]:80")]);
    assert!(proxy_target_is_current_host(&config("http://[::1]:9/"), &map));
}

#[test]
fn hosts_are_compared_in_their_normal_form() {
    let url = Some(UrlParts {
        scheme: "http".to_string(),
        host: Some("A.b.".to_string()),
        port: None,
    });
    assert!(addresses_host(Some("a.B:1"), &url));
    assert!(!addresses_host(Some("a"), &url));
    assert!(!addresses_host(None, &url));
    assert!(!addresses_host(Some("a.b"), &None));
}

#[test]
fn public_origin_follows_the_front_server() {
    let origin = |list: &[(&str, &str)]| public_origin_from_headers(&headers(list));
    assert_eq!(origin(&[("host", "a:1")]), Some("https://a:1".to_string()));
    assert_eq!(
        origin(&[("host", "a"), ("x-forwarded-proto", "http")]),
        Some("http://a".to_string())
    );
    assert_eq!(
        origin(&[("host", "a"), ("x-forwarded-proto", " http , https")]),
        Some("http://a".to_string())
    );
    assert_eq!(
        origin(&[("host", "a"), ("x-forwarded-proto", "ftp,http")]),
        Some("https://a".to_string())
    );
    assert_eq!(
        origin(&[("host", "a"), ("x-forwarded-proto", "HTTP")]),
        Some("https://a".to_string())
    );
    assert_eq!(
        origin(&[("host", "a"), ("x-forwarded-host", "b"), ("x-forwarded-proto", "https")]),
        Some("https://b".to_string())
    );
    assert_eq!(origin(&[("x-forwarded-proto", "http")]), None);
}

fn rewritten(location: &str, fake: Option<&str>, public: Option<&str>) -> Option<String> {
    rewrite_location_header(&HeaderValue::from_str(location).unwrap(), fake, public)
        .map(|value| value.to_str().unwrap().to_string())
}

#[test]
fn redirect_to_the_decoy_site_is_moved() {
    assert_eq!(
        rewritten("https://fake.example/a?b", Some("https://fake.example"), Some("http://me")),
        Some("http://me/a?b".to_string())
    );
    assert_eq!(
        rewritten("https://fake.example", Some("https://fake.example"), Some("http://me")),
        Some("http://me".to_string())
    );
}

#[test]
fn moved_redirect_leads_back() {
    let moved = rewritten("http://f/x", Some("http://f"), Some("https://p")).unwrap();
    assert_eq!(
        rewritten(&moved, Some("https://p"), Some("http://f")),
        Some("http://f/x".to_string())
    );
}

#[test]
fn other_redirects_stay() {
    assert_eq!(rewritten("/local", Some("http://f"), Some("http://p")), None);
    assert_eq!(rewritten("http://g/", Some("http://f"), Some("http://p")), None);
    assert_eq!(rewritten("http://f/", None, Some("http://p")), None);
    assert_eq!(rewritten("http://f/", Some("http://f"), None), None);
    assert_eq!(rewritten("http://f/", Some("http://f"), Some("bad\n")), None);
    let opaque = HeaderValue::from_bytes(b"http://f/\xff").unwrap();
    assert!(rewrite_location_header(&opaque, Some("http://f"), Some("http://p")).is_none());
}

#[test]
fn answer_headers_are_sent_back() {
    let upstream = headers(&[
        ("set-cookie", "a=1"),
        ("content-length", "5"),
        ("location", "http://f/next"),
        ("set-cookie", "b=2"),
        ("server", "nginx"),
        ("x-other", "http://f/kept"),
    ]);
    let sent = proxy_response_headers(&upstream, Some("http://f"), Some("https://p")).unwrap();
    assert_eq!(values(&sent, "set-cookie"), vec!["a=1", "b=2"]);
    assert_eq!(values(&sent, "location"), vec!["https://p/next"]);
    assert_eq!(values(&sent, "x-other"), vec!["http://f/kept"]);
    assert_eq!(sent.len(), 4);
}

#[test]
fn answer_headers_keep_opaque_and_sensitive_values() {
    let mut upstream = HeaderMap::new();
    upstream.insert("location", HeaderValue::from_bytes(b"http://f/\xff").unwrap());
    let mut secret = HeaderValue::from_static("s");
    secret.set_sensitive(true);
    upstream.insert("x-secret", secret);
    let sent = proxy_response_headers(&upstream, Some("http://f"), Some("https://p")).unwrap();
    assert_eq!(sent.get("location").unwrap().as_bytes(), b"http://f/\xff");
    assert!(sent.get("x-secret").unwrap().is_sensitive());
}

#[test]
fn target_is_the_same_place_at_the_decoy_site() {
    assert_eq!(proxy_target_url("https://f.example//", Some("/a?b=c")), "https://f.example/a?b=c");
    assert_eq!(proxy_target_url("https://f.example/base/", Some("/a")), "https://f.example/base/a");
    assert_eq!(proxy_target_url("https://f.example", None), "https://f.example");
    assert_eq!(proxy_target_url("///", None), "");
}

#[test]
fn foreign_request_is_sent_on() {
    let map = headers(&[("host", "me.example"), ("x-forwarded-proto", "http"), ("a", "1")]);
    let request = forwarded(proxy_to_fake(
        &config("https://fake.example:8443/base/"),
        map,
        "/p",
        Some("/p?q"),
        Some(3),
    ));
    assert_eq!(request.target_url, "https://fake.example:8443/base/p?q");
    assert_eq!(request.fake_origin, Some("https://fake.example:8443".to_string()));
    assert_eq!(request.public_origin, Some("http://me.example".to_string()));
    assert!(request.send_body);
    assert_eq!(values(&request.headers, "a"), vec!["1"]);
    assert!(!request.headers.contains_key("host"));
}

#[test]
fn empty_body_is_not_sent() {
    for body_len in [None, Some(0)] {
        let step = proxy_to_fake(&config("https://f"), HeaderMap::new(), "/", Some("/"), body_len);
        assert!(!forwarded(step).send_body);
    }
}

#[test]
fn unparsable_decoy_site_has_no_origin() {
    let step = proxy_to_fake(&config("nonsense/"), headers(&[("host", "h")]), "/", Some("/"), None);
    let request = forwarded(step);
    assert_eq!(request.target_url, "nonsense/");
    assert_eq!(request.fake_origin, None);
}

#[test]
fn request_for_the_decoy_host_itself_is_answered_here() {
    let map = headers(&[("host", "fake.example:80")]);
    match proxy_to_fake(&config("https://FAKE.example"), map, "/", Some("/"), None) {
        ProxyStep::Local(reply) => {
            assert_eq!(reply.status, 200);
            assert!(reply.body.contains("Welcome"));
        }
        _ => panic!("sent on"),
    }
    let map = headers(&[("host", "fake.example")]);
    match proxy_to_fake(&config("https://fake.example"), map, "/x", Some("/x"), None) {
        ProxyStep::Local(reply) => assert_eq!(reply.status, 404),
        _ => panic!("sent on"),
    }
}

#[test]
fn plan_depends_on_the_parts_of_the_url() {
    let url = Some(UrlParts {
        scheme: "http".to_string(),
        host: Some("f".to_string()),
        port: Some(81),
    });
    let request =
        forwarded(plan_proxy("any//", &url, headers(&[("host", "g")]), "/", Some("/"), None));
    assert_eq!(request.target_url, "any/");
    assert_eq!(request.fake_origin, Some("http://f:81".to_string()));
    let step = plan_proxy("any", &url, headers(&[("host", "F:9")]), "/", Some("/"), None);
    assert!(matches!(step, ProxyStep::Local(_)));
}

#[test]
fn overfull_headers_are_reported() {
    let mut map = HeaderMap::new();
    for i in 0..30000u32 {
        let name = HeaderName::from_bytes(format!("x-{}", i).as_bytes()).unwrap();
        if map.try_append(name, HeaderValue::from_static("v")).is_err() {
            break;
        }
    }
    let step = proxy_to_fake(&config("https://f"), map, "/", Some("/"), None);
    assert!(matches!(step, ProxyStep::Overfull));
}

#[test]
fn cleared_clients_are_sent_to_the_decoy_site() {
    let map = headers(&[("host", "me")]);
    assert_eq!(clear_redirect_target(&config("https://f.example//"), &map), "https://f.example/");
    assert_eq!(clear_redirect_target(&config("http://localhost:3000"), &map), "/");
    assert_eq!(clear_redirect_target(&config("https://ME:1/x"), &map), "/");
    assert_eq!(clear_redirect_target(&config("nonsense"), &map), "nonsense/");
}

#[test]
fn redirect_depends_on_the_parts_of_the_url() {
    let url = |host: &str| {
        Some(UrlParts {
            scheme: "http".to_string(),
            host: Some(host.to_string()),
            port: None,
        })
    };
    assert_eq!(redirect_for("w/", &url("127.0.0.2"), None), "/");
    assert_eq!(redirect_for("w/", &url("h"), Some("H")), "/");
    assert_eq!(redirect_for("w/", &url("h"), Some("g")), "w/");
    assert_eq!(redirect_for("w", &None, Some("g")), "w/");
}

#[test]
fn answer_of_the_decoy_site_is_passed_back() {
    let upstream = headers(&[("location", "http://f/a"), ("server", "s"), ("etag", "e")]);
    match answer_proxied(Some((302, &upstream)), "/", Some("http://f"), Some("https://p")) {
        ProxyAnswer::Upstream { status, headers } => {
            assert_eq!(status, 302);
            assert_eq!(values(&headers, "location"), vec!["https://p/a"]);
            assert_eq!(values(&headers, "etag"), vec!["e"]);
            assert_eq!(headers.len(), 2);
        }
        _ => panic!("not passed back"),
    }
}

#[test]
fn unreachable_decoy_site_is_replaced() {
    match answer_proxied(None, "/", Some("http://f"), None) {
        ProxyAnswer::Local(reply) => assert_eq!(reply.status, 200),
        _ => panic!("passed back"),
    }
    match answer_proxied(None, "/x", None, None) {
        ProxyAnswer::Local(reply) => assert_eq!(reply.status, 404),
        _ => panic!("passed back"),
    }
}

#[test]
fn name_with_a_double_quote_is_not_sent_back() {
    let mut upstream = headers(&[("etag", "e")]);
    upstream.insert(HeaderName::from_static("x\"y"), HeaderValue::from_static("v"));
    assert!(proxy_response_headers(&upstream, None, None).is_none());
    let answer = answer_proxied(Some((200, &upstream)), "/", None, None);
    assert!(matches!(answer, ProxyAnswer::Overfull));
    upstream.remove(HeaderName::from_static("x\"y"));
    assert_eq!(proxy_response_headers(&upstream, None, None).unwrap().len(), 1);
}

#[test]
fn name_with_a_double_quote_is_sent_on() {
    let quoted = HeaderName::from_static("x\"y");
    let mut map = headers(&[("host", "h")]);
    map.insert(quoted.clone(), HeaderValue::from_static("v"));
    assert!(sanitize_proxy_request_headers(&mut map));
    assert_eq!(map.get(&quoted).unwrap(), "v");
    assert_eq!(map.len(), 2);
}

#[test]
fn long_name_is_sent_back() {
    let long = "x-".repeat(5000);
    let upstream = headers(&[(long.as_str(), "v")]);
    let sent = proxy_response_headers(&upstream, None, None).unwrap();
    assert_eq!(values(&sent, &long), vec!["v"]);
}
