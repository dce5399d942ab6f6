use axum::http::{HeaderMap, HeaderValue};
use ip_registry::config::AppConfig;
use ip_registry::handlers::{
    clear_ip_handler, clear_ip_sent, clear_lowered, client_wants_html, report_ip_handler,
    report_ip_parsed, report_ip_sent, ClearStep, ClientAddr, ReportStep,
};
use ip_registry::registry::RegistryCmd;

fn config() -> AppConfig {
    AppConfig {
        secret_key: "key".to_string(),
        clear_secret_key: "clear".to_string(),
        fake_website: "https://fake.example/".to_string(),
        json_path: "rules.json".to_string(),
        listen_address: "127.0.0.1:1".to_string(),
        expiration_hours: 12,
    }
}

fn header(name: &'static str, value: &str) -> HeaderMap {
    let mut map = HeaderMap::new();
    map.insert(name, HeaderValue::from_str(value).unwrap());
    map
}

fn address(step: ReportStep) -> String {
    match step {
        ReportStep::ParseAddress(text) => text,
        _ => panic!("no address"),
    }
}

#[test]
fn wrong_secret_is_like_any_other_request() {
    for secret in ["", "Key", "key ", "clear"] {
        let step = report_ip_handler(&config(), secret, &HeaderMap::new());
        assert!(matches!(step, ReportStep::Proxy));
    }
}

#[test]
fn address_comes_from_the_front_server() {
    let step = report_ip_handler(&config(), "key", &header("cf-connecting-ip", "10.1.2.3"));
    assert_eq!(address(step), "10.1.2.3");
    let step = report_ip_handler(&config(), "key", &HeaderMap::new());
    assert_eq!(address(step), "127.0.0.1");
    let mut opaque = HeaderMap::new();
    opaque.insert("cf-connecting-ip", HeaderValue::from_bytes(b"\xff").unwrap());
    assert_eq!(address(report_ip_handler(&config(), "key", &opaque)), "127.0.0.1");
}

#[test]
fn no_address_is_a_bad_request() {
    match report_ip_parsed(&config(), None) {
        ReportStep::Answer(reply) => {
            assert_eq!(reply.status, 400);
            assert_eq!(reply.body, "");
        }
        _ => panic!("accepted"),
    }
}

#[test]
fn one_address_is_registered() {
    let cases = [
        (ClientAddr::V4("10.1.2.3".to_string()), "10.1.2.3/32", "10.1.2.3"),
        (ClientAddr::V6("2001:db8::1".to_string()), "2001:db8::1/128", "2001:db8::1"),
    ];
    for (addr, range, ip) in cases {
        match report_ip_parsed(&config(), Some(addr)) {
            ReportStep::Register { cmd: RegistryCmd::Register(cidr, secs), client_ip } => {
                assert_eq!(cidr, range);
                assert_eq!(secs, 43200);
                assert_eq!(client_ip, ip);
            }
            _ => panic!("not registered"),
        }
    }
}

#[test]
fn longest_lifetime_is_accepted() {
    let mut config = config();
    config.expiration_hours = u64::MAX / 3600;
    match report_ip_parsed(&config, Some(ClientAddr::V4("1.1.1.1".to_string()))) {
        ReportStep::Register { cmd: RegistryCmd::Register(_, secs), .. } => {
            assert_eq!(secs, u64::MAX / 3600 * 3600);
        }
        _ => panic!("not registered"),
    }
}

#[test]
fn registered_client_is_told_its_address() {
    let reply = report_ip_sent(true, &HeaderMap::new(), "10.1.2.3");
    assert_eq!(reply.status, 200);
    assert_eq!(reply.body, "10.1.2.3\n");
    let reply = report_ip_sent(true, &header("accept", "text/html,*/*"), "10.1.2.3");
    assert!(reply.body.contains("<div class=\"ip\">10.1.2.3</div>"));
    assert_eq!(reply.headers[1], ("cache-control".to_string(), "no-store".to_string()));
}

#[test]
fn stopped_registry_is_unavailable() {
    let reply = report_ip_sent(false, &header("accept", "text/html"), "10.1.2.3");
    assert_eq!(reply.status, 503);
    assert_eq!(reply.body, "");
    match clear_ip_sent(&config(), false, &HeaderMap::new()) {
        ClearStep::Answer(reply) => assert_eq!(reply.status, 503),
        _ => panic!("cleared"),
    }
}

#[test]
fn page_is_wanted_where_html_is_accepted() {
    assert!(client_wants_html(&header("accept", "text/html")));
    assert!(client_wants_html(&header("accept", "a/b, text/html;q=0.9, x")));
    assert!(!client_wants_html(&header("accept", "text/htm")));
    assert!(!client_wants_html(&header("accept", "TEXT/HTML")));
    assert!(!client_wants_html(&header("accept", "")));
    assert!(!client_wants_html(&HeaderMap::new()));
}

#[test]
fn wrong_clear_secret_is_like_any_other_request() {
    for secret in ["", "key", "CLEAR"] {
        let step = clear_ip_handler(&config(), secret, "all", &HeaderMap::new());
        assert!(matches!(step, ClearStep::Proxy));
    }
}

#[test]
fn all_is_cleared_whatever_its_case() {
    for target in ["all", "ALL", "aLl"] {
        let step = clear_ip_handler(&config(), "clear", target, &HeaderMap::new());
        assert!(matches!(step, ClearStep::Send(RegistryCmd::ClearAll)));
    }
}

#[test]
fn anything_else_is_only_redirected() {
    for target in ["", "al", "alll", "none", "ÄLL"] {
        match clear_ip_handler(&config(), "clear", target, &HeaderMap::new()) {
            ClearStep::Redirect(place) => assert_eq!(place, "https://fake.example/"),
            _ => panic!("not redirected"),
        }
    }
}

#[test]
fn lowered_target_decides() {
    let step = clear_lowered(&config(), "clear", "all", &None, None);
    assert!(matches!(step, ClearStep::Send(RegistryCmd::ClearAll)));
    match clear_lowered(&config(), "clear", "ALL", &None, None) {
        ClearStep::Redirect(place) => assert_eq!(place, "https://fake.example/"),
        _ => panic!("not redirected"),
    }
    let step = clear_lowered(&config(), "wrong", "all", &None, None);
    assert!(matches!(step, ClearStep::Proxy));
}

#[test]
fn cleared_client_is_redirected() {
    let mut host = header("host", "fake.example");
    match clear_ip_sent(&config(), true, &host) {
        ClearStep::Redirect(place) => assert_eq!(place, "/"),
        _ => panic!("not redirected"),
    }
    host.insert("host", HeaderValue::from_static("other"));
    match clear_ip_sent(&config(), true, &host) {
        ClearStep::Redirect(place) => assert_eq!(place, "https://fake.example/"),
        _ => panic!("not redirected"),
    }
}
