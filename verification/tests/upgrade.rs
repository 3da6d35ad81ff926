use pocket_relay_plugin::upgrade::{upgrade_headers, upgrade_url, LookupData};

fn target(scheme: &str, host: &str, port: u16) -> LookupData {
    LookupData { scheme: scheme.to_string(), host: host.to_string(), port }
}

#[test]
fn upgrade_url_format() {
    let t = target("https", "relay.example.com", 443);
    assert_eq!(upgrade_url(&t), "https://relay.example.com:443/api/server/upgrade");
    let t = target("http", "127.0.0.1", 80);
    assert_eq!(upgrade_url(&t), "http://127.0.0.1:80/api/server/upgrade");
    let t = target("http", "h", 0);
    assert_eq!(upgrade_url(&t), "http://h:0/api/server/upgrade");
    let t = target("http", "h", 65535);
    assert_eq!(upgrade_url(&t), "http://h:65535/api/server/upgrade");
    for port in [1u16, 9, 10, 99, 100, 1000, 10000, 42127] {
        let t = target("http", "h", port);
        assert_eq!(upgrade_url(&t), format!("http://h:{}/api/server/upgrade", port));
    }
}

fn pairs(t: &LookupData) -> Vec<(String, String)> {
    upgrade_headers(t).into_iter().map(|h| (h.name.to_string(), h.value)).collect()
}

#[test]
fn upgrade_headers_valid_target() {
    let t = target("http", "localhost", 42127);
    assert_eq!(
        pairs(&t),
        vec![
            ("connection".to_string(), "Upgrade".to_string()),
            ("upgrade".to_string(), "blaze".to_string()),
            ("X-Pocket-Relay-Scheme".to_string(), "http".to_string()),
            ("X-Pocket-Relay-Port".to_string(), "42127".to_string()),
            ("X-Pocket-Relay-Host".to_string(), "localhost".to_string()),
        ]
    );
}

#[test]
fn upgrade_headers_skip_invalid_values() {
    let t = target("ht\ntp", "bad\u{7f}host", 8);
    assert_eq!(
        pairs(&t),
        vec![
            ("connection".to_string(), "Upgrade".to_string()),
            ("upgrade".to_string(), "blaze".to_string()),
            ("X-Pocket-Relay-Port".to_string(), "8".to_string()),
        ]
    );
}

#[test]
fn header_validity_agrees_with_reqwest() {
    for value in ["plain", "tab\there", "", "caf\u{e9}", "line\nfeed", "del\u{7f}", "nul\0", "x\r"] {
        let t = target(value, value, 1);
        let included = upgrade_headers(&t).iter().any(|h| h.name == "X-Pocket-Relay-Host");
        assert_eq!(included, reqwest::header::HeaderValue::from_str(value).is_ok(), "value {:?}", value);
    }
}
