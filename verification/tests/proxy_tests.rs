use gx::git::CommandOutput;
use gx::proxy::{
    gsettings_value, is_manual_mode, mentions_network_failure, networksetup_proxy_from_text,
    extract_proxy_for_protocol, gsettings_get, gsettings_mode_is_manual, is_network_error,
    linux_proxy, macos_proxy, macos_proxy_queries, proxy_env_names, proxy_from_env,
    query_networksetup, windows_system_proxy, ProxyMode, ProxyUrl,
};

fn ok(stdout: &str) -> CommandOutput {
    CommandOutput { success: true, stdout: stdout.as_bytes().to_vec(), stderr: Vec::new() }
}

fn failed() -> CommandOutput {
    CommandOutput { success: false, stdout: b"Enabled: Yes\nServer: h\nPort: 1\n".to_vec(), stderr: Vec::new() }
}

#[test]
fn proxy_mode_words_are_case_insensitive() {
    assert!(matches!(ProxyMode::from_str("auto"), ProxyMode::Auto));
    assert!(matches!(ProxyMode::from_str("AUTO"), ProxyMode::Auto));
    assert!(matches!(ProxyMode::from_str("Off"), ProxyMode::Off));
    assert!(matches!(ProxyMode::from_str("none"), ProxyMode::Off));
    assert!(matches!(ProxyMode::from_str("NO"), ProxyMode::Off));
}

#[test]
fn proxy_mode_other_values_are_urls_as_given() {
    match ProxyMode::from_str("http://Alice@Proxy.Example:8080") {
        ProxyMode::Manual(url) => assert_eq!(url, "http://Alice@Proxy.Example:8080"),
        _ => panic!("expected a manual proxy"),
    }
    match ProxyMode::from_str("") {
        ProxyMode::Manual(url) => assert_eq!(url, ""),
        _ => panic!("expected a manual proxy"),
    }
}

#[test]
fn proxy_url_kind_follows_scheme() {
    let p = ProxyUrl::from_url("socks5://127.0.0.1:1080".to_string());
    assert!(p.is_socks);
    assert_eq!(p.url, "socks5://127.0.0.1:1080");
    assert!(!ProxyUrl::from_url("http://127.0.0.1:7890".to_string()).is_socks);
    assert!(!ProxyUrl::from_url("SOCKS5://x".to_string()).is_socks);
}

#[test]
fn env_names_in_order() {
    assert_eq!(
        proxy_env_names(),
        vec!["HTTPS_PROXY", "https_proxy", "HTTP_PROXY", "http_proxy", "ALL_PROXY", "all_proxy"]
    );
}

#[test]
fn env_proxy_is_first_non_blank_value_trimmed() {
    let values = vec![
        None,
        Some("   ".to_string()),
        Some("  http://a:1  ".to_string()),
        None,
        Some("socks5://b:2".to_string()),
        None,
    ];
    let p = proxy_from_env(&values).unwrap();
    assert_eq!(p.url, "http://a:1");
    assert!(!p.is_socks);
    let values = vec![None, None, None, None, Some("socks5h://c:3".to_string()), None];
    let p = proxy_from_env(&values).unwrap();
    assert!(p.is_socks);
    assert!(proxy_from_env(&vec![None, Some(String::new())]).is_none());
}

#[test]
fn windows_protocol_entries() {
    let server = "http=1.2.3.4:8080;https=5.6.7.8:443";
    assert_eq!(extract_proxy_for_protocol(server, "https"), Some("http://5.6.7.8:443".to_string()));
    assert_eq!(extract_proxy_for_protocol(server, "http"), Some("http://1.2.3.4:8080".to_string()));
    assert_eq!(extract_proxy_for_protocol(server, "ftp"), None);
    assert_eq!(
        extract_proxy_for_protocol(" https = x ; https=socks5://y:1", "https"),
        Some("socks5://y:1".to_string())
    );
    assert_eq!(extract_proxy_for_protocol("https=;https= z:2 ", "https"), Some("http://z:2".to_string()));
}

#[test]
fn windows_proxy_choice() {
    assert!(windows_system_proxy(0, "host:1").is_none());
    assert!(windows_system_proxy(1, "   ").is_none());
    let p = windows_system_proxy(1, " host:3128 ").unwrap();
    assert_eq!(p.url, "http://host:3128");
    let p = windows_system_proxy(1, "http=a:1;https=b:2").unwrap();
    assert_eq!(p.url, "http://b:2");
    let p = windows_system_proxy(1, "ftp=a:1;http=c:3").unwrap();
    assert_eq!(p.url, "http://c:3");
    let p = windows_system_proxy(1, "socks5://s:9").unwrap();
    assert!(p.is_socks);
    assert_eq!(p.url, "socks5://s:9");
}

#[test]
fn networksetup_enabled_proxy() {
    let out = ok("Enabled: Yes\nServer: proxy.example\nPort: 8080\nAuthenticated Proxy Enabled: 0\n");
    assert_eq!(query_networksetup(&out, "https"), Some("https://proxy.example:8080".to_string()));
}

#[test]
fn networksetup_disabled_or_incomplete() {
    assert_eq!(query_networksetup(&ok("Enabled: No\nServer: p\nPort: 1\n"), "http"), None);
    assert_eq!(query_networksetup(&ok("Enabled: Yes\nServer: \nPort: 1\n"), "http"), None);
    assert_eq!(query_networksetup(&ok("Enabled: Yes\nServer: p\nPort: 0\n"), "http"), None);
    assert_eq!(query_networksetup(&failed(), "http"), None);
    assert_eq!(
        query_networksetup(&ok("Enabled: Yes\nServer: p\n"), "socks5"),
        Some("socks5://p:".to_string())
    );
}

#[test]
fn macos_queries_in_order() {
    let q = macos_proxy_queries();
    assert_eq!(q.len(), 12);
    assert_eq!(q[0], ("Wi-Fi".to_string(), "-getsecurewebproxy".to_string(), "https".to_string()));
    assert_eq!(q[1], ("Wi-Fi".to_string(), "-getsocksfirewallproxy".to_string(), "socks5".to_string()));
    assert_eq!(q[5], ("Ethernet".to_string(), "-getwebproxy".to_string(), "http".to_string()));
    assert_eq!(q[11], ("en1".to_string(), "-getwebproxy".to_string(), "http".to_string()));
    assert!(macos_proxy("socks5", "socks5://a:1".to_string()).is_socks);
    assert!(!macos_proxy("https", "https://a:1".to_string()).is_socks);
}

#[test]
fn gsettings_values_lose_quotes() {
    assert_eq!(gsettings_get(&ok("'proxy.local'\n")), Some("proxy.local".to_string()));
    assert_eq!(gsettings_get(&ok("8080\n")), Some("8080".to_string()));
    assert_eq!(gsettings_get(&ok("''\n")), None);
    assert_eq!(gsettings_get(&failed()), None);
    assert!(gsettings_mode_is_manual(&ok("'manual'\n")));
    assert!(!gsettings_mode_is_manual(&ok("'none'\n")));
    assert!(!gsettings_mode_is_manual(&failed()));
}

#[test]
fn gnome_proxy_urls() {
    let p = linux_proxy("h", "1080", true).unwrap();
    assert_eq!(p.url, "socks5://h:1080");
    assert!(p.is_socks);
    let p = linux_proxy("h", "3128", false).unwrap();
    assert_eq!(p.url, "http://h:3128");
    assert!(!p.is_socks);
    assert!(linux_proxy("h", "0", true).is_none());
}

#[test]
fn network_errors_are_recognised() {
    assert!(is_network_error("fatal: unable to access 'https://x/': Could not resolve host: x"));
    assert!(is_network_error("ssh: connect to host: Connection Refused"));
    assert!(is_network_error("GnuTLS recv error"));
    assert!(!is_network_error("error: pathspec 'x' did not match any file(s) known to git"));
    assert!(!is_network_error(""));
}

#[test]
fn readers_of_settings_text() {
    assert!(matches!(ProxyMode::from_forms("Auto", "auto"), ProxyMode::Auto));
    assert!(matches!(ProxyMode::from_forms("NO", "no"), ProxyMode::Off));
    match ProxyMode::from_forms("AUTO", "AUTO") {
        ProxyMode::Manual(url) => assert_eq!(url, "AUTO"),
        _ => panic!("only the lowercase form is compared"),
    }
    assert_eq!(
        networksetup_proxy_from_text("Enabled: Yes\nServer: s\nPort: 9\n", "http"),
        Some("http://s:9".to_string())
    );
    assert_eq!(gsettings_value(" 'h' "), Some("h".to_string()));
    assert!(is_manual_mode(" 'manual'\n"));
    assert!(!is_manual_mode("'auto'"));
    assert!(mentions_network_failure("fatal: could not read from remote: connection refused"));
    assert!(!mentions_network_failure("Connection Refused"));
}

#[test]
fn network_error_survives_surrounding_text_and_case() {
    let s = "could not resolve host";
    assert!(is_network_error(s));
    assert!(is_network_error(&format!("fatal: {} github.com\n", s)));
    assert!(is_network_error(&s.to_uppercase()));
}
