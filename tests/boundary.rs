use drcv::tunnel::{
    classify_failure, find_tunnel_uuid, hash_char, split_lines, tunnel_names, tunnel_uuid_in_listing,
    CommandFailure,
};
use drcv::{
    bytes_to_string, choose_identity, create_tunnel_provider, extract_client_ip, extract_uuid, Args,
    ConfigError, ProxyHeaders, TunnelClient, TunnelError,
};

fn headers(cf: Option<&str>, tc: Option<&str>, xff: Option<&str>, real: Option<&str>) -> ProxyHeaders {
    ProxyHeaders {
        cf_connecting_ip: cf.map(|s| s.to_string()),
        true_client_ip: tc.map(|s| s.to_string()),
        forwarded_for: xff.map(|s| s.to_string()),
        real_ip: real.map(|s| s.to_string()),
    }
}

#[test]
fn untrusted_peer_ignores_headers() {
    let h = headers(Some("1.1.1.1"), None, Some("2.2.2.2"), None);
    assert_eq!(extract_client_ip("203.0.113.7", false, &h), "203.0.113.7");
}

#[test]
fn trusted_peer_uses_header_precedence() {
    let h = headers(Some(" 1.1.1.1 "), Some("3.3.3.3"), Some("2.2.2.2"), Some("4.4.4.4"));
    assert_eq!(extract_client_ip("127.0.0.1", true, &h), "1.1.1.1");
    let h = headers(Some("   "), Some("3.3.3.3"), Some("2.2.2.2"), None);
    assert_eq!(extract_client_ip("127.0.0.1", true, &h), "3.3.3.3");
    let h = headers(None, None, Some(" 5.5.5.5 , 6.6.6.6"), Some("4.4.4.4"));
    assert_eq!(extract_client_ip("127.0.0.1", true, &h), "5.5.5.5");
    let h = headers(None, None, Some(", 6.6.6.6"), Some("4.4.4.4"));
    assert_eq!(extract_client_ip("127.0.0.1", true, &h), "4.4.4.4");
    let h = headers(None, None, None, None);
    assert_eq!(extract_client_ip("::1", true, &h), "::1");
}

#[test]
fn choose_identity_takes_first_non_empty() {
    let c = vec![String::new(), "b".to_string(), "c".to_string()];
    assert_eq!(choose_identity("peer", true, &c), "b");
    assert_eq!(choose_identity("peer", false, &c), "peer");
    assert_eq!(choose_identity("peer", true, &vec![String::new()]), "peer");
}

fn args(max: &str, chunk: &str) -> Args {
    Args {
        max_file_size: max.to_string(),
        chunk_size: chunk.to_string(),
        upload_port: 8080,
        admin_port: 8081,
        upload_dir: "./uploads".to_string(),
        tunnel_domain: "drcv.app".to_string(),
        tunnel_provider: "cloudflare".to_string(),
        verbose: false,
    }
}

#[test]
fn config_reads_byte_sizes() {
    let c = match args("100GiB", "4MiB").to_config() {
        Ok(c) => c,
        Err(_) => panic!("sizes should parse"),
    };
    assert_eq!(c.max_file_size, 107_374_182_400);
    assert_eq!(c.chunk_size, 4_194_304);
    assert_eq!(c.upload_dir, "./uploads");
    assert_eq!(c.upload_port, 8080);
    assert_eq!(c.admin_port, 8081);
    assert_eq!(c.upload_timeout, 300);
    assert_eq!(c.cleanup_interval, 10);
    assert_eq!(c.upload_stale_timeout, 60);
    assert_eq!(c.client_stale_timeout, 120);
    assert_eq!(c.default_page_size, 100);
    let c = match args("1kb", "512").to_config() {
        Ok(c) => c,
        Err(_) => panic!("sizes should parse"),
    };
    assert_eq!(c.max_file_size, 1000);
    assert_eq!(c.chunk_size, 512);
}

#[test]
fn config_refuses_bad_size() {
    match args("lots", "4MiB").to_config() {
        Err(ConfigError::InvalidFileSize(t)) => assert_eq!(t, "lots"),
        Ok(_) => panic!("should be refused"),
    }
    match args("1GiB", "").to_config() {
        Err(ConfigError::InvalidFileSize(t)) => assert_eq!(t, ""),
        Ok(_) => panic!("should be refused"),
    }
    match args("1GiB", "2MiB").config_with_sizes(Some(5), None) {
        Err(ConfigError::InvalidFileSize(t)) => assert_eq!(t, "2MiB"),
        Ok(_) => panic!("should be refused"),
    }
}

#[test]
fn lossy_decoding_replaces_invalid_bytes() {
    assert_eq!(bytes_to_string(&[0x66, 0x6f, 0xff]), "fo\u{FFFD}");
    assert_eq!(bytes_to_string(b"ok"), "ok");
}

#[test]
fn tunnel_client_uses_http_scheme() {
    let c = TunnelClient::new(8080, "wss://tunnel.example.com".to_string());
    assert_eq!(c.tunnel_server, "https://tunnel.example.com");
    assert_eq!(c.local_port, 8080);
    assert!(c.get_external_ip().is_none());
    let c = TunnelClient::new(1, "ws://host:9".to_string());
    assert_eq!(c.tunnel_server, "http://host:9");
    let mut c = TunnelClient::new(1, "https://x".to_string());
    assert_eq!(c.tunnel_server, "https://x");
    c.external_ip = Some("8.8.8.8".to_string());
    assert_eq!(c.get_external_ip().as_deref(), Some("8.8.8.8"));
}

#[test]
fn nat_guess_by_address_range() {
    let c = TunnelClient::new(1, "x".to_string());
    assert!(c.is_likely_behind_nat("8.8.8.8"));
    assert!(!c.is_likely_behind_nat("127.0.0.1"));
    assert!(!c.is_likely_behind_nat("192.168.1.2"));
    assert!(!c.is_likely_behind_nat("10.0.0.1"));
    assert!(!c.is_likely_behind_nat("172.16.0.1"));
}

#[test]
fn uuid_found_in_tunnel_list_line() {
    let line = "6ff42ae2-765d-4adf-8112-31c55c1551ef drcv-abc123 2024-01-01T00:00:00Z";
    assert_eq!(extract_uuid(line).as_deref(), Some("6ff42ae2-765d-4adf-8112-31c55c1551ef"));
    assert_eq!(extract_uuid("ID NAME CREATED"), None);
}

#[test]
fn provider_named_without_case() {
    assert!(create_tunnel_provider("CloudFlare").is_ok());
    match create_tunnel_provider("ngrok") {
        Err(TunnelError::ConfigError(m)) => assert_eq!(m, "Unknown tunnel provider: ngrok"),
        _ => panic!("should be refused"),
    }
}

#[test]
fn cloudflared_failures_classified() {
    assert!(matches!(classify_failure("Error: You are NOT AUTHENTICATED", false), CommandFailure::Unauthenticated));
    assert!(matches!(classify_failure("please run cloudflared Login", true), CommandFailure::Unauthenticated));
    assert!(matches!(classify_failure("record Already Exists", true), CommandFailure::AlreadyRouted));
    assert!(matches!(classify_failure("record already exists", false), CommandFailure::Failed));
    assert!(matches!(classify_failure("boom", true), CommandFailure::Failed));
}

#[test]
fn tunnel_names_and_hash_chars() {
    let (host, name) = tunnel_names("k3x9qa", "drcv.app");
    assert_eq!(host, "k3x9qa.drcv.app");
    assert_eq!(name, "drcv-k3x9qa");
    assert_eq!(hash_char(b'q'), Some('q'));
    assert_eq!(hash_char(b'7'), Some('7'));
    assert_eq!(hash_char(b'Q'), None);
}

#[test]
fn tunnel_error_messages() {
    assert_eq!(TunnelError::NotInstalled("x".to_string()).message(), "Tunnel not installed: x");
    assert_eq!(TunnelError::ConfigError("y".to_string()).message(), "Configuration error: y");
    assert_eq!(TunnelError::NetworkError("z".to_string()).message(), "Network error: z");
    assert_eq!(TunnelError::AuthError("w".to_string()).message(), "Authentication error: w");
}

#[test]
fn tunnel_uuid_found_by_name_in_listing() {
    let listing = "ID                                   NAME        CREATED\r\n\
aaaaaaaa-1111-2222-3333-444444444444 drcv-other  2024-01-01\n\
bbbbbbbb-1111-2222-3333-444444444444 drcv-mine   2024-01-02\n";
    assert_eq!(
        tunnel_uuid_in_listing(listing, "drcv-mine").as_deref(),
        Some("bbbbbbbb-1111-2222-3333-444444444444")
    );
    assert_eq!(tunnel_uuid_in_listing(listing, "drcv-none"), None);
    let lines = vec!["drcv-x no id here".to_string(), "drcv-x cccccccc-1111-2222-3333-444444444444".to_string()];
    assert_eq!(find_tunnel_uuid(&lines, "drcv-x").as_deref(), Some("cccccccc-1111-2222-3333-444444444444"));
}

#[test]
fn lines_split_at_line_feeds() {
    assert_eq!(split_lines("a\r\nb\n\nc\r"), vec!["a", "b", "", "c\r"]);
    assert_eq!(split_lines("x\n"), vec!["x"]);
    assert!(split_lines("").is_empty());
    assert_eq!(split_lines("one"), vec!["one"]);
}

#[test]
fn text_helpers_match_pieces() {
    use_text_helpers();
}

fn use_text_helpers() {
    assert!(drcv::text::text_contains("report.csv", "rt.c"));
    assert!(drcv::text::text_contains("abc", ""));
    assert!(!drcv::text::text_contains("abc", "abcd"));
    assert!(drcv::text::text_starts_with("10.0.0.1", "10."));
    assert!(!drcv::text::text_starts_with("1", "10."));
    assert_eq!(drcv::text::replace_text("ws://a ws://b", "ws://", "http://"), "http://a http://b");
    assert_eq!(drcv::text::replace_text("aaa", "aa", "b"), "ba");
}
