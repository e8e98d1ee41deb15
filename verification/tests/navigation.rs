use dark_horse::browser_app::BrowserApp;

fn normalize(s: &str) -> Result<String, String> {
    BrowserApp::normalize_address(s)
}

#[test]
fn normalize_address_defaults_bare_domains_to_https() {
    assert_eq!(
        BrowserApp::normalize_address("example.com"),
        Ok("https://example.com".to_owned())
    );
}

#[test]
fn normalize_address_rejects_non_http_schemes() {
    assert!(BrowserApp::normalize_address("ftp://example.com").is_err());
}

#[test]
fn empty_address_is_refused() {
    assert_eq!(normalize("   "), Err("Enter an HTTP or HTTPS address first.".to_owned()));
    assert_eq!(normalize(""), Err("Enter an HTTP or HTTPS address first.".to_owned()));
}

#[test]
fn other_schemes_are_refused_with_message() {
    assert_eq!(
        normalize("ftp://example.com"),
        Err("Only HTTP and HTTPS addresses are supported.".to_owned())
    );
    assert_eq!(
        normalize("file:///etc/passwd"),
        Err("Only HTTP and HTTPS addresses are supported.".to_owned())
    );
}

#[test]
fn explicit_http_and_https_are_kept_as_typed() {
    assert_eq!(normalize("  http://example.com/a "), Ok("http://example.com/a".to_owned()));
    assert_eq!(normalize("HTTPS://Example.com"), Ok("HTTPS://Example.com".to_owned()));
    assert_eq!(normalize("https://x y"), Ok("https://x y".to_owned()));
}

#[test]
fn loopback_addresses_default_to_http() {
    assert_eq!(normalize("localhost:8765"), Ok("http://localhost:8765".to_owned()));
    assert_eq!(normalize("LocalHost"), Ok("http://LocalHost".to_owned()));
    assert_eq!(normalize("127.0.0.1"), Ok("http://127.0.0.1".to_owned()));
    assert_eq!(normalize("127.1.2.3:80/x"), Ok("http://127.1.2.3:80/x".to_owned()));
    assert_eq!(normalize("[::1]:8080"), Ok("http://[::1]:8080".to_owned()));
    assert_eq!(normalize("[0:0:0:0:0:0:0:1]"), Ok("http://[0:0:0:0:0:0:0:1]".to_owned()));
    assert_eq!(normalize("[::0.0.0.1]"), Ok("http://[::0.0.0.1]".to_owned()));
}

#[test]
fn public_addresses_default_to_https() {
    assert_eq!(normalize("10.0.0.1"), Ok("https://10.0.0.1".to_owned()));
    assert_eq!(normalize("[2001:db8::1]"), Ok("https://[2001:db8::1]".to_owned()));
    assert_eq!(normalize("[::ffff:1.2.3.4]:443"), Ok("https://[::ffff:1.2.3.4]:443".to_owned()));
    assert_eq!(normalize("docs.rs/wry?x#y"), Ok("https://docs.rs/wry?x#y".to_owned()));
    assert_eq!(normalize("sub-domain.example.org:8080"), Ok("https://sub-domain.example.org:8080".to_owned()));
    assert_eq!(normalize("bücher.de"), Ok("https://bücher.de".to_owned()));
}

#[test]
fn other_text_is_searched() {
    assert_eq!(normalize("rust lang"), Ok("https://duckduckgo.com/?q=rust+lang".to_owned()));
    assert_eq!(normalize("hello"), Ok("https://duckduckgo.com/?q=hello".to_owned()));
    assert_eq!(normalize("a&b=c"), Ok("https://duckduckgo.com/?q=a%26b%3Dc".to_owned()));
    assert_eq!(normalize("-bad.com"), Ok("https://duckduckgo.com/?q=-bad.com".to_owned()));
    assert_eq!(normalize("user@example.com"), Ok("https://duckduckgo.com/?q=user%40example.com".to_owned()));
    assert_eq!(normalize("a..b"), Ok("https://duckduckgo.com/?q=a..b".to_owned()));
    assert_eq!(normalize("[::1"), Ok("https://duckduckgo.com/?q=%5B%3A%3A1".to_owned()));
    assert_eq!(normalize("[1:2:3]"), Ok("https://duckduckgo.com/?q=%5B1%3A2%3A3%5D".to_owned()));
}

#[test]
fn encode_search_query_examples() {
    assert_eq!(BrowserApp::encode_search_query("a b"), "a+b");
    assert_eq!(BrowserApp::encode_search_query("*-._~"), "*-._%7E");
    assert_eq!(BrowserApp::encode_search_query("é"), "%C3%A9");
    assert_eq!(BrowserApp::encode_search_query(""), "");
    assert_eq!(BrowserApp::encode_search_query("100%"), "100%25");
}

#[test]
fn looks_like_url_examples() {
    assert!(BrowserApp::looks_like_url("example.com"));
    assert!(BrowserApp::looks_like_url("localhost"));
    assert!(BrowserApp::looks_like_url("192.168.0.1:3000"));
    assert!(BrowserApp::looks_like_url("[fe80::1]"));
    assert!(!BrowserApp::looks_like_url("example"));
    assert!(!BrowserApp::looks_like_url("example .com"));
    assert!(!BrowserApp::looks_like_url("/path"));
    assert!(!BrowserApp::looks_like_url("exa_mple.com"));
    assert!(!BrowserApp::looks_like_url("example.com:99999"));
    assert!(!BrowserApp::looks_like_url("[::1]x"));
    assert!(!BrowserApp::looks_like_url("[12345::]"));
    assert!(!BrowserApp::looks_like_url("[1:2:3:4:5:6:7:8:9]"));
    assert!(BrowserApp::looks_like_url("[1:2:3:4:5:6:7::]"));
    assert!(BrowserApp::looks_like_url("01.2.3.4.com"));
    assert!(BrowserApp::looks_like_url("example.com:+80"));
}

#[test]
fn is_loopback_address_examples() {
    assert!(BrowserApp::is_loopback_address("localhost"));
    assert!(BrowserApp::is_loopback_address("127.0.0.1:8000/x"));
    assert!(BrowserApp::is_loopback_address("[::1]"));
    assert!(!BrowserApp::is_loopback_address("[::2]"));
    assert!(!BrowserApp::is_loopback_address("128.0.0.1"));
    assert!(!BrowserApp::is_loopback_address("0127.0.0.1"));
    assert!(!BrowserApp::is_loopback_address("example.com"));
}

/// (IPv6 text, is an address, is the loopback address), as the standard
/// library's `Ipv6Addr` reader decides them.
const IPV6_CASES: [(&str, bool, bool); 29] = [
    ("::", true, false),
    ("::1", true, true),
    ("1::", true, false),
    ("1::2", true, false),
    ("1:2:3:4:5:6:7:8", true, false),
    ("1:2:3:4:5:6:7::", true, false),
    ("::2:3:4:5:6:7:8", true, false),
    ("1:2:3:4:5:6:1.2.3.4", true, false),
    ("::1.2.3.4", true, false),
    ("1::1.2.3.4", true, false),
    ("1:2:3:4:5::1.2.3.4", true, false),
    ("1:2:3:4:5:6::1.2.3.4", false, false),
    ("1.2.3.4::", false, false),
    (":::", false, false),
    ("1:::2", false, false),
    ("1::2::3", false, false),
    ("12345::", false, false),
    ("g::", false, false),
    ("1:2:3:4:5:6:7", false, false),
    ("1:2:3:4:5:6:7:8:9", false, false),
    (":1:2:3:4:5:6:7", false, false),
    ("1:2:3:4:5:6:7:", false, false),
    ("", false, false),
    ("::01.2.3.4", false, false),
    ("::1.2.3.256", false, false),
    ("ABCD:ef01::", true, false),
    ("::ffff:127.0.0.1", true, false),
    ("0:0:0:0:0:0:0:1", true, true),
    ("::0.0.0.1", true, true),
];

#[test]
fn bracketed_ipv6_hosts() {
    for (case, valid, loopback) in IPV6_CASES {
        let bracketed = format!("[{case}]");
        assert_eq!(BrowserApp::looks_like_url(&bracketed), valid, "{case}");
        assert_eq!(BrowserApp::is_loopback_address(&bracketed), loopback, "{case}");
    }
}

#[test]
fn ipv4_hosts() {
    // (text, is an IPv4 address, is a loopback address)
    let cases = [
        ("1.2.3.4", true, false),
        ("0.0.0.0", true, false),
        ("255.255.255.255", true, false),
        ("256.1.1.1", false, false),
        ("01.2.3.4", false, false),
        ("1.2.3", false, false),
        ("1.2.3.4.5", false, false),
        ("1..3.4", false, false),
        ("1.2.3.", false, false),
        ("127.0.0.1", true, true),
        ("127.255.0.9", true, true),
        ("1234.1.1.1", false, false),
        ("+1.2.3.4", false, false),
    ];
    for (case, valid, loopback) in cases {
        // Anything that is an IPv4 address is opened directly; other dotted
        // numbers may still pass as domain names.
        if valid {
            assert!(BrowserApp::looks_like_url(case), "{case}");
        }
        assert_eq!(BrowserApp::is_loopback_address(case), loopback, "{case}");
    }
    assert!(!BrowserApp::looks_like_url("1..3.4"));
    assert!(!BrowserApp::looks_like_url("1.2.3."));
}

#[test]
fn port_numbers() {
    // (text, reads as a u16)
    let cases = [
        ("80", true),
        ("+80", true),
        ("-80", false),
        ("", false),
        ("+", false),
        ("65535", true),
        ("65536", false),
        ("000080", true),
        ("8x", false),
        ("99999999999", false),
    ];
    for (case, valid) in cases {
        let with_port = format!("localhost:{case}");
        assert_eq!(BrowserApp::looks_like_url(&with_port), valid, "{case}");
    }
}
