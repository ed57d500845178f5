use gloss::network::normalize_proxy_url;

#[test]
fn normalizes_local_http_proxy_shorthand() {
    assert_eq!(
        normalize_proxy_url(" 127.0.0.1:23458 ").unwrap(),
        "http://127.0.0.1:23458"
    );
}

#[test]
fn accepts_supported_proxy_schemes() {
    assert_eq!(
        normalize_proxy_url("socks5h://localhost:1080").unwrap(),
        "socks5h://localhost:1080"
    );
    assert_eq!(normalize_proxy_url("  ").unwrap(), "");
}

#[test]
fn rejects_non_proxy_urls() {
    assert!(normalize_proxy_url("ftp://localhost:21").is_err());
    assert!(normalize_proxy_url("http://localhost:8080/path").is_err());
}

#[test]
fn proxy_errors_name_the_problem() {
    assert_eq!(
        normalize_proxy_url("ftp://localhost:21").unwrap_err(),
        "Proxy must use HTTP, HTTPS, SOCKS5, or SOCKS5H."
    );
    assert_eq!(
        normalize_proxy_url("http://localhost:8080/path").unwrap_err(),
        "Proxy URL cannot contain a path, query, or fragment."
    );
    assert_eq!(
        normalize_proxy_url("http://localhost:8080?x=1").unwrap_err(),
        "Proxy URL cannot contain a path, query, or fragment."
    );
    assert_eq!(
        normalize_proxy_url("http://[::1").unwrap_err(),
        "Proxy URL is invalid. Try 127.0.0.1:23458."
    );
    assert_eq!(
        normalize_proxy_url("https://proxy.example:8443/").unwrap(),
        "https://proxy.example:8443"
    );
}
