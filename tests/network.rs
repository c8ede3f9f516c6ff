use ndjson_converter::{check_download_url, check_parsed_url, check_resolved_addresses, is_forbidden_ip, IpAddress, ParsedUrl, UrlCheck, UrlError, UrlHost};

fn refused(url: &str) -> UrlError {
    match check_download_url(url) {
        Err(e) => e,
        Ok(_) => panic!("accepted {}", url),
    }
}

#[test]
fn validate_url_accepts_public_ipv4_https() {
    assert!(matches!(check_download_url("https://1.1.1.1/image.jpg"), Ok(UrlCheck::Allowed)));
}

#[test]
fn validate_url_accepts_public_ipv4_http() {
    assert!(matches!(check_download_url("http://8.8.8.8/image.jpg"), Ok(UrlCheck::Allowed)));
}

#[test]
fn validate_url_rejects_localhost() {
    let e = refused("http://127.0.0.1/image.jpg");
    assert_eq!(e, UrlError::PrivateAddress);
    assert!(e.message().contains("Private or local"));
}

#[test]
fn validate_url_rejects_private_ip_10() {
    let e = refused("http://10.0.0.1/image.jpg");
    assert_eq!(e, UrlError::PrivateAddress);
    assert!(e.message().contains("Private or local"));
}

#[test]
fn validate_url_rejects_private_ip_192() {
    let e = refused("http://192.168.1.1/image.jpg");
    assert_eq!(e, UrlError::PrivateAddress);
    assert!(e.message().contains("Private or local"));
}

#[test]
fn validate_url_rejects_ipv4_mapped_ipv6_loopback() {
    let e = refused("http://[::ffff:127.0.0.1]/image.jpg");
    assert_eq!(e, UrlError::PrivateAddress);
    assert!(e.message().contains("Private or local"));
}

#[test]
fn validate_url_rejects_localhost_hostname() {
    let e = refused("http://localhost/image.jpg");
    assert_eq!(e, UrlError::Localhost);
    assert!(e.message().contains("Localhost"));
}

#[test]
fn domain_names_are_handed_on_for_lookup() {
    match check_download_url("http://example.com/x.jpg") {
        Ok(UrlCheck::Resolve { host, port }) => {
            assert_eq!(host, "example.com");
            assert_eq!(port, 80);
        }
        _ => panic!("expected a lookup"),
    }
    match check_download_url("https://example.com:8443/x.jpg") {
        Ok(UrlCheck::Resolve { port, .. }) => assert_eq!(port, 8443),
        _ => panic!("expected a lookup"),
    }
}

#[test]
fn other_refusals() {
    assert_eq!(refused("not a url"), UrlError::Invalid);
    assert_eq!(refused("ftp://example.com/x"), UrlError::Scheme);
    assert_eq!(refused("http://printer.local/x"), UrlError::Localhost);
    assert_eq!(refused("http://app.LOCALHOST/x"), UrlError::Localhost);
    assert_eq!(refused("http://[::1]/x"), UrlError::PrivateAddress);
    assert_eq!(refused("http://169.254.0.1/x"), UrlError::PrivateAddress);
    assert_eq!(refused("http://172.20.0.1/x"), UrlError::PrivateAddress);
    assert_eq!(refused("http://0.0.0.0/x"), UrlError::PrivateAddress);
    assert_eq!(refused("http://224.0.0.1/x"), UrlError::PrivateAddress);
    assert_eq!(refused("http://255.255.255.255/x"), UrlError::PrivateAddress);
    assert!(matches!(check_download_url("http://172.32.0.1/x"), Ok(UrlCheck::Allowed)));
    assert!(matches!(check_download_url("http://notlocalhost/x"), Ok(UrlCheck::Resolve { .. })));
}

#[test]
fn resolved_addresses() {
    assert_eq!(check_resolved_addresses(&vec![]), Err(UrlError::Unresolved));
    assert_eq!(check_resolved_addresses(&vec![IpAddress::V4([93, 184, 216, 34])]), Ok(()));
    assert_eq!(
        check_resolved_addresses(&vec![IpAddress::V4([93, 184, 216, 34]), IpAddress::V4([10, 1, 2, 3])]),
        Err(UrlError::PrivateAddress)
    );
    assert_eq!(UrlError::Unresolved.message(), "Failed to resolve download host");
}

#[test]
fn ipv6_ranges() {
    assert!(is_forbidden_ip(&IpAddress::V6([0, 0, 0, 0, 0, 0, 0, 1])));
    assert!(is_forbidden_ip(&IpAddress::V6([0, 0, 0, 0, 0, 0, 0, 0])));
    assert!(is_forbidden_ip(&IpAddress::V6([0xfe80, 0, 0, 0, 0, 0, 0, 1])));
    assert!(is_forbidden_ip(&IpAddress::V6([0xfd00, 0, 0, 0, 0, 0, 0, 1])));
    assert!(is_forbidden_ip(&IpAddress::V6([0xff02, 0, 0, 0, 0, 0, 0, 1])));
    assert!(is_forbidden_ip(&IpAddress::V6([0, 0, 0, 0, 0, 0xffff, 0x0a00, 0x0001])));
    assert!(!is_forbidden_ip(&IpAddress::V6([0, 0, 0, 0, 0, 0xffff, 0x0808, 0x0808])));
    assert!(!is_forbidden_ip(&IpAddress::V6([0x2001, 0x0db8, 0, 0, 0, 0, 0, 1])));
}

#[test]
fn parsed_url_without_host_is_refused() {
    let no_host = ParsedUrl { scheme: "http".to_string(), host: None, port: Some(80) };
    assert!(matches!(check_parsed_url(Some(no_host)), Err(UrlError::NoHost)));
    assert!(matches!(check_parsed_url(None), Err(UrlError::Invalid)));
    let domain = ParsedUrl { scheme: "https".to_string(), host: Some(UrlHost::Domain("cdn.example".to_string())), port: None };
    match check_parsed_url(Some(domain)) {
        Ok(UrlCheck::Resolve { host, port }) => {
            assert_eq!(host, "cdn.example");
            assert_eq!(port, 80);
        }
        _ => panic!("expected a lookup"),
    }
    assert_eq!(UrlError::NoHost.message(), "URL must include a hostname");
    assert_eq!(UrlError::Scheme.message(), "Only HTTP/HTTPS URLs are allowed");
}
