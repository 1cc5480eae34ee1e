use mirthbr::http_dest::{is_private_ip, HttpSender, IpParts};

#[test]
fn test_validate_url_blocks_localhost() {
    assert!(HttpSender::validate_url("http://localhost:8080/api").is_err());
    assert!(HttpSender::validate_url("http://127.0.0.1:8080/api").is_err());
}

#[test]
fn test_validate_url_blocks_metadata() {
    assert!(HttpSender::validate_url("http://169.254.169.254/latest/meta-data/").is_err());
    assert!(HttpSender::validate_url("http://metadata.google.internal/computeMetadata/v1/").is_err());
}

#[test]
fn test_validate_url_allows_external() {
    let result = HttpSender::validate_url("https://api.example.com/webhook");
    assert!(result.is_ok());
}

#[test]
fn test_validate_url_blocks_file_scheme() {
    assert!(HttpSender::validate_url("file:///etc/passwd").is_err());
}

#[test]
fn test_validate_url_blocks_subdomain_of_blocked_host() {
    assert!(HttpSender::validate_url("http://foo.localhost/x").is_err());
}

#[test]
fn test_validate_url_rejects_garbage() {
    assert!(HttpSender::validate_url("not a url at all").is_err());
}

#[test]
fn test_private_ip_ranges() {
    assert!(is_private_ip(&IpParts::V4(10, 1, 2, 3)));
    assert!(is_private_ip(&IpParts::V4(172, 16, 0, 1)));
    assert!(is_private_ip(&IpParts::V4(172, 31, 255, 255)));
    assert!(!is_private_ip(&IpParts::V4(172, 32, 0, 1)));
    assert!(is_private_ip(&IpParts::V4(192, 168, 1, 1)));
    assert!(is_private_ip(&IpParts::V4(127, 0, 0, 1)));
    assert!(is_private_ip(&IpParts::V4(169, 254, 9, 9)));
    assert!(is_private_ip(&IpParts::V4(255, 255, 255, 255)));
    assert!(is_private_ip(&IpParts::V4(0, 0, 0, 0)));
    assert!(is_private_ip(&IpParts::V4(100, 64, 0, 1)));
    assert!(is_private_ip(&IpParts::V4(100, 127, 0, 1)));
    assert!(!is_private_ip(&IpParts::V4(100, 128, 0, 1)));
    assert!(!is_private_ip(&IpParts::V4(8, 8, 8, 8)));
    assert!(is_private_ip(&IpParts::V6(0)));
    assert!(is_private_ip(&IpParts::V6(1)));
    assert!(!is_private_ip(&IpParts::V6(0x20010db8_00000000_00000000_00000001)));
}

#[test]
fn test_method_validation() {
    let s = HttpSender::new("https://api.example.com".to_string(), "put".to_string());
    assert_eq!(s.method, "PUT");
    let s2 = HttpSender::new("https://api.example.com".to_string(), "TRACE".to_string());
    assert_eq!(s2.method, "POST");
}
