use mandown::parse_url::{extract_hostname, read_url};

#[test]
fn parse_url_test_empty_string() {
    assert_eq!(extract_hostname(""), "");
}

#[test]
fn parse_url_test_invalid_characters() {
    assert_eq!(extract_hostname("aaa$@%"), "");
}

#[test]
fn parse_url_test_invalid_url_with_tld() {
    assert_eq!(extract_hostname("aa@%$^a.com/page"), "");
}

#[test]
fn parse_url_test_without_tld() {
    assert_eq!(extract_hostname("aaa"), "");
}

#[test]
fn parse_url_test_with_valid_tld() {
    assert_eq!(extract_hostname("aaa.com"), "aaa.com");
}

#[test]
fn parse_url_test_with_path() {
    assert_eq!(extract_hostname("aaa.com/page"), "aaa.com");
}

#[test]
fn parse_url_test_with_http() {
    assert_eq!(extract_hostname("http://aaa.com/"), "aaa.com");
}

#[test]
fn parse_url_test_with_http_and_path() {
    assert_eq!(extract_hostname("http://aaa.com/page"), "aaa.com");
}

#[test]
fn test_with_port() {
    assert_eq!(extract_hostname("aaa.com:8080"), "aaa.com:8080");
}

#[test]
fn test_with_ip() {
    assert_eq!(extract_hostname("192.168.1.1"), "192.168.1.1");
}

#[test]
fn parse_url_test_with_https() {
    assert_eq!(extract_hostname("https://aaa.com/"), "aaa.com");
}

#[test]
fn parse_url_test_with_https_and_path() {
    assert_eq!(extract_hostname("https://aaa.com/page"), "aaa.com");
}

#[test]
fn read_url_valid_host_gives_both_schemes() {
    let (valid, http, https) = read_url("aaa.com");
    assert!(valid);
    assert_eq!(http, "http://aaa.com");
    assert_eq!(https, "https://aaa.com");
}

#[test]
fn read_url_invalid_host_gives_nothing() {
    let (valid, http, https) = read_url("not-a-host");
    assert!(!valid);
    assert_eq!(http, "");
    assert_eq!(https, "");
}

#[test]
fn read_url_keeps_explicit_port() {
    let (valid, http, https) = read_url("aaa.com:8080");
    assert!(valid);
    assert_eq!(http, "http://aaa.com:8080");
    assert_eq!(https, "https://aaa.com:8080");
}
