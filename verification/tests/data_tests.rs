use mandown::data::{
    build_update_sql, compare_websites, extract_hostname, read_url, sort_websites_by_url, str_le,
};
use mandown::site::Website;

#[test]
fn tests_test_empty_string() {
    assert_eq!(extract_hostname(""), "");
}

#[test]
fn tests_test_invalid_characters() {
    assert_eq!(extract_hostname("aaa$@%"), "");
}

#[test]
fn tests_test_invalid_url_with_tld() {
    assert_eq!(extract_hostname("aa@%$^a.com/page"), "");
}

#[test]
fn tests_test_without_tld() {
    assert_eq!(extract_hostname("aaa"), "");
}

#[test]
fn tests_test_with_valid_tld() {
    assert_eq!(extract_hostname("aaa.com"), "aaa.com");
}

#[test]
fn tests_test_with_path() {
    assert_eq!(extract_hostname("aaa.com/page"), "aaa.com");
}

#[test]
fn tests_test_with_http() {
    assert_eq!(extract_hostname("http://aaa.com/"), "aaa.com");
}

#[test]
fn tests_test_with_http_and_path() {
    assert_eq!(extract_hostname("http://aaa.com/page"), "aaa.com");
}

#[test]
fn tests_test_with_https() {
    assert_eq!(extract_hostname("https://aaa.com/"), "aaa.com");
}

#[test]
fn tests_test_with_https_and_path() {
    assert_eq!(extract_hostname("https://aaa.com/page"), "aaa.com");
}

#[test]
fn data_read_url_valid_and_invalid() {
    let (valid, http, https) = read_url("aaa.com");
    assert!(valid);
    assert_eq!(http, "http://aaa.com");
    assert_eq!(https, "https://aaa.com");
    let (valid, http, https) = read_url("aaa");
    assert!(!valid);
    assert_eq!(http, "");
    assert_eq!(https, "");
}

fn site(id: Option<u64>, url: &str, status: i32) -> Website {
    Website {
        id,
        url: url.to_string(),
        last_updated: "2024-01-01 00:00:00".to_string(),
        status,
        telegram_id: "7".to_string(),
    }
}

#[test]
fn compare_matches_by_identity_not_url() {
    // Two stored records share a URL; only the identity decides the match.
    let current = vec![
        site(Some(1), "https://same.com", 200),
        site(Some(2), "https://same.com", 404),
    ];
    let fresh = vec![site(Some(2), "https://same.com", 200)];
    let changed = compare_websites(&current, &fresh);
    assert_eq!(changed.len(), 1);
    assert_eq!(changed[0].id, Some(2));
}

#[test]
fn compare_ignores_unknown_identity() {
    let current = vec![site(Some(1), "https://same.com", 200)];
    let fresh = vec![site(Some(3), "https://same.com", 500)];
    let changed = compare_websites(&current, &fresh);
    assert!(changed.is_empty());
}

#[test]
fn batched_update_statement() {
    let webs = vec![
        Website {
            id: Some(3),
            url: "https://a.com".to_string(),
            last_updated: "2024-01-01 00:00:00".to_string(),
            status: 200,
            telegram_id: "7".to_string(),
        },
        Website {
            id: Some(8),
            url: "https://b.com".to_string(),
            last_updated: "2024-02-02 00:00:00".to_string(),
            status: 404,
            telegram_id: "7".to_string(),
        },
    ];
    let sql = build_update_sql(&webs);
    let expected = "UPDATE websites SET last_checked_time = CASE id WHEN 3 THEN '2024-01-01 00:00:00' WHEN 8 THEN '2024-02-02 00:00:00' END, status = CASE id WHEN 3 THEN 200 WHEN 8 THEN 404 END WHERE id IN (3,8)";
    assert_eq!(sql, expected);
}

#[test]
fn sort_orders_records_by_url() {
    let v = vec![
        site(Some(1), "https://c.com", 200),
        site(Some(2), "https://a.com", 404),
        site(Some(3), "https://b.com", 500),
    ];
    let r = sort_websites_by_url(v);
    let urls: Vec<&str> = r.iter().map(|w| w.url.as_str()).collect();
    assert_eq!(urls, vec!["https://a.com", "https://b.com", "https://c.com"]);
    assert_eq!(r.len(), 3);
}

#[test]
fn lexicographic_compare_on_strings() {
    assert!(str_le("", "a"));
    assert!(str_le("a", "ab"));
    assert!(!str_le("ab", "a"));
    assert!(str_le("abc", "abd"));
    assert!(str_le("abc", "abc"));
    assert!(!str_le("b", "ab"));
}

#[test]
fn compare_reports_nothing_when_statuses_agree() {
    let current = vec![
        site(Some(1), "https://a.com", 200),
        site(Some(2), "https://b.com", 404),
    ];
    let fresh = vec![
        site(Some(1), "https://a.com", 200),
        site(Some(2), "https://b.com", 404),
    ];
    let changed = compare_websites(&current, &fresh);
    assert!(changed.is_empty());
}
