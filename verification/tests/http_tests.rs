use mandown::http::{diff_websites, find_changed_websites, get_status, HttpClient, ScriptedClient};
use mandown::site::Website;

fn web(id: u64, url: &str, status: i32, date: &str) -> Website {
    Website {
        id: Some(id),
        last_updated: date.to_string(),
        telegram_id: "1234567890".to_string(),
        status,
        url: url.to_string(),
    }
}

#[test]
fn test_find_changed_websites_multiple_changes() {
    let random_date = "2024-01-01 00:00:00".to_string();
    let original_websites = vec![
        web(1, "https://example1.com", 200, &random_date),
        web(2, "https://example2.com", 404, &random_date),
        web(3, "https://example3.com", 500, &random_date),
        web(4, "https://example4.com", 0, &random_date),
        web(5, "https://example5.com", 200, &random_date),
    ];

    let new_statuses: Vec<u16> = vec![
        200, // unchanged
        200, // changed from 404
        503, // changed from 500
        200, // changed from 0
        200, // unchanged
    ];

    let result = find_changed_websites(&original_websites, &new_statuses);

    assert_eq!(result.len(), 3);

    let changed_urls: Vec<String> = result.iter().map(|w| w.url.clone()).collect();
    assert!(changed_urls.contains(&"https://example2.com".to_string()));
    assert!(changed_urls.contains(&"https://example3.com".to_string()));
    assert!(changed_urls.contains(&"https://example4.com".to_string()));

    assert!(!changed_urls.contains(&"https://example1.com".to_string()));
    assert!(!changed_urls.contains(&"https://example5.com".to_string()));

    for web in result {
        assert_ne!(web.last_updated, random_date);
    }
}

#[test]
fn test_find_changed_websites_no_changes() {
    let original_websites = vec![Website {
        id: Some(1),
        last_updated: "2024-01-01 00:00:00".to_string(),
        telegram_id: "123".to_string(),
        status: 200,
        url: "https://example1.com".to_string(),
    }];
    let new_statuses: Vec<u16> = vec![200];
    let changed = find_changed_websites(&original_websites, &new_statuses);
    assert!(changed.is_empty());
}

#[test]
fn test_get_status_success_mock() {
    let mut client = ScriptedClient::new(vec![200], Vec::new());
    let result = client.get_status_code("https://example.com");
    assert_eq!(result, 200);
}

#[test]
fn test_get_status_failure_mock() {
    let mut client = ScriptedClient::new(vec![0], Vec::new());
    let result = client.get_status_code("https://example.com");
    assert_eq!(result, 0);
}

#[test]
fn retry_once_takes_second_status_after_exactly_two_attempts() {
    // A transport that fails once, then succeeds: the prober retries exactly
    // once and reports the success.
    let mut client = ScriptedClient::new(vec![0, 200, 77], Vec::new());
    let status = get_status(&mut client, "https://example.com");
    assert_eq!(status, 200);
    // Two responses were consumed, no more: the third is still pending.
    assert_eq!(client.remaining, vec![77]);
}

#[test]
fn retry_once_gives_up_after_exactly_two_attempts() {
    let mut client = ScriptedClient::new(vec![0, 0], Vec::new());
    let status = get_status(&mut client, "https://example.com");
    assert_eq!(status, 0);
    assert!(client.remaining.is_empty());
}

#[test]
fn retry_does_not_happen_on_first_success() {
    let mut client = ScriptedClient::new(vec![404, 200], Vec::new());
    let status = get_status(&mut client, "https://example.com");
    assert_eq!(status, 404);
    assert_eq!(client.remaining, vec![200]);
}

#[test]
fn diff_stamps_changed_records_with_the_given_time() {
    let before = "2024-01-01 00:00:00";
    let webs = vec![web(9, "https://example9.com", 200, before)];
    let statuses: Vec<u16> = vec![404];
    let changed = diff_websites(&webs, &statuses, "2025-02-03 04:05:06");
    assert_eq!(changed.len(), 1);
    assert_eq!(changed[0].id, Some(9));
    assert_eq!(changed[0].url, "https://example9.com");
    assert_eq!(changed[0].status, 404);
    assert_eq!(changed[0].last_updated, "2025-02-03 04:05:06");
    assert_eq!(changed[0].telegram_id, "1234567890");
}

#[test]
fn diff_ignores_sites_without_a_fresh_status() {
    let before = "2024-01-01 00:00:00";
    let webs = vec![
        web(1, "https://example1.com", 200, before),
        web(2, "https://example2.com", 200, before),
    ];
    let statuses: Vec<u16> = vec![500];
    let changed = diff_websites(&webs, &statuses, "2025-02-03 04:05:06");
    assert_eq!(changed.len(), 1);
    assert_eq!(changed[0].id, Some(1));
}
