use mandown::baseline::check_websites;
use mandown::http::ScriptedClient;

#[test]
fn test_check_websites_success() {
    let client = ScriptedClient::new(Vec::new(), vec!["https://test.com".to_string()]);
    let websites = vec!["https://test.com".to_string()];
    assert!(check_websites(&websites, &client));
}

#[test]
fn test_check_websites_failure() {
    let client = ScriptedClient::new(Vec::new(), Vec::new());
    let websites = vec!["https://test.com".to_string()];
    assert!(!check_websites(&websites, &client));
}

#[test]
fn test_check_websites_empty_list() {
    let client = ScriptedClient::new(Vec::new(), vec!["https://test.com".to_string()]);
    let empty_websites: Vec<String> = vec![];
    let result = check_websites(&empty_websites, &client);
    assert!(!result, "Empty websites list should return false");
}

#[test]
fn gate_passes_when_one_probe_succeeds_among_failures() {
    // Only the third baseline site answers; that one is enough.
    let client = ScriptedClient::new(Vec::new(), vec!["https://c.com".to_string()]);
    let websites = vec![
        "https://a.com".to_string(),
        "https://b.com".to_string(),
        "https://c.com".to_string(),
        "https://d.com".to_string(),
    ];
    assert!(check_websites(&websites, &client));
}
