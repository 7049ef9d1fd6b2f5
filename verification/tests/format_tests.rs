use mandown::format::format_website_list;
use mandown::numfmt::{i32_to_string, u16_to_string, u32_to_string};
use mandown::site::Website;

#[test]
fn empty_list_message() {
    let websites: Vec<Website> = vec![];
    assert_eq!(
        format_website_list(&websites),
        "You aren't tracking any sites yet."
    );
}

#[test]
fn one_site_table() {
    let websites = vec![Website {
        id: Some(1),
        url: "https://aaa.com".to_string(),
        last_updated: "2024-01-01 00:00:00".to_string(),
        status: 200,
        telegram_id: "7".to_string(),
    }];
    let mut expected = "Here are your tracked domains:\n\n<pre>".to_string();
    expected.push_str(&format!("{:<40} | {:<6}\n", "URL", "Status"));
    expected.push_str(&"-".repeat(50));
    expected.push('\n');
    expected.push_str(&format!("{:<40} | {:<6}\n", "https://aaa.com", 200));
    expected.push_str("</pre>");
    assert_eq!(format_website_list(&websites), expected);
}

#[test]
fn long_url_is_not_truncated() {
    let url = "https://a-very-long-domain-name-that-overflows-the-column.example.com";
    let websites = vec![Website {
        id: None,
        url: url.to_string(),
        last_updated: "2024-01-01 00:00:00".to_string(),
        status: 503,
        telegram_id: "7".to_string(),
    }];
    let listed = format_website_list(&websites);
    assert!(listed.contains(url));
    assert!(listed.contains("503"));
}

#[test]
fn decimal_renderings() {
    assert_eq!(u32_to_string(0), "0");
    assert_eq!(u32_to_string(7), "7");
    assert_eq!(u32_to_string(12345), "12345");
    assert_eq!(u16_to_string(65535), "65535");
    assert_eq!(i32_to_string(200), "200");
    assert_eq!(i32_to_string(-42), "-42");
    assert_eq!(i32_to_string(i32::MIN), "-2147483648");
    assert_eq!(i32_to_string(0), "0");
}
