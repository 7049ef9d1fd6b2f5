use mandown::alert::{alert_users, process, RecordingMessenger};
use mandown::site::Website;

#[test]
fn process_unreachable_codes() {
    let expected = "Site: https://a.com\n\nHoppla! We faced an error trying to reach the site! 🤒";
    assert_eq!(process("https://a.com", 0), expected);
    let expected = "Site: https://a.com\n\nHoppla! We faced an error trying to reach the site! 🤒";
    assert_eq!(process("https://a.com", 1), expected);
}

#[test]
fn process_live_code() {
    let expected = "Site: https://a.com\n\nJoohoo! It's live and kicking! 🙂\n\nStatus: <a href='https://httpstatuses.com/200'>200</a>";
    assert_eq!(process("https://a.com", 200), expected);
}

#[test]
fn process_client_side_code() {
    let expected = "Site: https://a.com\n\nErm! Did I do something wrong? 🤔\n\nStatus: <a href='https://httpstatuses.com/404'>404</a>";
    assert_eq!(process("https://a.com", 404), expected);
}

#[test]
fn process_server_side_code() {
    let expected = "Site: https://a.com\n\nSchade! It's down or inaccessible to me! 😟\n\nStatus: <a href='https://httpstatuses.com/503'>503</a>";
    assert_eq!(process("https://a.com", 503), expected);
}

#[test]
fn process_unexpected_code() {
    let expected = "Site: https://a.com\n\nSomething is fishy! 🐟";
    assert_eq!(process("https://a.com", 700), expected);
    assert_eq!(process("https://a.com", 302), expected);
    assert_eq!(process("https://a.com", -5), expected);
}

fn changed(id: u64, url: &str, status: i32, owner: &str) -> Website {
    Website {
        id: Some(id),
        url: url.to_string(),
        last_updated: "2025-02-03 04:05:06".to_string(),
        status,
        telegram_id: owner.to_string(),
    }
}

#[test]
fn alerts_fan_out_one_message_per_record() {
    let mut bot = RecordingMessenger::new(true);
    let webs = vec![
        changed(1, "https://a.com", 404, "11"),
        changed(2, "https://b.com", 200, "22"),
    ];
    alert_users(&mut bot, &webs);
    assert_eq!(bot.log.len(), 2);
    assert_eq!(bot.log[0].0, "11");
    assert!(bot.log[0].1.contains("404"));
    assert_eq!(bot.log[1].0, "22");
    assert!(bot.log[1].1.contains("200"));
}

#[test]
fn alerts_continue_past_delivery_failure() {
    // Every delivery fails, but every record's alert is still attempted.
    let mut bot = RecordingMessenger::new(false);
    let webs = vec![
        changed(1, "https://a.com", 500, "11"),
        changed(2, "https://b.com", 0, "22"),
        changed(3, "https://c.com", 404, "33"),
    ];
    alert_users(&mut bot, &webs);
    assert_eq!(bot.log.len(), 3);
}
