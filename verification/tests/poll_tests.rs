use mandown::http::ScriptedClient;
use mandown::poll::{collect_changed_sites, get_changed_sites, handle_changed_websites};
use mandown::alert::RecordingMessenger;
use mandown::site::Website;
use mandown::store::{SiteStore, StoreError, VecStore};

fn site(id: u64, url: &str, status: i32, owner: &str) -> Website {
    Website {
        id: Some(id),
        url: url.to_string(),
        last_updated: "2024-01-01 00:00:00".to_string(),
        status,
        telegram_id: owner.to_string(),
    }
}

fn many_sites(n: u64) -> Vec<Website> {
    (0..n).map(|k| site(k + 1, &format!("https://site{}.com", k), 200, "7")).collect()
}

#[test]
fn pagination_reconstructs_the_whole_list() {
    // Successive pages with increasing skip rebuild the site set: no
    // duplicates, no omissions.
    let store = VecStore { records: many_sites(45) };
    let mut all: Vec<Website> = Vec::new();
    let mut skip: u64 = 0;
    loop {
        let page = store.get_sites(skip, 20).unwrap();
        if page.is_empty() {
            break;
        }
        all.extend(page);
        skip += 20;
    }
    assert_eq!(all.len(), 45);
    for (k, w) in all.iter().enumerate() {
        assert_eq!(w.id, Some(k as u64 + 1));
    }
}

#[test]
fn pagination_works_for_page_size_one() {
    let store = VecStore { records: many_sites(3) };
    let mut all: Vec<Website> = Vec::new();
    let mut skip: u64 = 0;
    loop {
        let page = store.get_sites(skip, 1).unwrap();
        if page.is_empty() {
            break;
        }
        all.extend(page);
        skip += 1;
    }
    assert_eq!(all.len(), 3);
}

#[test]
fn empty_store_returns_an_empty_first_page() {
    let store = VecStore { records: vec![] };
    assert!(store.get_sites(0, 20).unwrap().is_empty());
}

#[test]
fn update_db_touches_only_the_given_identities() {
    let mut store = VecStore { records: vec![
        site(1, "https://a.com", 200, "7"),
        site(2, "https://b.com", 200, "7"),
    ] };
    let changed = vec![Website {
        id: Some(2),
        url: "https://b.com".to_string(),
        last_updated: "2025-02-03 04:05:06".to_string(),
        status: 404,
        telegram_id: "7".to_string(),
    }];
    assert!(store.update_db(&changed).is_ok());
    assert_eq!(store.records[0].status, 200);
    assert_eq!(store.records[0].last_updated, "2024-01-01 00:00:00");
    assert_eq!(store.records[1].status, 404);
    assert_eq!(store.records[1].last_updated, "2025-02-03 04:05:06");
}

#[test]
fn cycle_detects_notifies_and_writes_back_one_change() {
    // The store holds one site at 200; the probe now answers 404. One record
    // must change, one alert naming 404 must reach its owner, and only that
    // record is written back.
    let mut store = VecStore { records: vec![site(1, "https://example1.com", 200, "42")] };
    let mut client = ScriptedClient::new(vec![404], vec!["https://base.com".to_string()]);
    let baseline = vec!["https://base.com".to_string()];

    let changed = get_changed_sites(&store, &mut client, &baseline);
    assert_eq!(changed.len(), 1);
    assert_eq!(changed[0].id, Some(1));
    assert_eq!(changed[0].status, 404);

    let mut bot = RecordingMessenger::new(true);
    let written = handle_changed_websites(&mut store, &mut bot, &changed);
    assert!(written.is_ok());
    assert_eq!(bot.log.len(), 1);
    assert_eq!(bot.log[0].0, "42");
    assert!(bot.log[0].1.contains("404"));
    assert_eq!(store.records.len(), 1);
    assert_eq!(store.records[0].status, 404);
}

#[test]
fn closed_gate_skips_probing_and_reports_nothing() {
    let store = VecStore { records: vec![site(1, "https://example1.com", 200, "42")] };
    // No baseline site is reachable, so the cycle must be a no-op.
    let mut client = ScriptedClient::new(vec![404], Vec::new());
    let baseline = vec!["https://base.com".to_string()];
    let changed = get_changed_sites(&store, &mut client, &baseline);
    assert!(changed.is_empty());
    // No probe was made: the scripted response is still pending.
    assert_eq!(client.remaining, vec![404]);
}

#[test]
fn empty_changed_set_sends_and_writes_nothing() {
    let mut store = VecStore { records: vec![site(1, "https://a.com", 200, "7")] };
    let mut bot = RecordingMessenger::new(true);
    let written = handle_changed_websites(&mut store, &mut bot, &Vec::new());
    assert!(written.is_ok());
    assert_eq!(bot.log.len(), 0);
    assert_eq!(store.records[0].status, 200);
}

struct FailingStore;

impl SiteStore for FailingStore {
    fn get_sites(&self, _skip: u64, _limit: i64) -> Result<Vec<Website>, StoreError> {
        Err(StoreError::Backend)
    }

    fn update_db(&mut self, _websites: &Vec<Website>) -> Result<(), StoreError> {
        Err(StoreError::Backend)
    }
}

#[test]
fn failed_store_read_aborts_the_cycle() {
    let store = FailingStore;
    let mut client = ScriptedClient::new(vec![404], vec!["https://base.com".to_string()]);
    let baseline = vec!["https://base.com".to_string()];
    let r = collect_changed_sites(&store, &mut client, &baseline, "2025-02-03 04:05:06");
    assert!(matches!(r, Err(StoreError::Backend)));
    // And the scheduler-facing wrapper turns that into an empty changed set.
    let changed = get_changed_sites(&store, &mut client, &baseline);
    assert!(changed.is_empty());
}

#[test]
fn cycle_probes_across_pages() {
    // 25 sites means two pages; each probe succeeds at once, three diverge.
    let mut records = many_sites(25);
    records[3].status = 404;
    records[21].status = 500;
    records[24].status = 0;
    let store = VecStore { records };
    let script: Vec<u16> = vec![200; 25];
    let mut client = ScriptedClient::new(script, vec!["https://base.com".to_string()]);
    let baseline = vec!["https://base.com".to_string()];
    let changed = get_changed_sites(&store, &mut client, &baseline);
    assert_eq!(changed.len(), 3);
    let ids: Vec<Option<u64>> = changed.iter().map(|w| w.id).collect();
    assert!(ids.contains(&Some(4)));
    assert!(ids.contains(&Some(22)));
    assert!(ids.contains(&Some(25)));
}

#[test]
fn same_url_tracked_by_two_owners_gives_two_records_and_two_alerts() {
    // Owner-scoped copies: the same host tracked by two users is probed as
    // two records, compared independently, and each owner is alerted.
    let mut store = VecStore { records: vec![
        site(1, "https://same.com", 200, "11"),
        site(2, "https://same.com", 200, "22"),
    ] };
    let mut client = ScriptedClient::new(vec![500, 500], vec!["https://base.com".to_string()]);
    let baseline = vec!["https://base.com".to_string()];
    let changed = get_changed_sites(&store, &mut client, &baseline);
    assert_eq!(changed.len(), 2);

    let mut bot = RecordingMessenger::new(true);
    let written = handle_changed_websites(&mut store, &mut bot, &changed);
    assert!(written.is_ok());
    assert_eq!(bot.log.len(), 2);
    assert_eq!(bot.log[0].0, "11");
    assert_eq!(bot.log[1].0, "22");
    assert_eq!(store.records[0].status, 500);
    assert_eq!(store.records[1].status, 500);
}

#[test]
fn fresh_site_starts_at_status_200() {
    let w = Website::fresh("https://aaa.com", "42", "2025-02-03 04:05:06");
    assert_eq!(w.status, 200);
    assert_eq!(w.id, None);
    assert_eq!(w.url, "https://aaa.com");
    assert_eq!(w.telegram_id, "42");
    assert_eq!(w.last_updated, "2025-02-03 04:05:06");
}
