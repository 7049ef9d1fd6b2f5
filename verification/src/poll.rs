use vstd::prelude::*;

use crate::alert::{alert_users, spec_alerts, Messenger};
use crate::baseline::check_websites;
use crate::http::{
    diff_websites, get_status, now_timestamp, spec_diff, spec_get_status, HttpClient,
};
use crate::site::{Website, WebsiteView};
use crate::store::{spec_write_back, SiteStore, StoreError};

verus! {

/// The URLs of a site list, in list order.
pub open spec fn spec_urls(webs: Seq<WebsiteView>) -> Seq<Seq<char>> {
    webs.map(|i: int, w: WebsiteView| w.url)
}

/// The statuses that probing the URLs from index `i` on yields, with the
/// transport's call counter at `k`: each probe takes the response at the
/// current counter, retries once on 0, and advances the counter by the
/// attempts it used.
pub open spec fn spec_fetch<T: HttpClient>(c: T, urls: Seq<Seq<char>>, k: nat, i: int) -> Seq<u16>
    decreases
            (if i < urls.len() {
                urls.len() - i
            } else {
                0
            }),
{
    if i < 0 || i >= urls.len() {
        Seq::empty()
    } else {
        let first = c.response(urls[i], k);
        if first != 0 {
            seq![first] + spec_fetch(c, urls, (k + 1) as nat, i + 1)
        } else {
            seq![c.response(urls[i], (k + 1) as nat)] + spec_fetch(c, urls, (k + 2) as nat, i + 1)
        }
    }
}

/// Where the transport's call counter stands after probing the URLs from
/// index `i` on, having started at `k`.
pub open spec fn spec_fetch_calls<T: HttpClient>(
    c: T,
    urls: Seq<Seq<char>>,
    k: nat,
    i: int,
) -> nat
    decreases
            (if i < urls.len() {
                urls.len() - i
            } else {
                0
            }),
{
    if i < 0 || i >= urls.len() {
        k
    } else {
        if c.response(urls[i], k) != 0 {
            spec_fetch_calls(c, urls, (k + 1) as nat, i + 1)
        } else {
            spec_fetch_calls(c, urls, (k + 2) as nat, i + 1)
        }
    }
}

/// Probes every site of one page, in order, each with the retry-once rule.
pub fn fetch_website_statuses<T: HttpClient>(websites: &Vec<Website>, client: &mut T) -> (r: Vec<
    u16,
>)
    ensures
        r@.len() == websites@.len(),
        r@ == spec_fetch(
            *old(client),
            spec_urls(websites.deep_view()),
            old(client).calls(),
            0,
        ),
        final(client).calls() == spec_fetch_calls(
            *old(client),
            spec_urls(websites.deep_view()),
            old(client).calls(),
            0,
        ),
        forall|u: Seq<char>, k: nat| final(client).response(u, k) == old(client).response(u, k),
        forall|u: Seq<char>| final(client).reachable(u) == old(client).reachable(u),
{
    let ghost c0 = *old(client);
    let ghost urls = spec_urls(websites.deep_view());
    let ghost k0 = old(client).calls();
    let mut statuses: Vec<u16> = Vec::new();
    let mut i: usize = 0;
    while i < websites.len()
        invariant
            i <= websites@.len(),
            urls == spec_urls(websites.deep_view()),
            urls.len() == websites@.len(),
            statuses@.len() == i,
            forall|u: Seq<char>, k: nat| client.response(u, k) == c0.response(u, k),
            forall|u: Seq<char>| client.reachable(u) == c0.reachable(u),
            spec_fetch(c0, urls, k0, 0) == statuses@ + spec_fetch(c0, urls, client.calls(), i as int),
            spec_fetch_calls(c0, urls, k0, 0) == spec_fetch_calls(
                c0,
                urls,
                client.calls(),
                i as int,
            ),
        decreases websites@.len() - i,
    {
        let ghost cp = *client;
        let ghost k_cur = client.calls();
        let ghost pre_statuses = statuses@;
        let st = get_status(client, websites[i].url.as_str());
        statuses.push(st);
        proof {
            assert(urls[i as int] == websites.deep_view()[i as int].url);
            let first = c0.response(urls[i as int], k_cur);
            assert(cp.response(urls[i as int], k_cur) == first);
            assert(st == spec_get_status(cp, urls[i as int]));
            if first != 0 {
                assert(st == first);
                assert(client.calls() == k_cur + 1);
                assert(spec_fetch(c0, urls, k_cur, i as int) == seq![first] + spec_fetch(
                    c0,
                    urls,
                    (k_cur + 1) as nat,
                    i + 1,
                ));
            } else {
                assert(st == c0.response(urls[i as int], (k_cur + 1) as nat));
                assert(client.calls() == k_cur + 2);
                assert(spec_fetch(c0, urls, k_cur, i as int) == seq![st] + spec_fetch(
                    c0,
                    urls,
                    (k_cur + 2) as nat,
                    i + 1,
                ));
            }
            assert(statuses@ =~= pre_statuses.push(st));
            assert(pre_statuses + (seq![st] + spec_fetch(c0, urls, client.calls(), i + 1)) =~= statuses@
                + spec_fetch(c0, urls, client.calls(), i + 1));
        }
        i += 1;
    }
    proof {
        assert(spec_fetch(c0, urls, client.calls(), websites@.len() as int) =~= Seq::<u16>::empty());
        assert(statuses@ + Seq::<u16>::empty() =~= statuses@);
    }
    statuses
}

/// Whether the baseline gate is open: some baseline site answers the
/// transport's connectivity check.
pub open spec fn spec_gate_open<T: HttpClient>(c: T, baseline: Seq<Seq<char>>) -> bool {
    exists|i: int| 0 <= i < baseline.len() && c.reachable(baseline[i])
}

proof fn lemma_gate_eq<T: HttpClient>(c: T, sites: Seq<String>, dv: Seq<Seq<char>>)
    requires
        dv.len() == sites.len(),
        forall|i: int| 0 <= i < sites.len() ==> dv[i] == sites[i]@,
    ensures
        (exists|i: int| 0 <= i < sites.len() && c.reachable(sites[i]@)) == spec_gate_open(c, dv),
{
    if exists|i: int| 0 <= i < sites.len() && c.reachable(sites[i]@) {
        let i = choose|i: int| 0 <= i < sites.len() && c.reachable(sites[i]@);
        assert(c.reachable(dv[i]));
    }
    if spec_gate_open(c, dv) {
        let i = choose|i: int| 0 <= i < dv.len() && c.reachable(dv[i]);
        assert(c.reachable(sites[i]@));
    }
}

proof fn lemma_fetch_congruent<T: HttpClient>(a: T, b: T, urls: Seq<Seq<char>>, k: nat, i: int)
    requires
        forall|u: Seq<char>, m: nat| a.response(u, m) == b.response(u, m),
    ensures
        spec_fetch(a, urls, k, i) == spec_fetch(b, urls, k, i),
        spec_fetch_calls(a, urls, k, i) == spec_fetch_calls(b, urls, k, i),
    decreases
            (if i < urls.len() {
                urls.len() - i
            } else {
                0
            }),
{
    if 0 <= i && i < urls.len() {
        if a.response(urls[i], k) != 0 {
            lemma_fetch_congruent(a, b, urls, (k + 1) as nat, i + 1);
        } else {
            lemma_fetch_congruent(a, b, urls, (k + 2) as nat, i + 1);
        }
    }
}

proof fn lemma_fetch_align<T: HttpClient>(
    c: T,
    a: Seq<Seq<char>>,
    b: Seq<Seq<char>>,
    k: nat,
    i: int,
    j: int,
)
    requires
        0 <= i <= a.len(),
        0 <= j <= b.len(),
        a.len() - i == b.len() - j,
        forall|m: int| 0 <= m < a.len() - i ==> #[trigger] a[i + m] == b[j + m],
    ensures
        spec_fetch(c, a, k, i) == spec_fetch(c, b, k, j),
        spec_fetch_calls(c, a, k, i) == spec_fetch_calls(c, b, k, j),
    decreases a.len() - i,
{
    if i < a.len() {
        assert(a[i + 0] == b[j + 0]);
        assert(a[i] == b[j]);
        assert forall|m: int| 0 <= m < a.len() - (i + 1) implies #[trigger] a[(i + 1) + m] == b[(j
            + 1) + m] by {
            assert(a[i + (m + 1)] == b[j + (m + 1)]);
            assert(i + (m + 1) == (i + 1) + m);
        }
        if c.response(a[i], k) != 0 {
            lemma_fetch_align(c, a, b, (k + 1) as nat, i + 1, j + 1);
        } else {
            lemma_fetch_align(c, a, b, (k + 2) as nat, i + 1, j + 1);
        }
    }
}

proof fn lemma_fetch_split<T: HttpClient>(
    c: T,
    urls: Seq<Seq<char>>,
    sub: Seq<Seq<char>>,
    k: nat,
    i: int,
)
    requires
        0 <= i,
        i + sub.len() <= urls.len(),
        forall|j: int| 0 <= j < sub.len() ==> sub[j] == urls[i + j],
    ensures
        spec_fetch(c, urls, k, i) == spec_fetch(c, sub, k, 0) + spec_fetch(
            c,
            urls,
            spec_fetch_calls(c, sub, k, 0),
            i + sub.len(),
        ),
        spec_fetch_calls(c, urls, k, i) == spec_fetch_calls(
            c,
            urls,
            spec_fetch_calls(c, sub, k, 0),
            i + sub.len(),
        ),
    decreases sub.len(),
{
    if sub.len() == 0 {
        assert(spec_fetch(c, sub, k, 0) =~= Seq::<u16>::empty());
        assert(spec_fetch_calls(c, sub, k, 0) == k);
        assert(Seq::<u16>::empty() + spec_fetch(c, urls, k, i) =~= spec_fetch(c, urls, k, i));
    } else {
        assert(sub[0] == urls[i]);
        let used: nat = if c.response(urls[i], k) != 0 {
            1
        } else {
            2
        };
        let k2 = (k + used) as nat;
        let rest = sub.drop_first();
        assert forall|j: int| 0 <= j < rest.len() implies rest[j] == urls[i + 1 + j] by {
            assert(rest[j] == sub[j + 1]);
        }
        lemma_fetch_split(c, urls, rest, k2, i + 1);
        assert forall|m: int| 0 <= m < sub.len() - 1 implies #[trigger] sub[1 + m] == rest[0
            + m] by {
            assert(rest[m] == sub[m + 1]);
        }
        lemma_fetch_align(c, sub, rest, k2, 1, 0);
        let head = if c.response(urls[i], k) != 0 {
            seq![c.response(urls[i], k)]
        } else {
            seq![c.response(urls[i], (k + 1) as nat)]
        };
        assert(spec_fetch(c, sub, k, 0) == head + spec_fetch(c, sub, k2, 1));
        assert(spec_fetch_calls(c, sub, k, 0) == spec_fetch_calls(c, sub, k2, 1));
        assert(spec_fetch(c, urls, k, i) == head + spec_fetch(c, urls, k2, i + 1));
        assert(head + (spec_fetch(c, rest, k2, 0) + spec_fetch(
            c,
            urls,
            spec_fetch_calls(c, rest, k2, 0),
            i + 1 + rest.len(),
        )) =~= (head + spec_fetch(c, rest, k2, 0)) + spec_fetch(
            c,
            urls,
            spec_fetch_calls(c, rest, k2, 0),
            i + sub.len(),
        ));
    }
}

proof fn lemma_diff_concat(
    a: Seq<WebsiteView>,
    s: Seq<u16>,
    b: Seq<WebsiteView>,
    t: Seq<u16>,
    ts: Seq<char>,
)
    requires
        a.len() == s.len(),
    ensures
        spec_diff(a + b, s + t, ts) == spec_diff(a, s, ts) + spec_diff(b, t, ts),
    decreases a.len(),
{
    if a.len() == 0 {
        assert(a + b =~= b);
        assert(s + t =~= t);
        assert(Seq::<WebsiteView>::empty() + spec_diff(b, t, ts) =~= spec_diff(b, t, ts));
    } else {
        assert((a + b).drop_first() =~= a.drop_first() + b);
        assert((s + t).drop_first() =~= s.drop_first() + t);
        lemma_diff_concat(a.drop_first(), s.drop_first(), b, t, ts);
        assert((a + b)[0] == a[0]);
        assert((s + t)[0] == s[0]);
        if a[0].status != s[0] as int {
            assert(seq![crate::http::spec_refreshed(a[0], s[0], ts)] + (spec_diff(
                a.drop_first(),
                s.drop_first(),
                ts,
            ) + spec_diff(b, t, ts)) =~= (seq![crate::http::spec_refreshed(a[0], s[0], ts)]
                + spec_diff(a.drop_first(), s.drop_first(), ts)) + spec_diff(b, t, ts));
        }
    }
}

/// One gate-read-probe-diff pass over the whole store, reading the sites in
/// pages of 20: when the baseline is available and every page read succeeds, the
/// result is exactly the changed subset of the store against the statuses
/// the transport yields, stamped with `timestamp`; a closed gate yields no
/// changed sites and no probing; a failed page read is handed back.
pub fn collect_changed_sites<S: SiteStore, T: HttpClient>(
    store: &S,
    client: &mut T,
    baseline_sites: &Vec<String>,
    timestamp: &str,
) -> (r: Result<Vec<Website>, StoreError>)
    requires
        store.sites().len() <= u64::MAX - 20,
    ensures
        forall|u: Seq<char>, k: nat| final(client).response(u, k) == old(client).response(u, k),
        forall|u: Seq<char>| final(client).reachable(u) == old(client).reachable(u),
        !spec_gate_open(*old(client), baseline_sites.deep_view()) ==> (r matches Ok(v) && v@.len()
            == 0 && final(client).calls() == old(client).calls()),
        r matches Ok(v) ==> (spec_gate_open(*old(client), baseline_sites.deep_view()) ==> (
        v.deep_view() == spec_diff(
            store.sites(),
            spec_fetch(*old(client), spec_urls(store.sites()), old(client).calls(), 0),
            timestamp@,
        ) && final(client).calls() == spec_fetch_calls(
            *old(client),
            spec_urls(store.sites()),
            old(client).calls(),
            0,
        ))),
        r matches Err(e) ==> spec_gate_open(*old(client), baseline_sites.deep_view()),
{
    proof {
        lemma_gate_eq(*client, baseline_sites@, baseline_sites.deep_view());
    }
    if !check_websites(baseline_sites, client) {
        return Result::Ok(Vec::new());
    }
    let ghost c0 = *old(client);
    let ghost all = store.sites();
    let ghost urls = spec_urls(all);
    let ghost k0 = old(client).calls();
    let mut all_changed: Vec<Website> = Vec::new();
    let mut probed: Ghost<Seq<u16>> = Ghost(Seq::empty());
    let mut skip: u64 = 0;
    loop
        invariant
            c0 == *old(client),
            k0 == old(client).calls(),
            store.sites() == all,
            all.len() <= u64::MAX - 20,
            urls == spec_urls(all),
            urls.len() == all.len(),
            spec_gate_open(c0, baseline_sites.deep_view()),
            skip as int <= all.len() + 20,
            probed@.len() == if skip as int <= all.len() {
                skip as int
            } else {
                all.len() as int
            },
            forall|u: Seq<char>, k: nat| client.response(u, k) == c0.response(u, k),
            forall|u: Seq<char>| client.reachable(u) == c0.reachable(u),
            spec_fetch(c0, urls, k0, 0) == probed@ + spec_fetch(
                c0,
                urls,
                client.calls(),
                probed@.len() as int,
            ),
            spec_fetch_calls(c0, urls, k0, 0) == spec_fetch_calls(
                c0,
                urls,
                client.calls(),
                probed@.len() as int,
            ),
            all_changed.deep_view() == spec_diff(
                all.take(probed@.len() as int),
                probed@,
                timestamp@,
            ),
        ensures
            forall|u: Seq<char>, k: nat| client.response(u, k) == c0.response(u, k),
            forall|u: Seq<char>| client.reachable(u) == c0.reachable(u),
            client.calls() == spec_fetch_calls(c0, urls, k0, 0),
            all_changed.deep_view() == spec_diff(all, spec_fetch(c0, urls, k0, 0), timestamp@),
        decreases all.len() + 20 - skip,
    {
        let websites = match store.get_sites(skip, 20) {
            Result::Ok(sites) => sites,
            Result::Err(e) => {
                return Result::Err(e);
            },
        };
        if websites.len() == 0 {
            proof {
                assert(websites.deep_view().len() == 0);
                assert(skip as int >= all.len());
                assert(probed@.len() == all.len());
                assert(spec_fetch(c0, urls, client.calls(), all.len() as int) =~= Seq::<
                    u16,
                >::empty());
                assert(probed@ + Seq::<u16>::empty() =~= probed@);
                assert(all.take(all.len() as int) =~= all);
            }
            break;
        }
        let ghost seen = probed@.len() as int;
        let ghost page_dv = websites.deep_view();
        let ghost page_urls = spec_urls(page_dv);
        let ghost k_cur = client.calls();
        let ghost cp = *client;
        proof {
            assert(page_dv == all.subrange(seen, seen + page_dv.len()));
            assert(skip as int == seen);
            assert forall|j: int| 0 <= j < page_urls.len() implies page_urls[j] == urls[seen + j] by {
                assert(page_urls[j] == page_dv[j].url);
                assert(urls[seen + j] == all[seen + j].url);
            }
        }
        let new_statuses = fetch_website_statuses(&websites, client);
        let changed_in_batch = diff_websites(&websites, &new_statuses, timestamp);
        let mut m: usize = 0;
        proof {
            lemma_fetch_congruent(cp, c0, page_urls, k_cur as nat, 0);
            lemma_fetch_split(c0, urls, page_urls, k_cur as nat, seen);
            assert(new_statuses@ == spec_fetch(c0, page_urls, k_cur as nat, 0));
            assert(client.calls() == spec_fetch_calls(c0, page_urls, k_cur as nat, 0));
            lemma_diff_concat(all.take(seen), probed@, page_dv, new_statuses@, timestamp@);
            assert(all.take(seen) + page_dv =~= all.take(seen + page_dv.len()));
            probed@ = probed@ + new_statuses@;
            assert(all_changed.deep_view() + changed_in_batch.deep_view() == spec_diff(
                all.take(probed@.len() as int),
                probed@,
                timestamp@,
            ));
        }
        while m < changed_in_batch.len()
            invariant
                m <= changed_in_batch@.len(),
                all_changed.deep_view() + changed_in_batch.deep_view().skip(m as int)
                    == spec_diff(all.take(probed@.len() as int), probed@, timestamp@),
            decreases changed_in_batch@.len() - m,
        {
            let ghost pre = all_changed.deep_view();
            let ghost batch_dv = changed_in_batch.deep_view();
            let rec = changed_in_batch[m].duplicate();
            all_changed.push(rec);
            proof {
                assert(all_changed.deep_view() =~= pre.push(batch_dv[m as int]));
                assert(pre.push(batch_dv[m as int]) + batch_dv.skip(m + 1) =~= pre + batch_dv.skip(
                    m as int,
                ));
            }
            m += 1;
        }
        proof {
            assert(changed_in_batch.deep_view().skip(changed_in_batch@.len() as int) =~= Seq::<
                WebsiteView,
            >::empty());
            assert(all_changed.deep_view() + Seq::<WebsiteView>::empty() =~= all_changed.deep_view());
        }
        skip = skip + 20;
        proof {
            if skip as int <= all.len() {
                assert(probed@.len() == skip as int);
            } else {
                assert(probed@.len() == all.len());
            }
        }
    }
    Result::Ok(all_changed)
}

/// One poll read, as the scheduler uses it: gate, then paged read, probe and
/// diff. Any store failure or a closed gate yields an empty changed set.
pub fn get_changed_sites<S: SiteStore, T: HttpClient>(
    store: &S,
    client: &mut T,
    baseline_sites: &Vec<String>,
) -> (r: Vec<Website>)
    requires
        store.sites().len() <= u64::MAX - 20,
    ensures
        forall|u: Seq<char>, k: nat| final(client).response(u, k) == old(client).response(u, k),
        forall|u: Seq<char>| final(client).reachable(u) == old(client).reachable(u),
        !spec_gate_open(*old(client), baseline_sites.deep_view()) ==> r@.len() == 0,
        spec_gate_open(*old(client), baseline_sites.deep_view()) ==> (r@.len() == 0 || exists|
            ts: Seq<char>,
        |
            r.deep_view() == spec_diff(
                store.sites(),
                spec_fetch(*old(client), spec_urls(store.sites()), old(client).calls(), 0),
                ts,
            )),
{
    let timestamp = now_timestamp();
    match collect_changed_sites(store, client, baseline_sites, timestamp.as_str()) {
        Result::Ok(v) => {
            proof {
                if spec_gate_open(*old(client), baseline_sites.deep_view()) {
                    assert(v.deep_view() == spec_diff(
                        store.sites(),
                        spec_fetch(*old(client), spec_urls(store.sites()), old(client).calls(), 0),
                        timestamp@,
                    ));
                }
            }
            v
        },
        Result::Err(_) => Vec::new(),
    }
}

/// The write half of one cycle: alert every owner of a changed site first,
/// then persist the changed records. An empty changed set does nothing; a
/// failed write never retracts the alerts already sent.
pub fn handle_changed_websites<S: SiteStore, M: Messenger>(
    store: &mut S,
    bot: &mut M,
    changed_websites: &Vec<Website>,
) -> (r: Result<(), StoreError>)
    ensures
        changed_websites@.len() == 0 ==> (final(store).sites() == old(store).sites()
            && final(bot).sent() == old(bot).sent() && r is Ok),
        changed_websites@.len() > 0 ==> final(bot).sent() == old(bot).sent() + spec_alerts(
            changed_websites.deep_view(),
        ),
        changed_websites@.len() > 0 && r is Ok ==> final(store).sites() == spec_write_back(
            old(store).sites(),
            changed_websites.deep_view(),
        ),
        changed_websites@.len() > 0 && r is Err ==> exists|k: int|
            0 <= k <= changed_websites.deep_view().len() && final(store).sites()
                == spec_write_back(old(store).sites(), changed_websites.deep_view().take(k)),
{
    if changed_websites.len() == 0 {
        return Result::Ok(());
    }
    alert_users(bot, changed_websites);
    proof {
        assert(old(bot).sent() + spec_alerts(changed_websites.deep_view()) == bot.sent());
    }
    store.update_db(changed_websites)
}

} // verus!
