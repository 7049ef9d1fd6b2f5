use vstd::prelude::*;

use crate::parse_url::str_eq;
use crate::site::{Website, WebsiteView};

verus! {

/// The transport a probe runs over. An implementation's observable behaviour
/// is modelled by three spec functions: `reachable` says which URLs a plain
/// connectivity check accepts, `response` is the table of status codes the
/// transport would yield, indexed by URL and by a running call counter, and
/// `calls` is that counter. What is proved through this interface holds of
/// implementations that meet these contracts; an implementation outside the
/// library — the real network client — is trusted to behave as some such
/// table.
pub trait HttpClient: Sized {
    /// Which URLs a connectivity check accepts. A transport outside the
    /// library is modelled as accepting none unless it says otherwise.
    open spec fn reachable(&self, url: Seq<char>) -> bool {
        false
    }

    /// The status the call numbered `call` yields for `url`. A transport
    /// outside the library is modelled as always failing unless it says
    /// otherwise.
    open spec fn response(&self, url: Seq<char>, call: nat) -> u16 {
        0
    }

    /// How many status calls were made so far.
    open spec fn calls(&self) -> nat {
        0
    }

    fn check_url(&self, url: &str) -> (r: bool)
        ensures
            r == self.reachable(url@),
    ;

    fn get_status_code(&mut self, url: &str) -> (r: u16)
        ensures
            r == old(self).response(url@, old(self).calls()),
            final(self).calls() == old(self).calls() + 1,
            forall|u: Seq<char>, k: nat| final(self).response(u, k) == old(self).response(u, k),
            forall|u: Seq<char>| final(self).reachable(u) == old(self).reachable(u),
    ;
}

/// The status one probe-with-retry yields: the first attempt's response,
/// unless that is 0, in which case the second attempt's.
pub open spec fn spec_get_status<T: HttpClient>(c: T, url: Seq<char>) -> u16 {
    if c.response(url, c.calls()) != 0 {
        c.response(url, c.calls())
    } else {
        c.response(url, (c.calls() + 1) as nat)
    }
}

/// How many attempts one probe-with-retry makes: one on success, two when the
/// first attempt yields 0.
pub open spec fn spec_get_status_attempts<T: HttpClient>(c: T, url: Seq<char>) -> nat {
    if c.response(url, c.calls()) != 0 {
        1
    } else {
        2
    }
}

/// One HTTP status check for a site, retrying exactly once when the first
/// attempt reports failure (status 0).
pub fn get_status<T: HttpClient>(client: &mut T, url: &str) -> (r: u16)
    ensures
        r == spec_get_status(*old(client), url@),
        final(client).calls() == old(client).calls() + spec_get_status_attempts(
            *old(client),
            url@,
        ),
        forall|u: Seq<char>, k: nat| final(client).response(u, k) == old(client).response(u, k),
        forall|u: Seq<char>| final(client).reachable(u) == old(client).reachable(u),
{
    let status = client.get_status_code(url);
    if status == 0 {
        client.get_status_code(url)
    } else {
        status
    }
}

/// Retry-once law: a transport whose first attempt fails with 0 yields the
/// second attempt's status after exactly two attempts; a transport whose
/// first attempt succeeds yields that status after exactly one.
pub proof fn lemma_retry_once<T: HttpClient>(c: T, url: Seq<char>)
    ensures
        c.response(url, c.calls()) == 0 ==> spec_get_status(c, url) == c.response(
            url,
            (c.calls() + 1) as nat,
        ) && spec_get_status_attempts(c, url) == 2,
        c.response(url, c.calls()) != 0 ==> spec_get_status(c, url) == c.response(url, c.calls())
            && spec_get_status_attempts(c, url) == 1,
{
}

/// The record a changed site is rewritten to: same identity, same URL, same
/// owner, but the fresh status and the current timestamp.
pub open spec fn spec_refreshed(w: WebsiteView, st: u16, ts: Seq<char>) -> WebsiteView {
    WebsiteView {
        id: w.id,
        url: w.url,
        last_updated: ts,
        status: st as int,
        telegram_id: w.telegram_id,
    }
}

/// The changed subset: sites are zipped with their freshly probed statuses,
/// and exactly those whose stored status differs are kept, refreshed. A site
/// without a fresh status (past the end of the shorter list) is not reported.
pub open spec fn spec_diff(webs: Seq<WebsiteView>, statuses: Seq<u16>, ts: Seq<char>) -> Seq<
    WebsiteView,
>
    decreases webs.len(),
{
    if webs.len() == 0 || statuses.len() == 0 {
        Seq::empty()
    } else {
        let rest = spec_diff(webs.drop_first(), statuses.drop_first(), ts);
        if webs[0].status != statuses[0] as int {
            seq![spec_refreshed(webs[0], statuses[0], ts)] + rest
        } else {
            rest
        }
    }
}

proof fn lemma_diff_push(webs: Seq<WebsiteView>, statuses: Seq<u16>, w: WebsiteView, st: u16, ts: Seq<char>)
    requires
        webs.len() == statuses.len(),
    ensures
        spec_diff(webs.push(w), statuses.push(st), ts) == spec_diff(webs, statuses, ts) + (if w.status != st as int {
            seq![spec_refreshed(w, st, ts)]
        } else {
            Seq::<WebsiteView>::empty()
        }),
    decreases webs.len(),
{
    let tail = if w.status != st as int {
        seq![spec_refreshed(w, st, ts)]
    } else {
        Seq::<WebsiteView>::empty()
    };
    if webs.len() == 0 {
        assert(webs.push(w).drop_first() =~= webs);
        assert(statuses.push(st).drop_first() =~= statuses);
        assert(spec_diff(webs.push(w), statuses.push(st), ts) =~= spec_diff(webs, statuses, ts) + tail);
    } else {
        assert(webs.push(w).drop_first() =~= webs.drop_first().push(w));
        assert(statuses.push(st).drop_first() =~= statuses.drop_first().push(st));
        lemma_diff_push(webs.drop_first(), statuses.drop_first(), w, st, ts);
        assert(spec_diff(webs.push(w), statuses.push(st), ts) =~= spec_diff(webs, statuses, ts) + tail);
    }
}

/// The change detector, as a pure function of the site list, the fresh
/// statuses and the timestamp the changed records are stamped with.
pub fn diff_websites(webs: &Vec<Website>, statuses: &Vec<u16>, timestamp: &str) -> (r: Vec<
    Website,
>)
    ensures
        r.deep_view() == spec_diff(webs.deep_view(), statuses@, timestamp@),
{
    let mut r: Vec<Website> = Vec::new();
    let n: usize = if webs.len() < statuses.len() {
        webs.len()
    } else {
        statuses.len()
    };
    let mut i: usize = 0;
    while i < n
        invariant
            i <= n,
            n <= webs.len(),
            n <= statuses.len(),
            n == if webs@.len() < statuses@.len() {
                webs@.len() as int
            } else {
                statuses@.len() as int
            },
            r.deep_view() == spec_diff(
                webs.deep_view().take(i as int),
                statuses@.take(i as int),
                timestamp@,
            ),
        decreases n - i,
    {
        proof {
            lemma_diff_push(
                webs.deep_view().take(i as int),
                statuses@.take(i as int),
                webs.deep_view()[i as int],
                statuses@[i as int],
                timestamp@,
            );
            assert(webs.deep_view().take(i + 1) =~= webs.deep_view().take(i as int).push(
                webs.deep_view()[i as int],
            ));
            assert(statuses@.take(i + 1) =~= statuses@.take(i as int).push(statuses@[i as int]));
        }
        let w = &webs[i];
        let new_status = statuses[i];
        if w.status != new_status as i32 {
            let updated = Website {
                id: w.id,
                url: w.url.clone(),
                last_updated: String::from_str(timestamp),
                status: new_status as i32,
                telegram_id: w.telegram_id.clone(),
            };
            r.push(updated);
        }
        i += 1;
    }
    proof {
        lemma_diff_ignores_tail(webs.deep_view(), statuses@, timestamp@);
        assert(webs.deep_view().take(n as int) =~= if webs@.len() < statuses@.len() {
            webs.deep_view()
        } else {
            webs.deep_view().take(statuses@.len() as int)
        });
        assert(statuses@.take(n as int) =~= if webs@.len() < statuses@.len() {
            statuses@.take(webs@.len() as int)
        } else {
            statuses@
        });
    }
    r
}

proof fn lemma_diff_ignores_tail(webs: Seq<WebsiteView>, statuses: Seq<u16>, ts: Seq<char>)
    ensures
        webs.len() <= statuses.len() ==> spec_diff(webs, statuses.take(webs.len() as int), ts)
            == spec_diff(webs, statuses, ts),
        statuses.len() <= webs.len() ==> spec_diff(webs.take(statuses.len() as int), statuses, ts)
            == spec_diff(webs, statuses, ts),
    decreases webs.len() + statuses.len(),
{
    if webs.len() == 0 || statuses.len() == 0 {
        assert(webs.len() <= statuses.len() ==> statuses.take(webs.len() as int) =~= statuses.take(
            webs.len() as int,
        ));
    } else {
        lemma_diff_ignores_tail(webs.drop_first(), statuses.drop_first(), ts);
        if webs.len() <= statuses.len() {
            assert(statuses.take(webs.len() as int).drop_first() =~= statuses.drop_first().take(
                webs.drop_first().len() as int,
            ));
        }
        if statuses.len() <= webs.len() {
            assert(webs.take(statuses.len() as int).drop_first() =~= webs.drop_first().take(
                statuses.drop_first().len() as int,
            ));
        }
    }
}

/// Relies on chrono's formatting of `DateTime<Utc>`: renders the current
/// system time as "year-month-day hour:minute:second". The clock decides the
/// value, so nothing is promised of it.
#[verifier::external_body]
pub(crate) fn now_timestamp() -> (r: String) {
    let datetime: chrono::DateTime<chrono::Utc> = std::time::SystemTime::now().into();
    datetime.format("%Y-%m-%d %H:%M:%S").to_string()
}

/// The changed subset of the given sites against their freshly probed
/// statuses, stamped with the current time.
pub fn find_changed_websites(original_webs: &Vec<Website>, new_statuses: &Vec<u16>) -> (r: Vec<
    Website,
>)
    ensures
        exists|ts: Seq<char>|
            r.deep_view() == spec_diff(original_webs.deep_view(), new_statuses@, ts),
{
    let timestamp = now_timestamp();
    let r = diff_websites(original_webs, new_statuses, timestamp.as_str());
    proof {
        assert(r.deep_view() == spec_diff(original_webs.deep_view(), new_statuses@, timestamp@));
    }
    r
}

/// No false positives: when every freshly probed status equals the stored
/// one, the change detector reports nothing.
pub proof fn lemma_diff_no_changes(webs: Seq<WebsiteView>, statuses: Seq<u16>, ts: Seq<char>)
    requires
        forall|i: int| 0 <= i < webs.len() && i < statuses.len() ==> webs[i].status == statuses[i] as int,
    ensures
        spec_diff(webs, statuses, ts) == Seq::<WebsiteView>::empty(),
    decreases webs.len(),
{
    if webs.len() == 0 || statuses.len() == 0 {
    } else {
        assert forall|i: int|
            0 <= i < webs.drop_first().len() && i < statuses.drop_first().len() implies webs.drop_first()[i].status
            == statuses.drop_first()[i] as int by {
            assert(webs.drop_first()[i] == webs[i + 1]);
            assert(statuses.drop_first()[i] == statuses[i + 1]);
        }
        lemma_diff_no_changes(webs.drop_first(), statuses.drop_first(), ts);
    }
}

/// Exactly one divergence yields exactly one record: the site at the
/// diverging position — identified by its position in the list, not by its
/// URL — refreshed with the new status.
pub proof fn lemma_diff_one_change(
    webs: Seq<WebsiteView>,
    statuses: Seq<u16>,
    ts: Seq<char>,
    k: int,
)
    requires
        webs.len() == statuses.len(),
        0 <= k < webs.len(),
        webs[k].status != statuses[k] as int,
        forall|i: int| 0 <= i < webs.len() && i != k ==> webs[i].status == statuses[i] as int,
    ensures
        spec_diff(webs, statuses, ts) == seq![spec_refreshed(webs[k], statuses[k], ts)],
    decreases k,
{
    if k == 0 {
        assert forall|i: int|
            0 <= i < webs.drop_first().len() && i < statuses.drop_first().len() implies webs.drop_first()[i].status
            == statuses.drop_first()[i] as int by {
            assert(webs.drop_first()[i] == webs[i + 1]);
            assert(statuses.drop_first()[i] == statuses[i + 1]);
        }
        lemma_diff_no_changes(webs.drop_first(), statuses.drop_first(), ts);
        assert(spec_diff(webs, statuses, ts) =~= seq![spec_refreshed(webs[k], statuses[k], ts)]);
    } else {
        assert forall|i: int|
            0 <= i < webs.drop_first().len() && i != k - 1 implies webs.drop_first()[i].status
            == statuses.drop_first()[i] as int by {
            assert(webs.drop_first()[i] == webs[i + 1]);
            assert(statuses.drop_first()[i] == statuses[i + 1]);
        }
        assert(webs.drop_first()[k - 1] == webs[k]);
        assert(statuses.drop_first()[k - 1] == statuses[k]);
        lemma_diff_one_change(webs.drop_first(), statuses.drop_first(), ts, k - 1);
        assert(webs[0].status == statuses[0] as int);
        assert(spec_diff(webs, statuses, ts) =~= seq![spec_refreshed(webs[k], statuses[k], ts)]);
    }
}

/// A deterministic transport for tests and proofs: status calls consume a
/// script of responses in order, whatever the URL, and the connectivity
/// check accepts exactly the URLs on `up_urls`.
pub struct ScriptedClient {
    pub remaining: Vec<u16>,
    pub past: Ghost<Seq<u16>>,
    pub up_urls: Vec<String>,
}

impl ScriptedClient {
    /// A transport that will answer status calls with `script`, in order, and
    /// 0 once the script is exhausted; its connectivity check accepts exactly
    /// `up_urls`.
    pub fn new(script: Vec<u16>, up_urls: Vec<String>) -> (r: ScriptedClient)
        ensures
            r.remaining@ == script@,
            r.past@ == Seq::<u16>::empty(),
            r.up_urls@ == up_urls@,
            r.calls() == 0,
    {
        ScriptedClient { remaining: script, past: Ghost(Seq::empty()), up_urls }
    }
}

impl HttpClient for ScriptedClient {
    open spec fn reachable(&self, url: Seq<char>) -> bool {
        exists|i: int| 0 <= i < self.up_urls@.len() && self.up_urls@[i]@ == url
    }

    open spec fn response(&self, url: Seq<char>, call: nat) -> u16 {
        if call < self.past@.len() {
            self.past@[call as int]
        } else if call - self.past@.len() < self.remaining@.len() {
            self.remaining@[call - self.past@.len()]
        } else {
            0
        }
    }

    open spec fn calls(&self) -> nat {
        self.past@.len()
    }

    fn check_url(&self, url: &str) -> (r: bool) {
        let mut i: usize = 0;
        while i < self.up_urls.len()
            invariant
                i <= self.up_urls@.len(),
                forall|j: int| 0 <= j < i ==> self.up_urls@[j]@ != url@,
            decreases self.up_urls@.len() - i,
        {
            if str_eq(self.up_urls[i].as_str(), url) {
                return true;
            }
            i += 1;
        }
        false
    }

    fn get_status_code(&mut self, url: &str) -> (r: u16) {
        let r: u16 = if self.remaining.len() > 0 {
            self.remaining.remove(0)
        } else {
            0
        };
        proof {
            self.past@ = self.past@.push(r);
        }
        assert forall|u: Seq<char>, k: nat| self.response(u, k) == old(self).response(u, k) by {
            if k < old(self).past@.len() {
            } else if k == old(self).past@.len() {
            } else {
                assert(k - self.past@.len() == k - old(self).past@.len() - 1);
            }
        }
        assert forall|u: Seq<char>| self.reachable(u) == old(self).reachable(u) by {
            assert(self.up_urls@ == old(self).up_urls@);
            if old(self).reachable(u) {
                let i = choose|i: int|
                    0 <= i < old(self).up_urls@.len() && old(self).up_urls@[i]@ == u;
                assert(self.up_urls@[i]@ == u);
            }
            if self.reachable(u) {
                let i = choose|i: int| 0 <= i < self.up_urls@.len() && self.up_urls@[i]@ == u;
                assert(old(self).up_urls@[i]@ == u);
            }
        }
        r
    }
}

} // verus!
