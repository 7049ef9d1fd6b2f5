use vstd::prelude::*;
use vstd::multiset::Multiset;

use crate::numfmt::{spec_int_str, spec_udigits};
use crate::parse_url::{contains_char, parse_host_port, url_host, url_ok};
use crate::site::{Website, WebsiteView};

verus! {

/// The host the lenient normalizer finds: the input parsed as it stands, or
/// with `http://` prepended when that fails, keeping only a host that
/// carries a dot (so a TLD is present); ports and paths are dropped.
pub open spec fn spec_extract_hostname(s: Seq<char>) -> Seq<char> {
    let host = if url_ok(s) {
        url_host(s)
    } else if url_ok("http://"@ + s) {
        url_host("http://"@ + s)
    } else {
        Seq::<char>::empty()
    };
    if host.contains('.') {
        host
    } else {
        Seq::empty()
    }
}

/// Normalizes free-text input to a bare dotted host, or the empty string.
pub fn extract_hostname(input: &str) -> (r: String)
    ensures
        r@ == spec_extract_hostname(input@),
{
    let host: String = match parse_host_port(input) {
        Option::Some((h, _)) => h,
        Option::None => {
            let mut t = String::from_str("http://");
            t.append(input);
            match parse_host_port(t.as_str()) {
                Option::Some((h, _)) => h,
                Option::None => String::new(),
            }
        },
    };
    if contains_char(host.as_str(), '.') {
        host
    } else {
        String::new()
    }
}

/// Produces both scheme variants of one normalized host: `(true, http,
/// https)` for input that normalizes, `(false, "", "")` otherwise.
pub fn read_url(input: &str) -> (r: (bool, String, String))
    ensures
        r.0 == (spec_extract_hostname(input@).len() != 0),
        spec_extract_hostname(input@).len() == 0 ==> r.1@ == Seq::<char>::empty() && r.2@
            == Seq::<char>::empty(),
        spec_extract_hostname(input@).len() != 0 ==> r.1@ == "http://"@ + spec_extract_hostname(
            input@,
        ) && r.2@ == "https://"@ + spec_extract_hostname(input@),
{
    let url = extract_hostname(input);
    if url.as_str().unicode_len() == 0 {
        return (false, String::new(), String::new());
    }
    let mut http_url = String::from_str("http://");
    http_url.append(url.as_str());
    let mut https_url = String::from_str("https://");
    https_url.append(url.as_str());
    (true, http_url, https_url)
}

/// The first record in `current` that carries this identity.
pub open spec fn spec_find_by_id(current: Seq<WebsiteView>, id: Option<u64>) -> Option<WebsiteView>
    decreases current.len(),
{
    if current.len() == 0 {
        Option::None
    } else if current[0].id == id {
        Option::Some(current[0])
    } else {
        spec_find_by_id(current.drop_first(), id)
    }
}

/// The fresh records whose status differs from the stored record carrying
/// the same identity; a fresh record whose identity has no stored
/// counterpart is not reported, whatever URLs coincide.
pub open spec fn spec_compare(current: Seq<WebsiteView>, fresh: Seq<WebsiteView>) -> Seq<
    WebsiteView,
>
    decreases fresh.len(),
{
    if fresh.len() == 0 {
        Seq::empty()
    } else {
        let rest = spec_compare(current, fresh.drop_first());
        match spec_find_by_id(current, fresh[0].id) {
            Option::Some(c) => if c.status != fresh[0].status {
                seq![fresh[0]] + rest
            } else {
                rest
            },
            Option::None => rest,
        }
    }
}

fn same_id(a: Option<u64>, b: Option<u64>) -> (r: bool)
    ensures
        r == (a == b),
{
    match (a, b) {
        (Option::Some(x), Option::Some(y)) => x == y,
        (Option::None, Option::None) => true,
        _ => false,
    }
}

fn find_index_by_id(current: &Vec<Website>, id: Option<u64>) -> (r: Option<usize>)
    ensures
        (match r {
            Option::Some(ix) => ix < current@.len() && spec_find_by_id(current.deep_view(), id)
                == Option::Some(current.deep_view()[ix as int]),
            Option::None => spec_find_by_id(current.deep_view(), id) is None,
        }),
{
    let ghost dv = current.deep_view();
    proof {
        assert(dv.skip(0) =~= dv);
    }
    let mut j: usize = 0;
    while j < current.len()
        invariant
            j <= dv.len(),
            dv == current.deep_view(),
            dv.len() == current@.len(),
            spec_find_by_id(dv, id) == spec_find_by_id(dv.skip(j as int), id),
        decreases dv.len() - j,
    {
        if same_id(current[j].id, id) {
            proof {
                assert(dv.skip(j as int)[0] == dv[j as int]);
            }
            return Option::Some(j);
        }
        proof {
            assert(dv.skip(j as int)[0] == dv[j as int]);
            assert(dv.skip(j as int).drop_first() =~= dv.skip(j + 1));
        }
        j += 1;
    }
    proof {
        assert(dv.skip(dv.len() as int) =~= Seq::<WebsiteView>::empty());
    }
    Option::None
}

proof fn lemma_compare_push(current: Seq<WebsiteView>, fresh: Seq<WebsiteView>, w: WebsiteView)
    ensures
        spec_compare(current, fresh.push(w)) == spec_compare(current, fresh) + (match spec_find_by_id(
            current,
            w.id,
        ) {
            Option::Some(c) => if c.status != w.status {
                seq![w]
            } else {
                Seq::<WebsiteView>::empty()
            },
            Option::None => Seq::<WebsiteView>::empty(),
        }),
    decreases fresh.len(),
{
    let tail = (match spec_find_by_id(current, w.id) {
        Option::Some(c) => if c.status != w.status {
            seq![w]
        } else {
            Seq::<WebsiteView>::empty()
        },
        Option::None => Seq::<WebsiteView>::empty(),
    });
    if fresh.len() == 0 {
        assert(fresh.push(w).drop_first() =~= fresh);
        assert(spec_compare(current, fresh) == Seq::<WebsiteView>::empty());
        assert(spec_compare(current, fresh.push(w)) =~= spec_compare(current, fresh) + tail);
    } else {
        assert(fresh.push(w).drop_first() =~= fresh.drop_first().push(w));
        lemma_compare_push(current, fresh.drop_first(), w);
        assert(spec_compare(current, fresh.push(w)) =~= spec_compare(current, fresh) + tail);
    }
}

/// The identity-matching change detector: keeps each fresh record whose
/// status differs from the stored record with the same identity.
pub fn compare_websites(current_websites: &Vec<Website>, webs: &Vec<Website>) -> (r: Vec<Website>)
    ensures
        r.deep_view() == spec_compare(current_websites.deep_view(), webs.deep_view()),
{
    let mut changed: Vec<Website> = Vec::new();
    let mut i: usize = 0;
    while i < webs.len()
        invariant
            i <= webs@.len(),
            changed.deep_view() == spec_compare(
                current_websites.deep_view(),
                webs.deep_view().take(i as int),
            ),
        decreases webs@.len() - i,
    {
        let ghost pre = changed.deep_view();
        let web = &webs[i];
        match find_index_by_id(current_websites, web.id) {
            Option::Some(ix) => {
                if current_websites[ix].status != web.status {
                    changed.push(web.duplicate());
                    proof {
                        assert(changed.deep_view() =~= pre.push(webs.deep_view()[i as int]));
                    }
                }
            },
            Option::None => {},
        }
        proof {
            lemma_compare_push(
                current_websites.deep_view(),
                webs.deep_view().take(i as int),
                webs.deep_view()[i as int],
            );
            assert(webs.deep_view().take(i + 1) =~= webs.deep_view().take(i as int).push(
                webs.deep_view()[i as int],
            ));
            assert(changed.deep_view() =~= spec_compare(
                current_websites.deep_view(),
                webs.deep_view().take(i + 1),
            ));
        }
        i += 1;
    }
    proof {
        assert(webs.deep_view().take(webs@.len() as int) =~= webs.deep_view());
    }
    changed
}

/// What one record contributes to the timestamp branch of the batched
/// update statement.
pub open spec fn spec_when_time(w: WebsiteView) -> Seq<char>
    recommends
        w.id is Some,
{
    " WHEN "@ + spec_udigits(w.id.unwrap() as nat) + " THEN '"@ + w.last_updated + "'"@
}

/// What one record contributes to the status branch of the batched update
/// statement.
pub open spec fn spec_when_status(w: WebsiteView) -> Seq<char>
    recommends
        w.id is Some,
{
    " WHEN "@ + spec_udigits(w.id.unwrap() as nat) + " THEN "@ + spec_int_str(w.status)
}

/// The contributions of all records, concatenated in list order.
pub open spec fn spec_concat_map(webs: Seq<WebsiteView>, f: spec_fn(WebsiteView) -> Seq<char>) -> Seq<
    char,
>
    decreases webs.len(),
{
    if webs.len() == 0 {
        Seq::empty()
    } else {
        f(webs[0]) + spec_concat_map(webs.drop_first(), f)
    }
}

/// The record identities, written in decimal and joined with commas.
pub open spec fn spec_ids_joined(webs: Seq<WebsiteView>) -> Seq<char>
    decreases webs.len(),
{
    if webs.len() == 0 {
        Seq::empty()
    } else if webs.len() == 1 {
        spec_udigits(webs[0].id.unwrap() as nat)
    } else {
        spec_udigits(webs[0].id.unwrap() as nat) + ","@ + spec_ids_joined(webs.drop_first())
    }
}

/// The batched write-back statement: one conditional update that rewrites
/// the timestamp and status of exactly the given identities.
pub open spec fn spec_update_sql(webs: Seq<WebsiteView>) -> Seq<char> {
    "UPDATE websites SET"@ + " last_checked_time = CASE id"@ + spec_concat_map(
        webs,
        |w: WebsiteView| spec_when_time(w),
    ) + " END,"@ + " status = CASE id"@ + spec_concat_map(
        webs,
        |w: WebsiteView| spec_when_status(w),
    ) + " END WHERE id IN ("@ + spec_ids_joined(webs) + ")"@
}

proof fn lemma_concat_map_push(
    webs: Seq<WebsiteView>,
    f: spec_fn(WebsiteView) -> Seq<char>,
    w: WebsiteView,
)
    ensures
        spec_concat_map(webs.push(w), f) == spec_concat_map(webs, f) + f(w),
    decreases webs.len(),
{
    if webs.len() == 0 {
        assert(webs.push(w).drop_first() =~= webs);
        assert(spec_concat_map(webs.push(w), f) =~= spec_concat_map(webs, f) + f(w));
    } else {
        assert(webs.push(w).drop_first() =~= webs.drop_first().push(w));
        lemma_concat_map_push(webs.drop_first(), f, w);
        assert(spec_concat_map(webs.push(w), f) =~= spec_concat_map(webs, f) + f(w));
    }
}

proof fn lemma_ids_joined_push(webs: Seq<WebsiteView>, w: WebsiteView)
    ensures
        spec_ids_joined(webs.push(w)) == if webs.len() == 0 {
            spec_udigits(w.id.unwrap() as nat)
        } else {
            spec_ids_joined(webs) + ","@ + spec_udigits(w.id.unwrap() as nat)
        },
    decreases webs.len(),
{
    if webs.len() == 0 {
        assert(webs.push(w)[0] == w);
    } else {
        assert(webs.push(w).drop_first() =~= webs.drop_first().push(w));
        lemma_ids_joined_push(webs.drop_first(), w);
        if webs.len() == 1 {
            assert(spec_ids_joined(webs.push(w)) =~= spec_ids_joined(webs) + ","@ + spec_udigits(
                w.id.unwrap() as nat,
            ));
        } else {
            assert(spec_ids_joined(webs.push(w)) =~= spec_ids_joined(webs) + ","@ + spec_udigits(
                w.id.unwrap() as nat,
            ));
        }
    }
}

fn u64_to_string(n: u64) -> (s: String)
    ensures
        s@ == spec_udigits(n as nat),
    decreases n,
{
    if n < 10 {
        crate::numfmt::u32_to_string(n as u32)
    } else {
        let mut s = u64_to_string(n / 10);
        s.append(crate::numfmt::u32_to_string((n % 10) as u32).as_str());
        s
    }
}

/// Builds the one-statement batched write-back for the given records, which
/// must all carry an identity: the generated update rewrites timestamp and
/// status for exactly those identities.
pub fn build_update_sql(webs: &Vec<Website>) -> (r: String)
    requires
        forall|i: int| 0 <= i < webs.deep_view().len() ==> (#[trigger] webs.deep_view()[i].id) is Some,
    ensures
        r@ == spec_update_sql(webs.deep_view()),
{
    let ghost dv = webs.deep_view();
    let mut sql = String::from_str("UPDATE websites SET");

    sql.append(" last_checked_time = CASE id");
    let mut i: usize = 0;
    while i < webs.len()
        invariant
            i <= dv.len(),
            dv == webs.deep_view(),
            forall|m: int| 0 <= m < dv.len() ==> (#[trigger] dv[m].id) is Some,
            sql@ == "UPDATE websites SET"@ + " last_checked_time = CASE id"@ + spec_concat_map(
                dv.take(i as int),
                |w: WebsiteView| spec_when_time(w),
            ),
        decreases dv.len() - i,
    {
        let w = &webs[i];
        sql.append(" WHEN ");
        match w.id {
            Option::Some(n) => sql.append(u64_to_string(n).as_str()),
            Option::None => {},
        }
        sql.append(" THEN '");
        sql.append(w.last_updated.as_str());
        sql.append("'");
        proof {
            lemma_concat_map_push(
                dv.take(i as int),
                |w: WebsiteView| spec_when_time(w),
                dv[i as int],
            );
            assert(dv.take(i + 1) =~= dv.take(i as int).push(dv[i as int]));
            assert(sql@ =~= "UPDATE websites SET"@ + " last_checked_time = CASE id"@
                + spec_concat_map(dv.take(i + 1), |w: WebsiteView| spec_when_time(w)));
        }
        i += 1;
    }
    sql.append(" END,");

    sql.append(" status = CASE id");
    let ghost prefix = sql@;
    let mut i: usize = 0;
    while i < webs.len()
        invariant
            i <= dv.len(),
            dv == webs.deep_view(),
            forall|m: int| 0 <= m < dv.len() ==> (#[trigger] dv[m].id) is Some,
            sql@ == prefix + spec_concat_map(
                dv.take(i as int),
                |w: WebsiteView| spec_when_status(w),
            ),
        decreases dv.len() - i,
    {
        let w = &webs[i];
        sql.append(" WHEN ");
        match w.id {
            Option::Some(n) => sql.append(u64_to_string(n).as_str()),
            Option::None => {},
        }
        sql.append(" THEN ");
        sql.append(crate::numfmt::i32_to_string(w.status).as_str());
        proof {
            lemma_concat_map_push(
                dv.take(i as int),
                |w: WebsiteView| spec_when_status(w),
                dv[i as int],
            );
            assert(dv.take(i + 1) =~= dv.take(i as int).push(dv[i as int]));
            assert(sql@ =~= prefix + spec_concat_map(
                dv.take(i + 1),
                |w: WebsiteView| spec_when_status(w),
            ));
        }
        i += 1;
    }
    sql.append(" END WHERE id IN (");

    let ghost prefix2 = sql@;
    let mut i: usize = 0;
    while i < webs.len()
        invariant
            i <= dv.len(),
            dv == webs.deep_view(),
            forall|m: int| 0 <= m < dv.len() ==> (#[trigger] dv[m].id) is Some,
            sql@ == prefix2 + spec_ids_joined(dv.take(i as int)),
        decreases dv.len() - i,
    {
        let w = &webs[i];
        if i > 0 {
            sql.append(",");
        }
        match w.id {
            Option::Some(n) => sql.append(u64_to_string(n).as_str()),
            Option::None => {},
        }
        proof {
            lemma_ids_joined_push(dv.take(i as int), dv[i as int]);
            assert(dv.take(i + 1) =~= dv.take(i as int).push(dv[i as int]));
            assert(sql@ =~= prefix2 + spec_ids_joined(dv.take(i + 1)));
        }
        i += 1;
    }
    sql.append(")");
    proof {
        assert(dv.take(dv.len() as int) =~= dv);
        assert(sql@ =~= spec_update_sql(dv));
    }
    sql
}

/// Lexicographic order on character sequences: the empty sequence first, a
/// proper prefix before what extends it, otherwise the first differing
/// character decides.
pub open spec fn spec_str_le(a: Seq<char>, b: Seq<char>) -> bool
    decreases a.len(),
{
    if a.len() == 0 {
        true
    } else if b.len() == 0 {
        false
    } else if a[0] == b[0] {
        spec_str_le(a.drop_first(), b.drop_first())
    } else {
        (a[0] as int) < (b[0] as int)
    }
}

/// Compares two strings lexicographically.
pub fn str_le(a: &str, b: &str) -> (r: bool)
    ensures
        r == spec_str_le(a@, b@),
{
    let alen = a.unicode_len();
    let blen = b.unicode_len();
    proof {
        assert(a@.skip(0) =~= a@);
        assert(b@.skip(0) =~= b@);
    }
    let mut i: usize = 0;
    loop
        invariant
            i <= alen,
            i <= blen,
            alen == a@.len(),
            blen == b@.len(),
            spec_str_le(a@, b@) == spec_str_le(a@.skip(i as int), b@.skip(i as int)),
        decreases alen - i,
    {
        if i >= alen {
            proof {
                assert(a@.skip(i as int) =~= Seq::<char>::empty());
            }
            return true;
        }
        if i >= blen {
            proof {
                assert(b@.skip(i as int) =~= Seq::<char>::empty());
                assert(a@.skip(i as int).len() > 0);
            }
            return false;
        }
        let ca = a.get_char(i);
        let cb = b.get_char(i);
        proof {
            assert(a@.skip(i as int)[0] == a@[i as int]);
            assert(b@.skip(i as int)[0] == b@[i as int]);
        }
        if ca as u32 != cb as u32 {
            return (ca as u32) < (cb as u32);
        }
        proof {
            assert(a@.skip(i as int).drop_first() =~= a@.skip(i + 1));
            assert(b@.skip(i as int).drop_first() =~= b@.skip(i + 1));
        }
        i += 1;
    }
}

/// Totality of the lexicographic order: of any two strings, one precedes
/// the other.
pub proof fn lemma_str_le_total(a: Seq<char>, b: Seq<char>)
    ensures
        spec_str_le(a, b) || spec_str_le(b, a),
    decreases a.len(),
{
    if a.len() > 0 && b.len() > 0 && a[0] == b[0] {
        lemma_str_le_total(a.drop_first(), b.drop_first());
    }
}

/// Transitivity of the lexicographic order.
pub proof fn lemma_str_le_trans(a: Seq<char>, b: Seq<char>, c: Seq<char>)
    requires
        spec_str_le(a, b),
        spec_str_le(b, c),
    ensures
        spec_str_le(a, c),
    decreases a.len(),
{
    if a.len() > 0 && b.len() > 0 && c.len() > 0 && a[0] == b[0] && b[0] == c[0] {
        lemma_str_le_trans(a.drop_first(), b.drop_first(), c.drop_first());
    }
}

/// Whether the records stand in non-decreasing URL order.
pub open spec fn spec_sorted_by_url(s: Seq<Website>) -> bool {
    forall|i: int, j: int|
        0 <= i < j < s.len() ==> #[trigger] spec_str_le(s[i].url@, s[j].url@)
}

fn min_url_index(v: &Vec<Website>) -> (mi: usize)
    requires
        v@.len() > 0,
    ensures
        mi < v@.len(),
        forall|m: int| 0 <= m < v@.len() ==> #[trigger] spec_str_le(v@[mi as int].url@, v@[m].url@),
{
    let mut mi: usize = 0;
    proof {
        lemma_str_le_total(v@[0].url@, v@[0].url@);
    }
    let mut j: usize = 1;
    while j < v.len()
        invariant
            mi < j,
            j <= v@.len(),
            forall|m: int| 0 <= m < j ==> #[trigger] spec_str_le(v@[mi as int].url@, v@[m].url@),
        decreases v@.len() - j,
    {
        let ghost old_mi = mi as int;
        if str_le(v[j].url.as_str(), v[mi].url.as_str()) {
            mi = j;
            proof {
                assert forall|m: int| 0 <= m < j + 1 implies #[trigger] spec_str_le(
                    v@[mi as int].url@,
                    v@[m].url@,
                ) by {
                    if m < j {
                        lemma_str_le_trans(v@[mi as int].url@, v@[old_mi].url@, v@[m].url@);
                    } else {
                        lemma_str_le_total(v@[mi as int].url@, v@[mi as int].url@);
                    }
                }
            }
        } else {
            proof {
                lemma_str_le_total(v@[j as int].url@, v@[mi as int].url@);
            }
        }
        j += 1;
    }
    proof {
        lemma_str_le_total(v@[mi as int].url@, v@[mi as int].url@);
    }
    mi
}

/// Sorts the records by URL, lexicographically: the result holds exactly the
/// given records, in non-decreasing URL order.
pub fn sort_websites_by_url(websites: Vec<Website>) -> (r: Vec<Website>)
    ensures
        r@.to_multiset() == websites@.to_multiset(),
        r@.len() == websites@.len(),
        spec_sorted_by_url(r@),
{
    broadcast use vstd::seq_lib::group_to_multiset_ensures;

    let mut v = websites;
    let ghost whole = v@;
    let mut r: Vec<Website> = Vec::new();
    while v.len() > 0
        invariant
            r@.to_multiset().add(v@.to_multiset()) == whole.to_multiset(),
            r@.len() + v@.len() == whole.len(),
            spec_sorted_by_url(r@),
            forall|x: int, y: int|
                0 <= x < r@.len() && 0 <= y < v@.len() ==> #[trigger] spec_str_le(
                    r@[x].url@,
                    v@[y].url@,
                ),
        decreases v@.len(),
    {
        let ghost pre_r = r@;
        let ghost pre_v = v@;
        let mi = min_url_index(&v);
        let w = v.remove(mi);
        r.push(w);
        proof {
            assert(r@ == pre_r.push(w));
            assert(v@ == pre_v.remove(mi as int));
            pre_r.to_multiset_ensures();
            pre_v.to_multiset_ensures();
            assert(pre_r.push(w).to_multiset() =~= pre_r.to_multiset().insert(w));
            assert(pre_v.remove(mi as int).to_multiset() =~= pre_v.to_multiset().remove(
                pre_v[mi as int],
            ));
            assert(pre_v.to_multiset().count(w) > 0);
            assert(r@.to_multiset().add(v@.to_multiset()) =~= pre_r.to_multiset().add(
                pre_v.to_multiset(),
            ));
            assert forall|x: int, y: int|
                0 <= x < r@.len() && 0 <= y < v@.len() implies #[trigger] spec_str_le(
                r@[x].url@,
                v@[y].url@,
            ) by {
                let oy = if y < mi {
                    y
                } else {
                    y + 1
                };
                assert(v@[y] == pre_v[oy]);
                if x < pre_r.len() {
                    assert(spec_str_le(pre_r[x].url@, pre_v[oy].url@));
                } else {
                    assert(r@[x] == w);
                    assert(spec_str_le(pre_v[mi as int].url@, pre_v[oy].url@));
                }
            }
            assert forall|i: int, j: int|
                0 <= i < j < r@.len() implies #[trigger] spec_str_le(r@[i].url@, r@[j].url@) by {
                if j < pre_r.len() {
                } else {
                    assert(r@[j] == w);
                    assert(spec_str_le(pre_r[i].url@, pre_v[mi as int].url@));
                }
            }
        }
    }
    proof {
        assert(v@.to_multiset() =~= Multiset::<Website>::empty());
        assert(r@.to_multiset().add(Multiset::<Website>::empty()) =~= r@.to_multiset());
    }
    r
}

/// No false positives for the identity-matching detector: when every fresh
/// record agrees with its stored counterpart (or has none), nothing is
/// reported.
pub proof fn lemma_compare_no_changes(current: Seq<WebsiteView>, fresh: Seq<WebsiteView>)
    requires
        forall|j: int|
            0 <= j < fresh.len() ==> (match spec_find_by_id(current, (#[trigger] fresh[j]).id) {
                Option::Some(c) => c.status == fresh[j].status,
                Option::None => true,
            }),
    ensures
        spec_compare(current, fresh) == Seq::<WebsiteView>::empty(),
    decreases fresh.len(),
{
    if fresh.len() > 0 {
        assert forall|j: int|
            0 <= j < fresh.drop_first().len() implies (match spec_find_by_id(
            current,
            (#[trigger] fresh.drop_first()[j]).id,
        ) {
            Option::Some(c) => c.status == fresh.drop_first()[j].status,
            Option::None => true,
        }) by {
            assert(fresh.drop_first()[j] == fresh[j + 1]);
        }
        lemma_compare_no_changes(current, fresh.drop_first());
        assert(fresh[0] == fresh[0]);
    }
}

/// Exactly one divergence, matched by identity and not by URL, yields
/// exactly that one fresh record.
pub proof fn lemma_compare_one_change(current: Seq<WebsiteView>, fresh: Seq<WebsiteView>, k: int)
    requires
        0 <= k < fresh.len(),
        (match spec_find_by_id(current, fresh[k].id) {
            Option::Some(c) => c.status != fresh[k].status,
            Option::None => false,
        }),
        forall|j: int|
            0 <= j < fresh.len() && j != k ==> (match spec_find_by_id(current, (#[trigger] fresh[j]).id) {
                Option::Some(c) => c.status == fresh[j].status,
                Option::None => true,
            }),
    ensures
        spec_compare(current, fresh) == seq![fresh[k]],
    decreases k,
{
    if k == 0 {
        assert forall|j: int|
            0 <= j < fresh.drop_first().len() implies (match spec_find_by_id(
            current,
            (#[trigger] fresh.drop_first()[j]).id,
        ) {
            Option::Some(c) => c.status == fresh.drop_first()[j].status,
            Option::None => true,
        }) by {
            assert(fresh.drop_first()[j] == fresh[j + 1]);
        }
        lemma_compare_no_changes(current, fresh.drop_first());
        assert(spec_compare(current, fresh) =~= seq![fresh[k]]);
    } else {
        assert forall|j: int|
            0 <= j < fresh.drop_first().len() && j != k - 1 implies (match spec_find_by_id(
            current,
            (#[trigger] fresh.drop_first()[j]).id,
        ) {
            Option::Some(c) => c.status == fresh.drop_first()[j].status,
            Option::None => true,
        }) by {
            assert(fresh.drop_first()[j] == fresh[j + 1]);
        }
        assert(fresh.drop_first()[k - 1] == fresh[k]);
        lemma_compare_one_change(current, fresh.drop_first(), k - 1);
        assert(spec_compare(current, fresh) =~= seq![fresh[k]]);
    }
}

} // verus!
