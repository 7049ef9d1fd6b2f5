use vstd::prelude::*;

use crate::site::{Website, WebsiteView};

verus! {

/// The error a site store reports when its backend fails a read or a write.
#[derive(Debug, Clone, Copy, PartialEq, Eq)]
pub enum StoreError {
    Backend,
}

/// One page of a stably paginated site list: the records from `skip` on,
/// at most `limit` of them, clipped to the list.
pub open spec fn spec_page(sites: Seq<WebsiteView>, skip: int, limit: int) -> Seq<WebsiteView>
    recommends
        0 <= skip,
        1 <= limit,
{
    let lo = if skip <= sites.len() {
        skip
    } else {
        sites.len() as int
    };
    let hi = if skip + limit <= sites.len() {
        skip + limit
    } else {
        sites.len() as int
    };
    if lo <= hi {
        sites.subrange(lo, hi)
    } else {
        Seq::empty()
    }
}

/// One write-back step: every record that carries the changed record's
/// identity takes over its status and timestamp; a change without an
/// identity touches nothing.
pub open spec fn spec_apply_update(sites: Seq<WebsiteView>, c: WebsiteView) -> Seq<WebsiteView> {
    if c.id is None {
        sites
    } else {
        sites.map(
            |i: int, s: WebsiteView|
                if s.id == c.id {
                    WebsiteView {
                        id: s.id,
                        url: s.url,
                        last_updated: c.last_updated,
                        status: c.status,
                        telegram_id: s.telegram_id,
                    }
                } else {
                    s
                },
        )
    }
}

/// The store contents after writing back a changed-site set, one record at a
/// time, in order: exactly the given identities are updated, untouched sites
/// keep their value.
pub open spec fn spec_write_back(sites: Seq<WebsiteView>, changed: Seq<WebsiteView>) -> Seq<
    WebsiteView,
>
    decreases changed.len(),
{
    if changed.len() == 0 {
        sites
    } else {
        spec_write_back(spec_apply_update(sites, changed[0]), changed.drop_first())
    }
}

/// The persisted collection of tracked sites, read in pages and written back
/// record by record. Its contents are modelled by `sites`; a backend is free
/// to fail any call, but a successful read returns exactly one page and a
/// successful write updates exactly the given identities. What is proved
/// through this interface holds of implementations that meet these
/// contracts; an implementation outside the library is trusted to.
pub trait SiteStore: Sized {
    /// The records the store holds, in its stable pagination order. An
    /// implementation outside the library is modelled as empty unless it
    /// says otherwise.
    open spec fn sites(&self) -> Seq<WebsiteView> {
        Seq::empty()
    }

    fn get_sites(&self, skip: u64, limit: i64) -> (r: Result<Vec<Website>, StoreError>)
        requires
            limit >= 1,
        ensures
            (match r {
                Result::Ok(v) => v.deep_view() == spec_page(
                    self.sites(),
                    skip as int,
                    limit as int,
                ),
                Result::Err(_) => true,
            }),
    ;

    fn update_db(&mut self, websites: &Vec<Website>) -> (r: Result<(), StoreError>)
        ensures
            (match r {
                Result::Ok(_) => final(self).sites() == spec_write_back(
                    old(self).sites(),
                    websites.deep_view(),
                ),
                Result::Err(_) => exists|k: int|
                    0 <= k <= websites.deep_view().len() && final(self).sites() == spec_write_back(
                        old(self).sites(),
                        websites.deep_view().take(k),
                    ),
            }),
    ;
}

/// Reading the list page by page from `skip` on, advancing by `limit` each
/// time, until the first empty page.
pub open spec fn spec_read_all_from(sites: Seq<WebsiteView>, skip: int, limit: int) -> Seq<
    WebsiteView,
>
    recommends
        0 <= skip,
        1 <= limit,
    decreases
            (if skip < sites.len() {
                sites.len() - skip
            } else {
                0
            }),
{
    if skip >= sites.len() || limit < 1 || skip < 0 {
        Seq::empty()
    } else {
        spec_page(sites, skip, limit) + spec_read_all_from(sites, skip + limit, limit)
    }
}

proof fn lemma_read_all_from(sites: Seq<WebsiteView>, skip: int, limit: int)
    requires
        0 <= skip,
        1 <= limit,
    ensures
        spec_read_all_from(sites, skip, limit) == if skip <= sites.len() {
            sites.skip(skip)
        } else {
            Seq::<WebsiteView>::empty()
        },
    decreases
            (if skip < sites.len() {
                sites.len() - skip
            } else {
                0
            }),
{
    if skip >= sites.len() {
        if skip == sites.len() {
            assert(sites.skip(skip) =~= Seq::<WebsiteView>::empty());
        }
    } else {
        lemma_read_all_from(sites, skip + limit, limit);
        if skip + limit <= sites.len() {
            assert(spec_page(sites, skip, limit) + sites.skip(skip + limit) =~= sites.skip(skip));
        } else {
            assert(spec_page(sites, skip, limit) + Seq::<WebsiteView>::empty() =~= sites.skip(
                skip,
            ));
        }
    }
}

/// Pagination completeness: concatenating the pages read at skips 0, limit,
/// 2·limit, … until the first empty page reconstructs the whole site list,
/// with no duplicates and no omissions, for any page size of at least 1.
pub proof fn lemma_pagination_complete(sites: Seq<WebsiteView>, limit: int)
    requires
        1 <= limit,
    ensures
        spec_read_all_from(sites, 0, limit) == sites,
{
    lemma_read_all_from(sites, 0, limit);
    assert(sites.skip(0) =~= sites);
}

/// An in-memory site store for tests and proofs: its pages are slices of a
/// record vector, and reads and writes never fail.
pub struct VecStore {
    pub records: Vec<Website>,
}

impl SiteStore for VecStore {
    open spec fn sites(&self) -> Seq<WebsiteView> {
        self.records.deep_view()
    }

    fn get_sites(&self, skip: u64, limit: i64) -> (r: Result<Vec<Website>, StoreError>) {
        let len = self.records.len();
        let lo: usize = if skip >= len as u64 {
            len
        } else {
            skip as usize
        };
        let room: usize = len - lo;
        let take: usize = if (limit as u64) >= (room as u64) {
            room
        } else {
            proof {
                assert((limit as u64) < (room as u64));
            }
            (limit as u64) as usize
        };
        let mut page: Vec<Website> = Vec::new();
        let mut i: usize = 0;
        while i < take
            invariant
                i <= take,
                len == self.records@.len(),
                lo + take <= len,
                page.deep_view() == self.records.deep_view().subrange(lo as int, lo + i),
            decreases take - i,
        {
            let ghost prev = page.deep_view();
            let idx: usize = lo + i;
            page.push(self.records[idx].duplicate());
            proof {
                let dv = self.records.deep_view();
                assert(page.deep_view() =~= prev.push(dv[lo + i]));
                assert(dv.subrange(lo as int, lo + i + 1) =~= dv.subrange(lo as int, lo + i).push(
                    dv[lo + i],
                ));
            }
            i += 1;
        }
        proof {
            assert(page.deep_view() =~= spec_page(
                self.sites(),
                skip as int,
                limit as int,
            ));
        }
        Result::Ok(page)
    }

    fn update_db(&mut self, websites: &Vec<Website>) -> (r: Result<(), StoreError>) {
        let mut i: usize = 0;
        while i < websites.len()
            invariant
                i <= websites@.len(),
                self.records.deep_view() == spec_write_back(
                    old(self).records.deep_view(),
                    websites.deep_view().take(i as int),
                ),
            decreases websites@.len() - i,
        {
            let ghost pre = self.records.deep_view();
            let c = &websites[i];
            if let Option::Some(cid) = c.id {
                let mut j: usize = 0;
                while j < self.records.len()
                    invariant
                        j <= self.records@.len(),
                        self.records@.len() == pre.len(),
                        c.id == Option::Some(cid),
                        forall|m: int|
                            0 <= m < j ==> self.records.deep_view()[m]
                                == spec_apply_update(pre, c@)[m],
                        forall|m: int|
                            j <= m < pre.len() ==> self.records.deep_view()[m] == pre[m],
                    decreases self.records@.len() - j,
                {
                    let same = match self.records[j].id {
                        Option::Some(rid) => rid == cid,
                        Option::None => false,
                    };
                    if same {
                        let fresh_status = c.status;
                        let fresh_ts = c.last_updated.clone();
                        let rec = &mut self.records[j];
                        rec.status = fresh_status;
                        rec.last_updated = fresh_ts;
                    }
                    j += 1;
                }
                proof {
                    assert(self.records.deep_view() =~= spec_apply_update(pre, c@));
                }
            } else {
                proof {
                    assert(self.records.deep_view() =~= spec_apply_update(pre, c@));
                }
            }
            proof {
                lemma_write_back_push(
                    old(self).records.deep_view(),
                    websites.deep_view().take(i as int),
                    c@,
                );
                assert(websites.deep_view().take(i + 1) =~= websites.deep_view().take(
                    i as int,
                ).push(c@));
            }
            i += 1;
        }
        proof {
            assert(websites.deep_view().take(websites@.len() as int) =~= websites.deep_view());
        }
        Result::Ok(())
    }
}

proof fn lemma_write_back_push(sites: Seq<WebsiteView>, changed: Seq<WebsiteView>, c: WebsiteView)
    ensures
        spec_write_back(sites, changed.push(c)) == spec_apply_update(
            spec_write_back(sites, changed),
            c,
        ),
    decreases changed.len(),
{
    if changed.len() == 0 {
        let applied = spec_apply_update(sites, c);
        assert(changed.push(c)[0] == c);
        assert(changed.push(c).drop_first() =~= changed);
        assert(spec_write_back(applied, changed) == applied);
        assert(spec_write_back(sites, changed.push(c)) == spec_apply_update(
            spec_write_back(sites, changed),
            c,
        ));
    } else {
        assert(changed.push(c).drop_first() =~= changed.drop_first().push(c));
        lemma_write_back_push(spec_apply_update(sites, changed[0]), changed.drop_first(), c);
    }
}

} // verus!
