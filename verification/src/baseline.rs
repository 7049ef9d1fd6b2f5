use vstd::prelude::*;

use crate::http::HttpClient;

verus! {

/// The baseline connectivity gate: whether any of the given known-reliable
/// sites answers a plain connectivity check. An empty list counts as
/// unavailable, and so does a list on which every probe comes back
/// negative; one reachable site is enough to trust the cycle's probe
/// results.
pub fn check_websites<T: HttpClient>(websites: &Vec<String>, client: &T) -> (r: bool)
    ensures
        r == exists|i: int| 0 <= i < websites@.len() && client.reachable(websites@[i]@),
{
    let mut i: usize = 0;
    while i < websites.len()
        invariant
            i <= websites@.len(),
            forall|j: int| 0 <= j < i ==> !client.reachable(websites@[j]@),
        decreases websites@.len() - i,
    {
        if client.check_url(websites[i].as_str()) {
            assert(client.reachable(websites@[i as int]@));
            return true;
        }
        i += 1;
    }
    false
}

/// Race-to-first-success law: the baseline counts as available whenever
/// some probe on the list succeeds, whatever every other probe does.
pub proof fn lemma_gate_one_up<T: HttpClient>(c: T, websites: Seq<Seq<char>>, k: int)
    requires
        0 <= k < websites.len(),
        c.reachable(websites[k]),
    ensures
        exists|i: int| 0 <= i < websites.len() && c.reachable(websites[i]),
{
}

} // verus!
