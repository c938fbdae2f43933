//! What the scans of many repositories found, taken together.

use vstd::prelude::*;
use crate::path::RelPath;
use crate::scan::{purges_view, Purge, PurgeView};

verus! {

/// What the scan of one repository found.
pub struct ScanResult {
    /// Where the repository lies below the base.
    pub repo: RelPath,
    /// Its candidates, in the order of the walk.
    pub purges: Vec<Purge>,
}

/// The result of a scan as contracts speak of it.
pub struct ScanResultView {
    pub repo: Seq<Seq<char>>,
    pub purges: Seq<PurgeView>,
}

impl View for ScanResult {
    type V = ScanResultView;

    open spec fn view(&self) -> ScanResultView {
        ScanResultView { repo: self.repo@, purges: purges_view(self.purges@) }
    }
}

/// Results as contracts speak of them: each by its view, in order.
pub open spec fn results_view(results: Seq<ScanResult>) -> Seq<ScanResultView> {
    results.map_values(|r: ScanResult| r@)
}

/// The results that hold at least one candidate, in their order.
pub open spec fn with_candidates(results: Seq<ScanResultView>) -> Seq<ScanResultView>
    decreases results.len(),
{
    if results.len() == 0 {
        Seq::empty()
    } else {
        let before = with_candidates(results.drop_last());
        if results.last().purges.len() > 0 {
            before.push(results.last())
        } else {
            before
        }
    }
}

/// The candidates of all results, one repository after the other.
pub open spec fn all_purges(results: Seq<ScanResultView>) -> Seq<PurgeView>
    decreases results.len(),
{
    if results.len() == 0 {
        Seq::empty()
    } else {
        all_purges(results.drop_last()) + results.last().purges
    }
}

/// The bytes that candidates hold together.
pub open spec fn bytes_of(purges: Seq<PurgeView>) -> nat
    decreases purges.len(),
{
    if purges.len() == 0 {
        0
    } else {
        bytes_of(purges.drop_last()) + purges.last().size as nat
    }
}

/// The bytes held by the first candidates are among those held by all.
pub proof fn lemma_bytes_grow(purges: Seq<PurgeView>, n: int)
    requires
        0 <= n <= purges.len(),
    ensures
        bytes_of(purges.take(n)) <= bytes_of(purges),
    decreases purges.len(),
{
    if n < purges.len() {
        assert(purges.drop_last().take(n) =~= purges.take(n));
        lemma_bytes_grow(purges.drop_last(), n);
    } else {
        assert(purges.take(n) =~= purges);
    }
}

/// How many directories may be reclaimed, and how many bytes they hold.
#[derive(Clone, Copy, PartialEq, Eq, Structural, Debug)]
pub struct Totals {
    pub dirs: usize,
    pub bytes: u64,
}

/// Keeps the results that hold at least one candidate, in their order.
pub fn aggregate(results: Vec<ScanResult>) -> (kept: Vec<ScanResult>)
    ensures
        results_view(kept@) == with_candidates(results_view(results@)),
{
    let ghost all = results_view(results@);
    let mut kept: Vec<ScanResult> = Vec::new();
    assert(all.take(0) =~= Seq::empty());
    for result in it: results
        invariant
            all == results_view(results@),
            it.seq() == results@,
            results_view(kept@) == with_candidates(all.take(it.index() as int)),
    {
        let ghost before = results_view(kept@);
        let ghost done = it.index() as int;
        proof {
            assert(all.take(done + 1).drop_last() =~= all.take(done));
            assert(all.take(done + 1).last() == result@);
        }
        if result.purges.len() > 0 {
            kept.push(result);
            assert(results_view(kept@) =~= before.push(all[done]));
        }
    }
    assert(all.take(all.len() as int) =~= all);
    kept
}

/// How many candidates the results hold and how many bytes these take;
/// `None` where either count does not fit its type.
pub fn totals(results: &Vec<ScanResult>) -> (sum: Option<Totals>)
    ensures
        sum is Some <==> all_purges(results_view(results@)).len() <= usize::MAX && bytes_of(
            all_purges(results_view(results@)),
        ) <= u64::MAX,
        sum matches Some(t) ==> t.dirs == all_purges(results_view(results@)).len() && t.bytes
            == bytes_of(all_purges(results_view(results@))),
{
    let ghost all = results_view(results@);
    let mut dirs: usize = 0;
    let mut bytes: u64 = 0;
    let mut r: usize = 0;
    assert(all.take(0) =~= Seq::empty());
    while r < results.len()
        invariant
            r <= results.len(),
            all == results_view(results@),
            dirs == all_purges(all.take(r as int)).len(),
            bytes == bytes_of(all_purges(all.take(r as int))),
        decreases results.len() - r,
    {
        let purges = &results[r].purges;
        let ghost before = all_purges(all.take(r as int));
        let ghost these = purges_view(purges@);
        proof {
            assert(all.take(r + 1).drop_last() =~= all.take(r as int));
            assert(all.take(r + 1).last() == all[r as int]);
            assert(all_purges(all.take(r + 1)) == before + these);
            lemma_all_purges_grow(all, r + 1);
        }
        let mut i: usize = 0;
        assert(these.take(0) =~= Seq::empty());
        assert(before + these.take(0) =~= before);
        while i < purges.len()
            invariant
                i <= purges.len(),
                all == results_view(results@),
                these == purges_view(purges@),
                dirs == before.len() + i,
                bytes == bytes_of(before + these.take(i as int)),
                (before + these).len() <= all_purges(all).len(),
                bytes_of(before + these) <= bytes_of(all_purges(all)),
            decreases purges.len() - i,
        {
            proof {
                assert((before + these.take(i + 1)).drop_last() =~= before + these.take(i as int));
                assert((before + these.take(i + 1)).last() == purges@[i as int]@);
                assert((before + these).take(before.len() + i + 1) =~= before + these.take(i + 1));
                lemma_bytes_grow(before + these, before.len() + i + 1);
            }
            if dirs == usize::MAX {
                return None;
            }
            dirs = dirs + 1;
            bytes = match bytes.checked_add(purges[i].size) {
                Some(sum) => sum,
                None => {
                    return None;
                },
            };
            i += 1;
        }
        assert(these.take(purges.len() as int) =~= these);
        r += 1;
    }
    assert(all.take(results.len() as int) =~= all);
    Some(Totals { dirs, bytes })
}

/// The candidates of the first results are the first of all candidates.
pub proof fn lemma_all_purges_grow(results: Seq<ScanResultView>, n: int)
    requires
        0 <= n <= results.len(),
    ensures
        all_purges(results.take(n)).len() <= all_purges(results).len(),
        all_purges(results.take(n)) == all_purges(results).take(
            all_purges(results.take(n)).len() as int,
        ),
        bytes_of(all_purges(results.take(n))) <= bytes_of(all_purges(results)),
    decreases results.len(),
{
    if n < results.len() {
        assert(results.drop_last().take(n) =~= results.take(n));
        lemma_all_purges_grow(results.drop_last(), n);
        let part = all_purges(results.take(n));
        assert(part =~= all_purges(results).take(part.len() as int));
        lemma_bytes_grow(all_purges(results), part.len() as int);
    } else {
        assert(results.take(n) =~= results);
        assert(all_purges(results) =~= all_purges(results).take(all_purges(results).len() as int));
    }
}

} // verus!
