//! Splitting an image batch into draws that each use one atlas.
use vstd::prelude::*;

verus! {

/// `runs` cuts `0..ids.len()` into consecutive, non-empty, half-open ranges,
/// each of one id, with neighbouring ranges of different ids: the maximal
/// runs of equal ids.
pub open spec fn are_maximal_runs(ids: Seq<u64>, runs: Seq<(usize, usize)>) -> bool {
    &&& ids.len() == 0 ==> runs.len() == 0
    &&& ids.len() > 0 ==> runs.len() > 0 && runs[0].0 == 0 && runs.last().1 == ids.len()
    &&& forall|k: int| 0 <= k < runs.len() ==> #[trigger] runs[k].0 < runs[k].1
    &&& forall|k: int| 0 <= k < runs.len() - 1 ==> #[trigger] runs[k].1 == runs[k + 1].0
    &&& forall|k: int, i: int| 0 <= k < runs.len() && runs[k].0 <= i < runs[k].1 ==> #[trigger] ids[i] == #[trigger] ids[runs[k].0 as int]
    &&& forall|k: int| 0 <= k < runs.len() - 1 ==> #[trigger] ids[runs[k].1 as int] != ids[runs[k].0 as int]
}

/// The maximal runs of equal atlas ids: an image batch is drawn with one
/// draw per run, each with that run's atlas bound.
pub fn atlas_runs(ids: &[u64]) -> (runs: Vec<(usize, usize)>)
    ensures
        are_maximal_runs(ids@, runs@),
{
    let mut runs: Vec<(usize, usize)> = Vec::new();
    let n = ids.len();
    let mut start: usize = 0;
    while start < n
        invariant
            n == ids@.len(),
            0 <= start <= n,
            start == 0 ==> runs@.len() == 0,
            start > 0 ==> runs@.len() > 0 && runs@[0].0 == 0 && runs@.last().1 == start,
            forall|k: int| 0 <= k < runs@.len() ==> #[trigger] runs@[k].0 < runs@[k].1,
            forall|k: int| 0 <= k < runs@.len() - 1 ==> #[trigger] runs@[k].1 == runs@[k + 1].0,
            forall|k: int, i: int|
                0 <= k < runs@.len() && runs@[k].0 <= i < runs@[k].1 ==> #[trigger] ids@[i] == #[trigger] ids@[runs@[k].0 as int],
            forall|k: int| 0 <= k < runs@.len() - 1 ==> #[trigger] ids@[runs@[k].1 as int] != ids@[runs@[k].0 as int],
            start < n && runs@.len() > 0 ==> ids@[start as int] != ids@[runs@.last().0 as int],
        decreases n - start,
    {
        let id = ids[start];
        let mut end = start + 1;
        while end < n && ids[end] == id
            invariant
                n == ids@.len(),
                start < end <= n,
                id == ids@[start as int],
                forall|i: int| start <= i < end ==> #[trigger] ids@[i] == id,
            decreases n - end,
        {
            end += 1;
        }
        let ghost before = runs@;
        runs.push((start, end));
        proof {
            let r = runs@;
            assert forall|k: int| 0 <= k < r.len() - 1 implies #[trigger] r[k].1 == r[k + 1].0 by {
                if k < before.len() - 1 {
                    assert(r[k] == before[k] && r[k + 1] == before[k + 1]);
                }
            }
            assert forall|k: int, i: int| 0 <= k < r.len() && r[k].0 <= i < r[k].1 implies #[trigger] ids@[i] == #[trigger] ids@[r[k].0 as int] by {
                if k < before.len() {
                    assert(r[k] == before[k]);
                }
            }
            assert forall|k: int| 0 <= k < r.len() - 1 implies #[trigger] ids@[r[k].1 as int] != ids@[r[k].0 as int] by {
                assert(r[k] == before[k]);
                if k == before.len() - 1 {
                    assert(r[k].1 == start);
                }
            }
        }
        start = end;
    }
    runs
}

} // verus!
