//! Asynchronous I/O engine: coalescing page bitmaps into prefetch
//! advisories.
//!
//! The engine walks a page bitmap's set bits in ascending order and
//! groups maximal runs of consecutive set pages, so a strided schedule
//! costs one kernel advisory per run instead of one per page. The
//! advisory ranges are computed and counted here; the host shell that
//! owns the submission ring turns each range into one asynchronous
//! `MADV_WILLNEED` advisory on the mapped region and drains completions.

use vstd::prelude::*;
use crate::bitmap::{PageBits, bits_of};

verus! {

/// One coalesced advisory: `count` consecutive pages starting at page
/// `start`.
#[derive(Clone, Copy, Debug, PartialEq, Eq, Structural)]
pub struct PageRun {
    pub start: usize,
    pub count: usize,
}

/// Whether a maximal run of set bits starts at bit `i`: the bit is set
/// and is either the first bit or preceded by a clear bit.
pub open spec fn run_starts_at(bits: Seq<bool>, i: int) -> bool {
    0 <= i < bits.len() && bits[i] && (i == 0 || !bits[i - 1])
}

/// The number of maximal runs of set bits among the first `n` bits.
pub open spec fn run_count_to(bits: Seq<bool>, n: int) -> nat
    decreases n,
{
    if n <= 0 {
        0
    } else {
        run_count_to(bits, n - 1) + (if run_starts_at(bits, n - 1) {
            1nat
        } else {
            0nat
        })
    }
}

/// The number of maximal runs of set bits in the bitmap.
pub open spec fn run_count(bits: Seq<bool>) -> nat {
    run_count_to(bits, bits.len() as int)
}

/// A maximal run of set bits: non-empty, in range, every bit inside it
/// set, and bounded by a clear bit (or the bitmap's edge) on each side.
pub open spec fn run_valid(bits: Seq<bool>, r: PageRun) -> bool {
    &&& r.count >= 1
    &&& r.start + r.count <= bits.len()
    &&& forall|p: int| r.start <= p < r.start + r.count ==> bits[p]
    &&& (r.start == 0 || !bits[r.start - 1])
    &&& (r.start + r.count == bits.len() || !bits[r.start + r.count])
}

/// `runs` lists exactly the maximal runs of set bits, in ascending
/// order: every entry is a maximal run, consecutive entries are
/// separated by a gap, and every set bit lies in some entry.
pub open spec fn coalesced_runs(bits: Seq<bool>, runs: Seq<PageRun>) -> bool {
    &&& forall|j: int| 0 <= j < runs.len() ==> run_valid(bits, #[trigger] runs[j])
    &&& forall|j: int|
        #![trigger runs[j], runs[j + 1]]
        0 <= j < runs.len() - 1 ==> runs[j].start + runs[j].count < runs[j + 1].start
    &&& forall|p: int|
        0 <= p < bits.len() && #[trigger] bits[p] ==> exists|j: int|
            0 <= j < runs.len() && (#[trigger] runs[j]).start <= p < runs[j].start + runs[j].count
}

/// Law: a bitmap with no set bits holds no runs, so a prefetch
/// submission for it issues no advisories.
pub proof fn lemma_no_set_bits_no_runs(bits: Seq<bool>)
    requires
        forall|p: int| 0 <= p < bits.len() ==> !bits[p],
    ensures
        run_count(bits) == 0,
{
    lemma_no_set_bits_no_runs_to(bits, bits.len() as int);
}

proof fn lemma_no_set_bits_no_runs_to(bits: Seq<bool>, n: int)
    requires
        n <= bits.len(),
        forall|p: int| 0 <= p < bits.len() ==> !bits[p],
    ensures
        run_count_to(bits, n) == 0,
    decreases n,
{
    if n > 0 {
        lemma_no_set_bits_no_runs_to(bits, n - 1);
    }
}

/// Plans coalesced prefetch submissions for an advisory ring of the
/// given queue depth. The ring itself—an OS resource fed through
/// raw-pointer submission entries—lives with the host shell; the
/// engine's logic of which advisories to issue is all here.
pub struct AsyncIoEngine {
    queue_depth: u32,
}

impl AsyncIoEngine {
    /// The queue depth the engine was built with.
    pub closed spec fn depth(&self) -> u32 {
        self.queue_depth
    }

    /// An engine for a submission ring of `queue_depth` entries.
    pub fn new(queue_depth: u32) -> (r: AsyncIoEngine)
        ensures
            r.depth() == queue_depth,
    {
        AsyncIoEngine { queue_depth }
    }

    /// Coalesces the set pages of the bitmap into maximal runs of
    /// consecutive pages, in ascending order: exactly one advisory per
    /// maximal run, and none for an empty bitmap.
    pub fn submit_prefetch(&self, pages: &PageBits) -> (runs: Vec<PageRun>)
        ensures
            coalesced_runs(bits_of(*pages), runs@),
            runs@.len() == run_count(bits_of(*pages)),
    {
        let ghost bits = bits_of(*pages);
        let n = pages.len();
        let mut runs: Vec<PageRun> = Vec::new();
        let mut open = false;
        let mut start: usize = 0;
        let mut count: usize = 0;
        let mut p: usize = 0;
        while p < n
            invariant
                n as nat == bits.len(),
                bits == bits_of(*pages),
                p <= n,
                open ==> count >= 1 && start as int + count as int == p as int
                    && (start == 0 || !bits[start as int - 1])
                    && (forall|t: int| start as int <= t < p as int ==> bits[t]),
                !open ==> (p == 0 || !bits[p as int - 1]),
                runs@.len() + (if open { 1nat } else { 0nat }) == run_count_to(bits, p as int),
                forall|j: int| 0 <= j < runs@.len() ==> run_valid(bits, #[trigger] runs@[j]),
                forall|j: int|
                    #![trigger runs@[j], runs@[j + 1]]
                    0 <= j < runs@.len() - 1 ==> runs@[j].start + runs@[j].count < runs@[j + 1].start,
                forall|j: int|
                    0 <= j < runs@.len() ==> (#[trigger] runs@[j]).start + runs@[j].count
                        < (if open { start as int } else { p as int }),
                forall|t: int|
                    0 <= t < (if open { start as int } else { p as int }) && #[trigger] bits[t]
                        ==> exists|j: int|
                            0 <= j < runs@.len() && (#[trigger] runs@[j]).start <= t
                                < runs@[j].start + runs@[j].count,
            decreases n as int - p as int,
        {
            let bit = pages.get(p);
            if bit {
                if open {
                    count = count + 1;
                } else {
                    start = p;
                    count = 1;
                    open = true;
                }
            } else {
                if open {
                    let ghost old_runs = runs@;
                    runs.push(PageRun { start, count });
                    open = false;
                    proof {
                        assert forall|t: int| 0 <= t < p as int && #[trigger] bits[t]
                            implies exists|j: int|
                                0 <= j < runs@.len() && (#[trigger] runs@[j]).start <= t
                                    < runs@[j].start + runs@[j].count by {
                            if t < start as int {
                                let j = choose|j: int|
                                    0 <= j < old_runs.len() && (#[trigger] old_runs[j]).start <= t
                                        < old_runs[j].start + old_runs[j].count;
                                assert(runs@[j].start <= t < runs@[j].start + runs@[j].count);
                            } else {
                                let j = runs@.len() - 1;
                                assert(runs@[j].start <= t < runs@[j].start + runs@[j].count);
                            }
                        }
                    }
                }
            }
            p = p + 1;
        }
        if open {
            let ghost old_runs = runs@;
            runs.push(PageRun { start, count });
            proof {
                assert forall|t: int| 0 <= t < n as int && #[trigger] bits[t]
                    implies exists|j: int|
                        0 <= j < runs@.len() && (#[trigger] runs@[j]).start <= t
                            < runs@[j].start + runs@[j].count by {
                    if t < start as int {
                        let j = choose|j: int|
                            0 <= j < old_runs.len() && (#[trigger] old_runs[j]).start <= t
                                < old_runs[j].start + old_runs[j].count;
                        assert(runs@[j].start <= t < runs@[j].start + runs@[j].count);
                    } else {
                        let j = runs@.len() - 1;
                        assert(runs@[j].start <= t < runs@[j].start + runs@[j].count);
                    }
                }
            }
        }
        runs
    }
}

} // verus!
