//! Classification of dispatch results and the order-independent reduction
//! of all of them into one summary.

use vstd::prelude::*;
use crate::fold::weighted_total;
use crate::output::{parsed_delta, CleanOutput};

verus! {

/// The outcome of dispatching the cleanup command against one manifest.
pub enum FileResult {
    /// The command could not be spawned at all.
    CmdErr { manifest_path: String, err: String },
    /// The command ran to completion; a failed exit status is recorded
    /// here, not raised.
    Completed { manifest_path: String, stderr: Vec<u8>, exit_succeeded: bool },
}

/// The aggregate over one whole run.
#[derive(Clone, Copy, Debug, PartialEq, Eq, Structural)]
pub struct Summary {
    pub files_removed: u32,
    pub bytes_removed: u64,
    pub manifests_seen: usize,
    pub manifests_succeeded: usize,
}

/// A result that ran to completion with a successful exit status.
pub open spec fn is_success(r: FileResult) -> bool {
    r matches FileResult::Completed { exit_succeeded: true, .. }
}

/// The delta one result contributes: what its diagnostic text parses to if
/// it completed successfully, zero in every other case.
pub open spec fn result_delta(r: FileResult) -> (int, int) {
    match r {
        FileResult::Completed { exit_succeeded, stderr, .. } => {
            if exit_succeeded {
                match parsed_delta(stderr@) {
                    Some(d) => (d.files_removed as int, d.bytes_removed as int),
                    None => (0, 0),
                }
            } else {
                (0, 0)
            }
        },
        FileResult::CmdErr { .. } => (0, 0),
    }
}

/// The weighting a result contributes to the reduction: its delta's two
/// components and whether it counts as succeeded.
pub open spec fn result_weight() -> spec_fn(FileResult) -> (int, int, int) {
    |r: FileResult|
        (
            result_delta(r).0,
            result_delta(r).1,
            if is_success(r) {
                1int
            } else {
                0int
            },
        )
}

/// Component-wise totals of the deltas of a collection of results.
pub open spec fn results_total(s: Seq<FileResult>) -> (int, int) {
    let t = weighted_total(s, result_weight());
    (t.0, t.1)
}

/// How many results of a collection completed successfully.
pub open spec fn count_succeeded(s: Seq<FileResult>) -> int {
    weighted_total(s, result_weight()).2
}

/// Every weight component is nonnegative, and the success component is at
/// most one.
proof fn lemma_result_weight_shape()
    ensures
        forall|r: FileResult| {
            &&& (#[trigger] result_weight()(r)).0 >= 0
            &&& result_weight()(r).1 >= 0
            &&& result_weight()(r).2 >= 0
        },
        forall|r: FileResult| (#[trigger] result_weight()(r)).2 <= 1,
{
}

proof fn lemma_count_succeeded_bound(s: Seq<FileResult>)
    ensures
        0 <= count_succeeded(s) <= s.len(),
    decreases s.len(),
{
    lemma_result_weight_shape();
    if s.len() > 0 {
        lemma_count_succeeded_bound(s.drop_last());
    }
}

/// Totals only grow as a collection is extended: the totals of a prefix
/// are bounded by the totals of the whole.
proof fn lemma_results_total_prefix(s: Seq<FileResult>, i: int, j: int)
    requires
        0 <= i <= j <= s.len(),
    ensures
        results_total(s.subrange(0, i)).0 <= results_total(s.subrange(0, j)).0,
        results_total(s.subrange(0, i)).1 <= results_total(s.subrange(0, j)).1,
{
    lemma_result_weight_shape();
    crate::fold::lemma_weighted_total_prefix(s, i, j, result_weight());
}

/// Collections holding the same multiset of results reduce to the same
/// totals and the same success count: the summary cannot depend on the
/// order in which results are processed.
pub proof fn lemma_results_order_independent(s1: Seq<FileResult>, s2: Seq<FileResult>)
    requires
        s1.to_multiset() == s2.to_multiset(),
    ensures
        s1.len() == s2.len(),
        results_total(s1) == results_total(s2),
        count_succeeded(s1) == count_succeeded(s2),
{
    vstd::seq_lib::to_multiset_len(s1);
    vstd::seq_lib::to_multiset_len(s2);
    crate::fold::lemma_weighted_total_permutation(s1, s2, result_weight());
}

/// Consumes the complete collection of dispatch results and reduces it to
/// one summary: every result counts as seen; successful completions count
/// as succeeded and contribute whatever their diagnostic text parses to;
/// spawn failures, failed exits and unparseable text contribute zero.
/// Returns `None` exactly where the true totals would not fit the summary's
/// integer types.
pub fn process_results(collected: Vec<FileResult>) -> (r: Option<Summary>)
    ensures
        r is Some <==> results_total(collected@).0 <= u32::MAX && results_total(collected@).1
            <= u64::MAX,
        r matches Some(s) ==> {
            &&& s.files_removed == results_total(collected@).0
            &&& s.bytes_removed == results_total(collected@).1
            &&& s.manifests_seen == collected@.len()
            &&& s.manifests_succeeded == count_succeeded(collected@)
            &&& s.manifests_succeeded <= s.manifests_seen
        },
{
    let mut removed = CleanOutput::zero();
    let mut succ: usize = 0;
    let n = collected.len();
    let mut i: usize = 0;
    while i < n
        invariant
            n == collected@.len(),
            0 <= i <= n,
            removed.files_removed == results_total(collected@.subrange(0, i as int)).0,
            removed.bytes_removed == results_total(collected@.subrange(0, i as int)).1,
            succ == count_succeeded(collected@.subrange(0, i as int)),
            succ <= i,
        decreases n - i,
    {
        let ghost prefix = collected@.subrange(0, i as int);
        let item = &collected[i];
        proof {
            assert(collected@.subrange(0, i + 1).drop_last() =~= prefix);
            assert(collected@.subrange(0, i + 1).last() == collected@[i as int]);
        }
        match item {
            FileResult::CmdErr { .. } => {},
            FileResult::Completed { exit_succeeded, stderr, .. } => {
                if *exit_succeeded {
                    succ += 1;
                    match CleanOutput::parse(stderr.as_slice()) {
                        Some(parsed) => {
                            if parsed.files_removed > u32::MAX - removed.files_removed {
                                proof {
                                    lemma_results_total_prefix(collected@, i + 1, n as int);
                                    assert(collected@.subrange(0, n as int) =~= collected@);
                                }
                                return None;
                            }
                            if parsed.bytes_removed > u64::MAX - removed.bytes_removed {
                                proof {
                                    lemma_results_total_prefix(collected@, i + 1, n as int);
                                    assert(collected@.subrange(0, n as int) =~= collected@);
                                }
                                return None;
                            }
                            removed.add_assign(parsed);
                        },
                        None => {},
                    }
                }
            },
        }
        i += 1;
    }
    proof {
        assert(collected@.subrange(0, n as int) =~= collected@);
        lemma_count_succeeded_bound(collected@);
    }
    Some(
        Summary {
            files_removed: removed.files_removed,
            bytes_removed: removed.bytes_removed,
            manifests_seen: n,
            manifests_succeeded: succ,
        },
    )
}

} // verus!
