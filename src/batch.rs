//! Fan-in of per-file results into one batch summary.
use crate::stats::{combined, zero_stats, PerformanceStats};
use vstd::prelude::*;

verus! {

/// What processing one file produced.
pub struct FileOutcome {
    pub file_path: String,
    pub stats: PerformanceStats,
    pub success: bool,
    pub error: Option<String>,
}

/// The aggregate over a batch: stats folded from the successful files, their
/// number, and each failed file with its error text.
pub struct BatchSummary {
    pub stats: PerformanceStats,
    pub successful_files: usize,
    pub failures: Vec<(String, String)>,
}

/// The text reported for a failure that carries no message.
pub open spec fn unknown_error() -> Seq<char> {
    "unknown error"@
}

/// The error text reported for a failed file.
pub open spec fn failure_message(o: FileOutcome) -> Seq<char> {
    match o.error {
        Some(e) => e@,
        None => unknown_error(),
    }
}

/// Stats after folding the first `n` outcomes into a total that counts all
/// `rs.len()` files.
pub open spec fn folded_stats(rs: Seq<FileOutcome>, n: nat) -> PerformanceStats
    decreases n,
{
    if n == 0 {
        PerformanceStats { total_files: rs.len() as usize, ..zero_stats() }
    } else {
        let acc = folded_stats(rs, (n - 1) as nat);
        if rs[n - 1].success {
            combined(acc, rs[n - 1].stats)
        } else {
            acc
        }
    }
}

/// The number of successes among the first `n` outcomes.
pub open spec fn success_count(rs: Seq<FileOutcome>, n: nat) -> nat
    decreases n,
{
    if n == 0 {
        0
    } else {
        success_count(rs, (n - 1) as nat) + if rs[n - 1].success { 1nat } else { 0nat }
    }
}

/// Path and error text of each failure among the first `n` outcomes, in order.
pub open spec fn failure_list(rs: Seq<FileOutcome>, n: nat) -> Seq<(Seq<char>, Seq<char>)>
    decreases n,
{
    if n == 0 {
        Seq::empty()
    } else {
        let prev = failure_list(rs, (n - 1) as nat);
        if rs[n - 1].success {
            prev
        } else {
            prev.push((rs[n - 1].file_path@, failure_message(rs[n - 1])))
        }
    }
}

/// Folds every successful file's stats into one total, counts the successes,
/// and lists the failed files with their error text.
pub fn summarize(results: &Vec<FileOutcome>) -> (r: BatchSummary)
    ensures
        r.stats == folded_stats(results@, results@.len()),
        r.successful_files == success_count(results@, results@.len()),
        r.failures@.len() == failure_list(results@, results@.len()).len(),
        forall|i: int|
            0 <= i < r.failures@.len() ==> (#[trigger] r.failures@[i]).0@ == failure_list(
                results@,
                results@.len(),
            )[i].0 && r.failures@[i].1@ == failure_list(results@, results@.len())[i].1,
{
    let n = results.len();
    let mut stats = PerformanceStats::default();
    stats.total_files = n;
    let mut successful_files: usize = 0;
    let mut failures: Vec<(String, String)> = Vec::new();
    let mut i: usize = 0;
    while i < n
        invariant
            n == results@.len(),
            i <= n,
            stats == folded_stats(results@, i as nat),
            successful_files == success_count(results@, i as nat),
            successful_files <= i,
            failures@.len() == failure_list(results@, i as nat).len(),
            forall|k: int|
                0 <= k < failures@.len() ==> (#[trigger] failures@[k]).0@ == failure_list(
                    results@,
                    i as nat,
                )[k].0 && failures@[k].1@ == failure_list(results@, i as nat)[k].1,
        decreases n - i,
    {
        let outcome = &results[i];
        if outcome.success {
            stats.add(&outcome.stats);
            successful_files = successful_files + 1;
        } else {
            let message = match &outcome.error {
                Some(e) => e.clone(),
                None => {
                    proof {
                        reveal_strlit("unknown error");
                    }
                    "unknown error".to_owned()
                },
            };
            failures.push((outcome.file_path.clone(), message));
        }
        i = i + 1;
    }
    BatchSummary { stats, successful_files, failures }
}

} // verus!
