//! Binning of the rows of a curve by X: the rows come in the order of X, and
//! neighbouring rows with the same X form one bin.
//!
//! The X values are given by keys: integers that are equal where the values
//! are equal and ordered as the values are.

use vstd::prelude::*;
use vstd::seq_lib::seq_to_set_is_finite;
use vstd::set_lib::lemma_len_subset;

verus! {

/// A run of neighbouring rows, `start..end`.
#[derive(Clone, Copy, Debug, PartialEq, Eq, Structural)]
pub struct Run {
    /// Index of the first row of the run.
    pub start: usize,
    /// Index behind the last row of the run.
    pub end: usize,
}

/// Whether `runs` cuts the rows with the keys `xs` into its bins: the runs
/// are not empty, follow one another from the first row to the last, hold
/// one key each, and no two neighbouring runs hold the same key.
pub open spec fn is_grouping(xs: Seq<i64>, runs: Seq<Run>) -> bool {
    &&& runs.len() == 0 <==> xs.len() == 0
    &&& forall|i: int| 0 <= i < runs.len() ==> (#[trigger] runs[i]).start < runs[i].end <= xs.len()
    &&& runs.len() > 0 ==> runs[0].start == 0 && runs.last().end == xs.len()
    &&& forall|i: int| 0 <= i < runs.len() - 1 ==> (#[trigger] runs[i]).end == runs[i + 1].start
    &&& forall|i: int, j: int|
        0 <= i < runs.len() && runs[i].start <= j < runs[i].end ==> #[trigger] xs[j] == xs[(
        #[trigger] runs[i]).start as int]
    &&& forall|i: int|
        0 <= i < runs.len() - 1 ==> xs[(#[trigger] runs[i]).end - 1] != xs[runs[i].end as int]
}

/// The keys never fall from one row to the next.
pub open spec fn ascending(xs: Seq<i64>) -> bool {
    forall|i: int, j: int| 0 <= i <= j < xs.len() ==> xs[i] <= xs[j]
}

/// The key of every run, in the order of the runs.
pub open spec fn run_keys(xs: Seq<i64>, runs: Seq<Run>) -> Seq<i64> {
    Seq::new(runs.len(), |i: int| xs[runs[i].start as int])
}

/// Cuts rows into bins by their keys.
pub fn group_runs(xs: &Vec<i64>) -> (runs: Vec<Run>)
    ensures
        is_grouping(xs@, runs@),
{
    let mut runs: Vec<Run> = Vec::new();
    if xs.len() == 0 {
        return runs;
    }
    let mut start: usize = 0;
    let mut i: usize = 1;
    while i < xs.len()
        invariant
            0 <= start < i <= xs.len(),
            forall|j: int| start <= j < i ==> xs@[j] == xs@[start as int],
            forall|r: int| 0 <= r < runs.len() ==> (#[trigger] runs@[r]).start < runs@[r].end <= start,
            runs.len() > 0 ==> runs@[0].start == 0 && runs@.last().end == start,
            runs.len() == 0 ==> start == 0,
            forall|r: int| 0 <= r < runs.len() - 1 ==> (#[trigger] runs@[r]).end == runs@[r + 1].start,
            forall|r: int, j: int|
                0 <= r < runs.len() && runs@[r].start <= j < runs@[r].end ==> #[trigger] xs@[j]
                    == xs@[(#[trigger] runs@[r]).start as int],
            forall|r: int|
                0 <= r < runs.len() - 1 ==> xs@[(#[trigger] runs@[r]).end - 1] != xs@[runs@[r].end as int],
            runs.len() > 0 ==> xs@[start - 1] != xs@[start as int],
        decreases xs.len() - i,
    {
        if xs[i] != xs[start] {
            runs.push(Run { start, end: i });
            start = i;
        }
        i += 1;
    }
    runs.push(Run { start, end: xs.len() });
    runs
}

/// Rows that all share one X value form exactly one bin.
pub proof fn lemma_one_value_one_bin(xs: Seq<i64>, runs: Seq<Run>)
    requires
        is_grouping(xs, runs),
        xs.len() > 0,
        forall|i: int, j: int| 0 <= i < xs.len() && 0 <= j < xs.len() ==> xs[i] == xs[j],
    ensures
        runs.len() == 1,
{
    if runs.len() > 1 {
        let cut = runs[0].end as int;
        assert(runs[1].start == cut);
        assert(runs[1].start < runs[1].end <= xs.len());
        assert(xs[cut - 1] != xs[cut]);
    }
}

/// In rows that come in the order of X the keys of the bins rise strictly.
pub proof fn lemma_run_keys_rise(xs: Seq<i64>, runs: Seq<Run>, a: int, b: int)
    requires
        is_grouping(xs, runs),
        ascending(xs),
        0 <= a < b < runs.len(),
    ensures
        run_keys(xs, runs)[a] < run_keys(xs, runs)[b],
    decreases b - a,
{
    let cut = runs[b - 1].end as int;
    assert(runs[b].start == cut);
    assert(runs[b - 1].start < runs[b - 1].end);
    assert(xs[cut - 1] == xs[runs[b - 1].start as int]);
    assert(xs[cut - 1] != xs[cut]);
    assert(runs[b].start < runs[b].end <= xs.len());
    assert(xs[cut - 1] <= xs[cut]);
    if a < b - 1 {
        lemma_run_keys_rise(xs, runs, a, b - 1);
    }
}

/// Rows that come in the order of X and hold `n` different X values form at
/// most `n` bins.
pub proof fn lemma_bins_bounded(xs: Seq<i64>, runs: Seq<Run>)
    requires
        is_grouping(xs, runs),
        ascending(xs),
    ensures
        runs.len() <= xs.to_set().len(),
{
    let keys = run_keys(xs, runs);
    assert forall|a: int, b: int| 0 <= a < keys.len() && 0 <= b < keys.len() && a != b implies keys[a]
        != keys[b] by {
        if a < b {
            lemma_run_keys_rise(xs, runs, a, b);
        } else {
            lemma_run_keys_rise(xs, runs, b, a);
        }
    }
    assert(keys.no_duplicates());
    keys.unique_seq_to_set();
    assert forall|v: i64| keys.to_set().contains(v) implies xs.to_set().contains(v) by {
        let i = choose|i: int| 0 <= i < keys.len() && keys[i] == v;
        assert(runs[i].start < runs[i].end <= xs.len());
        assert(xs[runs[i].start as int] == v);
        assert(xs.contains(v));
    }
    seq_to_set_is_finite(xs);
    lemma_len_subset(keys.to_set(), xs.to_set());
}

} // verus!
