//! A whole search session over an in-memory snapshot of a directory tree.
//!
//! [`search_tree`] runs the same loop the host runs over the real
//! filesystem, but over plain data and without timers or a cancellation
//! channel, so its outcome is a pure function of the snapshot and the
//! query: [`run_model`]. That function is the library's statement of what
//! one whole search computes, and makes idempotence a theorem rather than
//! an observation.

use vstd::prelude::*;
use crate::constants::{BATCH_SIZE, MAX_TOTAL_RESULTS};
use crate::engine::{
    contains_string, dropped_results, entry_step_model, kept_results,
    lemma_entry_transition_functional, DirPass, EntryInfo, EntryModel, PassModel, SearchEngine,
};
use crate::pattern::{build_regex, full_pattern, pattern_ok};
use crate::platform::normalized;
use crate::scan::{should_search_directory, wf_results};
use crate::types::{
    capped, lemma_result_count_concat, result_count, FileResultModel, SearchResponse, SearchStats,
};

verus! {

/// One directory of a tree snapshot: its path and its listed entries.
pub struct DirListing {
    pub path: String,
    pub entries: Vec<EntryInfo>,
}

/// The mathematical model of a [`DirListing`].
#[verifier::ext_equal]
pub ghost struct ListingModel {
    pub path: Seq<char>,
    pub entries: Seq<EntryModel>,
}

impl View for DirListing {
    type V = ListingModel;

    open spec fn view(&self) -> ListingModel {
        ListingModel { path: self.path@, entries: self.entries.deep_view() }
    }
}

impl DeepView for DirListing {
    type V = ListingModel;

    open spec fn deep_view(&self) -> ListingModel {
        self.view()
    }
}

/// The state of one model run: the work list, the visited set, the merged
/// results, the pending batch, the counters and the curtailment flag.
#[verifier::ext_equal]
pub ghost struct RunState {
    pub pending: Seq<Seq<char>>,
    pub visited: Seq<Seq<char>>,
    pub results: Seq<FileResultModel>,
    pub batch: Seq<FileResultModel>,
    pub stats: SearchStats,
    pub curtailed: bool,
    /// Match ranges counted but lost to per-directory truncation.
    pub dropped: nat,
}

/// The state a session starts from: the normalized root is the only
/// pending directory and every counter is zero.
pub open spec fn init_state(root: Seq<char>) -> RunState {
    RunState {
        pending: seq![normalized(root)],
        visited: Seq::empty(),
        results: Seq::empty(),
        batch: Seq::empty(),
        stats: SearchStats { files_searched: 0, total_matches: 0, directories_searched: 0 },
        curtailed: false,
        dropped: 0,
    }
}

/// The first listing of the snapshot with the given path, if any.
pub open spec fn lookup_model(tree: Seq<ListingModel>, path: Seq<char>) -> Option<Seq<EntryModel>>
    decreases tree.len(),
{
    if tree.len() == 0 {
        None
    } else if tree.first().path == path {
        Some(tree.first().entries)
    } else {
        lookup_model(tree.drop_first(), path)
    }
}

/// A whole directory pass: the entry step folded over the listed entries,
/// threading the work list and the pass state.
pub open spec fn pass_fold(
    p: Seq<char>,
    pending: Seq<Seq<char>>,
    entries: Seq<EntryModel>,
    pa: PassModel,
) -> (Seq<Seq<char>>, PassModel)
    decreases entries.len(),
{
    if entries.len() == 0 {
        (pending, pa)
    } else {
        let step = entry_step_model(pending, pa, entries.first(), p);
        pass_fold(p, step.0, entries.drop_first(), step.1)
    }
}

/// Closing one directory pass: the counters absorb the pass, and what
/// survives per-directory truncation is queued onto the batch.
pub open spec fn close_dir_model(st: RunState, pa: PassModel) -> RunState {
    RunState {
        pending: st.pending,
        visited: st.visited,
        results: st.results,
        batch: st.batch + kept_results(pa.results),
        stats: SearchStats {
            files_searched: capped((st.stats.files_searched + pa.files_seen) as nat),
            total_matches: capped((st.stats.total_matches + result_count(pa.results)) as nat),
            directories_searched: capped((st.stats.directories_searched + 1) as nat),
        },
        curtailed: st.curtailed,
        dropped: st.dropped + result_count(dropped_results(pa.results)),
    }
}

/// How many listings of the snapshot are not yet visited; the measure
/// that bounds a run.
pub open spec fn unvisited_count(tree: Seq<ListingModel>, visited: Seq<Seq<char>>) -> nat
    decreases tree.len(),
{
    if tree.len() == 0 {
        0
    } else {
        (if contains_string(visited, tree.first().path) {
            0nat
        } else {
            1nat
        }) + unvisited_count(tree.drop_first(), visited)
    }
}

proof fn lemma_unvisited_push_le(tree: Seq<ListingModel>, visited: Seq<Seq<char>>, x: Seq<char>)
    ensures
        unvisited_count(tree, visited.push(x)) <= unvisited_count(tree, visited),
    decreases tree.len(),
{
    if tree.len() > 0 {
        if contains_string(visited, tree.first().path) {
            let i = choose|i: int| 0 <= i < visited.len() && visited[i] == tree.first().path;
            assert(visited.push(x)[i] == tree.first().path);
        }
        lemma_unvisited_push_le(tree.drop_first(), visited, x);
    }
}

proof fn lemma_unvisited_push_lt(tree: Seq<ListingModel>, visited: Seq<Seq<char>>, x: Seq<char>)
    requires
        lookup_model(tree, x) is Some,
        !contains_string(visited, x),
    ensures
        unvisited_count(tree, visited.push(x)) < unvisited_count(tree, visited),
    decreases tree.len(),
{
    assert(tree.len() > 0);
    if tree.first().path == x {
        assert(visited.push(x)[visited.len() as int] == x);
        assert(contains_string(visited.push(x), x));
        lemma_unvisited_push_le(tree.drop_first(), visited, x);
    } else {
        if contains_string(visited, tree.first().path) {
            let i = choose|i: int| 0 <= i < visited.len() && visited[i] == tree.first().path;
            assert(visited.push(x)[i] == tree.first().path);
            assert(contains_string(visited.push(x), tree.first().path));
        } else {
            if contains_string(visited.push(x), tree.first().path) {
                let i = choose|i: int|
                    0 <= i < visited.push(x).len() && visited.push(x)[i] == tree.first().path;
                if i < visited.len() {
                    assert(visited[i] == tree.first().path);
                } else {
                    assert(visited.push(x)[i] == x);
                }
                assert(false);
            }
        }
        lemma_unvisited_push_lt(tree.drop_first(), visited, x);
    }
}

/// What one whole search computes: pop the next pending directory, flush
/// the batch when it is full, stop curtailed at the global result cap,
/// skip a directory seen before, skip one the snapshot cannot list, and
/// otherwise run a directory pass and close it.
pub open spec fn run_model(tree: Seq<ListingModel>, p: Seq<char>, st: RunState) -> RunState
    decreases unvisited_count(tree, st.visited), st.pending.len(),
    via run_model_decreases
{
    if st.curtailed || st.pending.len() == 0 {
        st
    } else {
        let cur = st.pending.first();
        let popped = RunState { pending: st.pending.drop_first(), ..st };
        let flushed = if popped.batch.len() >= BATCH_SIZE {
            RunState { results: popped.results + popped.batch, batch: Seq::empty(), ..popped }
        } else {
            popped
        };
        if flushed.results.len() >= MAX_TOTAL_RESULTS {
            RunState { curtailed: true, ..flushed }
        } else if contains_string(flushed.visited, cur) {
            run_model(tree, p, flushed)
        } else {
            let entered = RunState { visited: flushed.visited.push(cur), ..flushed };
            match lookup_model(tree, cur) {
                None => run_model(tree, p, entered),
                Some(entries) => {
                    let folded = pass_fold(
                        p,
                        entered.pending,
                        entries,
                        PassModel { results: Seq::empty(), files_seen: 0 },
                    );
                    let closed = close_dir_model(
                        RunState { pending: folded.0, ..entered },
                        folded.1,
                    );
                    run_model(tree, p, closed)
                },
            }
        }
    }
}

#[via_fn]
proof fn run_model_decreases(tree: Seq<ListingModel>, p: Seq<char>, st: RunState) {
    if !(st.curtailed || st.pending.len() == 0) {
        let cur = st.pending.first();
        lemma_unvisited_push_le(tree, st.visited, cur);
        if !contains_string(st.visited, cur) && lookup_model(tree, cur) is Some {
            lemma_unvisited_push_lt(tree, st.visited, cur);
        }
    }
}

/// The model state an engine is in.
pub open spec fn engine_state(e: SearchEngine) -> RunState {
    RunState {
        pending: e.pending.deep_view(),
        visited: e.visited.deep_view(),
        results: e.results.deep_view(),
        batch: e.batch.deep_view(),
        stats: e.stats,
        curtailed: e.curtailed,
        dropped: e.dropped@,
    }
}

/// What a terminal response of a timerless, uncancelled session over the
/// snapshot must hold: the run's results with its residual batch merged,
/// its statistics, and its curtailment flag.
pub open spec fn models_outcome(
    r: SearchResponse,
    tree: Seq<ListingModel>,
    root: Seq<char>,
    p: Seq<char>,
) -> bool {
    let run = run_model(tree, p, init_state(root));
    &&& r.results.deep_view() == run.results + run.batch
    &&& r.stats == run.stats
    &&& !r.cancelled
    &&& r.curtailed == run.curtailed
    &&& r.processing_time_ms == 0
}

/// Idempotence: two searches over an unchanged tree snapshot with
/// identical parameters report the same results — the same paths, line
/// numbers, line texts and match ranges in the same order — the same
/// statistics and the same flags.
pub proof fn lemma_search_idempotent(
    r1: SearchResponse,
    r2: SearchResponse,
    tree: Seq<ListingModel>,
    root: Seq<char>,
    p: Seq<char>,
)
    requires
        models_outcome(r1, tree, root, p),
        models_outcome(r2, tree, root, p),
    ensures
        r1.results.deep_view() == r2.results.deep_view(),
        r1.stats == r2.stats,
        r1.cancelled == r2.cancelled,
        r1.curtailed == r2.curtailed,
{
}

/// The paths of a run of file results, in order.
pub open spec fn result_paths(rs: Seq<FileResultModel>) -> Seq<Seq<char>> {
    rs.map_values(|r: FileResultModel| r.path)
}

/// No two entries of `s` are equal.
pub open spec fn distinct_seqs(s: Seq<Seq<char>>) -> bool {
    forall|i: int, j: int| 0 <= i < j < s.len() ==> s[i] != s[j]
}

/// The snapshot's file entries carry pairwise-distinct normalized paths:
/// no two file entries, in the same listing or in different ones, share a
/// path once separators are normalized.
pub open spec fn tree_paths_distinct(tree: Seq<ListingModel>) -> bool {
    forall|t1: int, e1: int, t2: int, e2: int|
        0 <= t1 < tree.len() && 0 <= e1 < tree[t1].entries.len() && 0 <= t2 < tree.len() && 0
            <= e2 < tree[t2].entries.len() && (t1 != t2 || e1 != e2) && (#[trigger] tree[t1]
            .entries[e1]).kind is File && (#[trigger] tree[t2].entries[e2]).kind is File
            ==> normalized(tree[t1].entries[e1].path) != normalized(tree[t2].entries[e2].path)
}

/// The file entries of one listing carry pairwise-distinct normalized
/// paths.
pub open spec fn entries_paths_distinct(entries: Seq<EntryModel>) -> bool {
    forall|e1: int, e2: int|
        0 <= e1 < e2 < entries.len() && (#[trigger] entries[e1]).kind is File && (
        #[trigger] entries[e2]).kind is File ==> normalized(entries[e1].path) != normalized(
            entries[e2].path,
        )
}

proof fn lemma_paths_concat(a: Seq<FileResultModel>, b: Seq<FileResultModel>)
    ensures
        result_paths(a + b) =~= result_paths(a) + result_paths(b),
{
}

/// A directory pass only appends records, and each appended record's path
/// is the normalized path of some file entry of the listing.
proof fn lemma_pass_fold_results(
    p: Seq<char>,
    pending: Seq<Seq<char>>,
    entries: Seq<EntryModel>,
    pa: PassModel,
)
    ensures
        pass_fold(p, pending, entries, pa).1.results.len() >= pa.results.len(),
        forall|k: int|
            0 <= k < pa.results.len() ==> #[trigger] pass_fold(
                p,
                pending,
                entries,
                pa,
            ).1.results[k] == pa.results[k],
        forall|k: int|
            pa.results.len() <= k < pass_fold(p, pending, entries, pa).1.results.len()
                ==> exists|e: int|
                0 <= e < entries.len() && (#[trigger] entries[e]).kind is File && (
                #[trigger] pass_fold(p, pending, entries, pa).1.results[k]).path == normalized(
                    entries[e].path,
                ),
    decreases entries.len(),
{
    if entries.len() > 0 {
        let step = entry_step_model(pending, pa, entries.first(), p);
        lemma_pass_fold_results(p, step.0, entries.drop_first(), step.1);
        let rs = pass_fold(p, pending, entries, pa).1.results;
        assert(rs == pass_fold(p, step.0, entries.drop_first(), step.1).1.results);
        assert forall|k: int| pa.results.len() <= k < rs.len() implies exists|e: int|
            0 <= e < entries.len() && (#[trigger] entries[e]).kind is File && (
            #[trigger] rs[k]).path == normalized(entries[e].path) by {
            if k < step.1.results.len() {
                assert(step.1.results.len() == pa.results.len() + 1);
                assert(k == pa.results.len());
                assert(rs[k] == step.1.results[k]);
                assert(entries[0].kind is File);
                assert(rs[k].path == normalized(entries[0].path));
            } else {
                let e1 = choose|e1: int|
                    0 <= e1 < entries.drop_first().len() && (#[trigger] entries.drop_first()[e1])
                        .kind is File && rs[k].path == normalized(entries.drop_first()[e1].path);
                assert(entries[e1 + 1] == entries.drop_first()[e1]);
                assert(entries[e1 + 1].kind is File && rs[k].path == normalized(
                    entries[e1 + 1].path,
                ));
            }
        }
    }
}

/// When the listing's file entries carry distinct normalized paths, the
/// records a pass appends carry distinct paths too.
proof fn lemma_pass_fold_distinct(
    p: Seq<char>,
    pending: Seq<Seq<char>>,
    entries: Seq<EntryModel>,
    pa: PassModel,
)
    requires
        entries_paths_distinct(entries),
    ensures
        forall|k1: int, k2: int|
            pa.results.len() <= k1 < k2 < pass_fold(p, pending, entries, pa).1.results.len()
                ==> (#[trigger] pass_fold(p, pending, entries, pa).1.results[k1]).path != (
            #[trigger] pass_fold(p, pending, entries, pa).1.results[k2]).path,
    decreases entries.len(),
{
    if entries.len() > 0 {
        let step = entry_step_model(pending, pa, entries.first(), p);
        assert(entries_paths_distinct(entries.drop_first())) by {
            assert forall|e1: int, e2: int|
                0 <= e1 < e2 < entries.drop_first().len() && (#[trigger] entries.drop_first()[e1])
                    .kind is File && (#[trigger] entries.drop_first()[e2]).kind is File implies
                normalized(entries.drop_first()[e1].path) != normalized(
                entries.drop_first()[e2].path,
            ) by {
                assert(entries.drop_first()[e1] == entries[e1 + 1]);
                assert(entries.drop_first()[e2] == entries[e2 + 1]);
            }
        }
        lemma_pass_fold_distinct(p, step.0, entries.drop_first(), step.1);
        lemma_pass_fold_results(p, step.0, entries.drop_first(), step.1);
        let rs = pass_fold(p, pending, entries, pa).1.results;
        assert(rs == pass_fold(p, step.0, entries.drop_first(), step.1).1.results);
        assert forall|k1: int, k2: int|
            pa.results.len() <= k1 < k2 < rs.len() implies (#[trigger] rs[k1]).path != (
            #[trigger] rs[k2]).path by {
            if k1 >= step.1.results.len() {
                // both lie in the inner pass's new region
            } else {
                // k1 names the record pushed for the first entry; k2 names
                // a record of a later file entry, whose path differs
                assert(step.1.results.len() == pa.results.len() + 1);
                assert(k1 == pa.results.len());
                assert(rs[k1] == step.1.results[k1]);
                assert(entries[0].kind is File);
                assert(rs[k1].path == normalized(entries[0].path));
                let e2 = choose|e2: int|
                    0 <= e2 < entries.drop_first().len() && (#[trigger] entries.drop_first()[e2])
                        .kind is File && rs[k2].path == normalized(entries.drop_first()[e2].path);
                assert(entries[e2 + 1] == entries.drop_first()[e2]);
            }
        }
    }
}

proof fn lemma_contains_push(visited: Seq<Seq<char>>, x: Seq<char>, y: Seq<char>)
    requires
        contains_string(visited, y),
    ensures
        contains_string(visited.push(x), y),
{
    let i = choose|i: int| 0 <= i < visited.len() && visited[i] == y;
    assert(visited.push(x)[i] == y);
}

/// A successful lookup names a listing of the snapshot.
proof fn lemma_lookup_index(tree: Seq<ListingModel>, path: Seq<char>)
    requires
        lookup_model(tree, path) is Some,
    ensures
        exists|t: int|
            0 <= t < tree.len() && (#[trigger] tree[t]).path == path && tree[t].entries
                == lookup_model(tree, path)->0,
    decreases tree.len(),
{
    if tree.first().path == path {
        assert(tree[0].path == path && tree[0].entries == lookup_model(tree, path)->0);
    } else {
        lemma_lookup_index(tree.drop_first(), path);
        let t = choose|t: int|
            0 <= t < tree.drop_first().len() && (#[trigger] tree.drop_first()[t]).path == path
                && tree.drop_first()[t].entries == lookup_model(tree.drop_first(), path)->0;
        assert(tree[t + 1] == tree.drop_first()[t]);
    }
}

/// No accumulated result path collides with a file entry of a directory
/// that is still to be visited.
pub open spec fn no_pending_collision(tree: Seq<ListingModel>, st: RunState) -> bool {
    forall|t: int, e: int|
        0 <= t < tree.len() && 0 <= e < tree[t].entries.len() && !contains_string(
            st.visited,
            tree[t].path,
        ) && (#[trigger] tree[t].entries[e]).kind is File ==> !result_paths(
            st.results + st.batch,
        ).contains(normalized(tree[t].entries[e].path))
}

/// The counting invariant of a run state: `total_matches` is the capped
/// number of ranges in the merged results, the pending batch, and what
/// truncation dropped.
pub open spec fn counts_ranges(st: RunState) -> bool {
    st.stats.total_matches == capped(
        result_count(st.results) + result_count(st.batch) + st.dropped,
    )
}

/// A whole run preserves the counting invariant: every range the counters
/// absorb is in the merged results, the pending batch, or the dropped
/// account, and nowhere else.
pub proof fn lemma_run_counts_ranges(tree: Seq<ListingModel>, p: Seq<char>, st: RunState)
    requires
        counts_ranges(st),
    ensures
        counts_ranges(run_model(tree, p, st)),
    decreases unvisited_count(tree, st.visited), st.pending.len(),
{
    if !(st.curtailed || st.pending.len() == 0) {
        let cur = st.pending.first();
        let popped = RunState { pending: st.pending.drop_first(), ..st };
        let flushed = if popped.batch.len() >= BATCH_SIZE {
            RunState { results: popped.results + popped.batch, batch: Seq::empty(), ..popped }
        } else {
            popped
        };
        if popped.batch.len() >= BATCH_SIZE {
            lemma_result_count_concat(popped.results, popped.batch);
        }
        assert(counts_ranges(flushed));
        if flushed.results.len() >= MAX_TOTAL_RESULTS {
        } else if contains_string(flushed.visited, cur) {
            lemma_run_counts_ranges(tree, p, flushed);
        } else {
            let entered = RunState { visited: flushed.visited.push(cur), ..flushed };
            lemma_unvisited_push_le(tree, st.visited, cur);
            match lookup_model(tree, cur) {
                None => {
                    lemma_run_counts_ranges(tree, p, entered);
                },
                Some(entries) => {
                    let folded = pass_fold(
                        p,
                        entered.pending,
                        entries,
                        PassModel { results: Seq::empty(), files_seen: 0 },
                    );
                    let closed = close_dir_model(
                        RunState { pending: folded.0, ..entered },
                        folded.1,
                    );
                    assert(kept_results(folded.1.results) + dropped_results(folded.1.results)
                        =~= folded.1.results);
                    lemma_result_count_concat(
                        kept_results(folded.1.results),
                        dropped_results(folded.1.results),
                    );
                    lemma_result_count_concat(entered.batch, kept_results(folded.1.results));
                    assert(counts_ranges(closed));
                    lemma_unvisited_push_lt(tree, st.visited, cur);
                    lemma_run_counts_ranges(tree, p, closed);
                },
            }
        }
    }
}

/// For a run in which per-directory truncation never dropped a counted
/// range, and whose count stayed within the machine's range, the reported
/// `total_matches` is exactly the number of match ranges over the
/// returned results.
pub proof fn lemma_total_matches_exact_run(
    tree: Seq<ListingModel>,
    p: Seq<char>,
    root: Seq<char>,
)
    requires
        run_model(tree, p, init_state(root)).dropped == 0,
        result_count(run_model(tree, p, init_state(root)).results) + result_count(
            run_model(tree, p, init_state(root)).batch,
        ) <= usize::MAX,
    ensures
        run_model(tree, p, init_state(root)).stats.total_matches == result_count(
            run_model(tree, p, init_state(root)).results + run_model(
                tree,
                p,
                init_state(root),
            ).batch,
        ),
{
    let run = run_model(tree, p, init_state(root));
    assert(counts_ranges(init_state(root)));
    lemma_run_counts_ranges(tree, p, init_state(root));
    lemma_result_count_concat(run.results, run.batch);
}

/// A whole run keeps result paths pairwise distinct: each directory is
/// expanded at most once (the visited set), each file of a pass is
/// scanned at most once, and distinct file entries carry distinct
/// normalized paths by hypothesis.
proof fn lemma_run_distinct_paths(tree: Seq<ListingModel>, p: Seq<char>, st: RunState)
    requires
        tree_paths_distinct(tree),
        distinct_seqs(result_paths(st.results + st.batch)),
        no_pending_collision(tree, st),
    ensures
        distinct_seqs(
            result_paths(run_model(tree, p, st).results + run_model(tree, p, st).batch),
        ),
    decreases unvisited_count(tree, st.visited), st.pending.len(),
{
    if !(st.curtailed || st.pending.len() == 0) {
        let cur = st.pending.first();
        let popped = RunState { pending: st.pending.drop_first(), ..st };
        let flushed = if popped.batch.len() >= BATCH_SIZE {
            RunState { results: popped.results + popped.batch, batch: Seq::empty(), ..popped }
        } else {
            popped
        };
        assert(flushed.results + flushed.batch =~= st.results + st.batch);
        assert(result_paths(flushed.results + flushed.batch) == result_paths(
            st.results + st.batch,
        ));
        assert(no_pending_collision(tree, flushed));
        if flushed.results.len() >= MAX_TOTAL_RESULTS {
        } else if contains_string(flushed.visited, cur) {
            lemma_run_distinct_paths(tree, p, flushed);
        } else {
            let entered = RunState { visited: flushed.visited.push(cur), ..flushed };
            lemma_unvisited_push_le(tree, st.visited, cur);
            assert(no_pending_collision(tree, entered)) by {
                assert forall|t: int, e: int|
                    0 <= t < tree.len() && 0 <= e < tree[t].entries.len() && !contains_string(
                        entered.visited,
                        tree[t].path,
                    ) && (#[trigger] tree[t].entries[e]).kind is File implies !result_paths(
                    entered.results + entered.batch,
                ).contains(normalized(tree[t].entries[e].path)) by {
                    if contains_string(st.visited, tree[t].path) {
                        lemma_contains_push(st.visited, cur, tree[t].path);
                    }
                }
            }
            match lookup_model(tree, cur) {
                None => {
                    lemma_run_distinct_paths(tree, p, entered);
                },
                Some(entries) => {
                    let pass0 = PassModel { results: Seq::empty(), files_seen: 0 };
                    let folded = pass_fold(p, entered.pending, entries, pass0);
                    let closed = close_dir_model(
                        RunState { pending: folded.0, ..entered },
                        folded.1,
                    );
                    lemma_lookup_index(tree, cur);
                    let t0 = choose|t: int|
                        0 <= t < tree.len() && (#[trigger] tree[t]).path == cur && tree[t].entries
                            == entries;
                    assert(entries_paths_distinct(entries)) by {
                        assert forall|e1: int, e2: int|
                            0 <= e1 < e2 < entries.len() && (#[trigger] entries[e1]).kind is File
                                && (#[trigger] entries[e2]).kind is File implies normalized(
                            entries[e1].path,
                        ) != normalized(entries[e2].path) by {
                            assert(tree[t0].entries[e1] == entries[e1]);
                            assert(tree[t0].entries[e2] == entries[e2]);
                        }
                    }
                    lemma_pass_fold_results(p, entered.pending, entries, pass0);
                    lemma_pass_fold_distinct(p, entered.pending, entries, pass0);
                    let kept = kept_results(folded.1.results);
                    let old_acc = st.results + st.batch;
                    let old_paths = result_paths(old_acc);
                    let new_acc = closed.results + closed.batch;
                    assert(new_acc =~= old_acc + kept);
                    lemma_paths_concat(old_acc, kept);
                    // every kept record is some file entry of the listing,
                    // which was unvisited, so its path is fresh
                    assert forall|k: int| 0 <= k < kept.len() implies !old_paths.contains(
                        (#[trigger] kept[k]).path,
                    ) && (exists|e: int|
                        0 <= e < entries.len() && (#[trigger] entries[e]).kind is File
                            && kept[k].path == normalized(entries[e].path)) by {
                        assert(kept[k] == folded.1.results[k]);
                        let e = choose|e: int|
                            0 <= e < entries.len() && (#[trigger] entries[e]).kind is File
                                && folded.1.results[k].path == normalized(entries[e].path);
                        assert(tree[t0].entries[e] == entries[e]);
                        assert(!contains_string(st.visited, tree[t0].path));
                        assert(!result_paths(st.results + st.batch).contains(
                            normalized(tree[t0].entries[e].path),
                        ));
                    }
                    assert(distinct_seqs(result_paths(new_acc))) by {
                        let new_paths = result_paths(new_acc);
                        assert forall|i: int, j: int| 0 <= i < j < new_paths.len() implies
                            new_paths[i] != new_paths[j] by {
                            assert(new_paths =~= old_paths + result_paths(kept));
                            if j < old_paths.len() {
                            } else if i < old_paths.len() {
                                assert(new_paths[j] == kept[j - old_paths.len()].path);
                                assert(!old_paths.contains(kept[j - old_paths.len()].path));
                                assert(new_paths[i] == old_paths[i]);
                            } else {
                                assert(new_paths[i] == kept[i - old_paths.len()].path);
                                assert(new_paths[j] == kept[j - old_paths.len()].path);
                                assert(kept[i - old_paths.len()] == folded.1.results[i
                                    - old_paths.len()]);
                                assert(kept[j - old_paths.len()] == folded.1.results[j
                                    - old_paths.len()]);
                            }
                        }
                    }
                    assert(no_pending_collision(tree, closed)) by {
                        assert forall|t: int, e: int|
                            0 <= t < tree.len() && 0 <= e < tree[t].entries.len()
                                && !contains_string(closed.visited, tree[t].path) && (
                            #[trigger] tree[t].entries[e]).kind is File implies !result_paths(
                            new_acc,
                        ).contains(normalized(tree[t].entries[e].path)) by {
                            let x = normalized(tree[t].entries[e].path);
                            assert(tree[t].path != cur) by {
                                if tree[t].path == cur {
                                    assert(entered.visited[st.visited.len() as int] == cur);
                                }
                            }
                            if contains_string(st.visited, tree[t].path) {
                                lemma_contains_push(st.visited, cur, tree[t].path);
                            }
                            assert(!old_paths.contains(x));
                            assert forall|k: int| 0 <= k < kept.len() implies (
                            #[trigger] kept[k]).path != x by {
                                let e0 = choose|e0: int|
                                    0 <= e0 < entries.len() && (#[trigger] entries[e0])
                                        .kind is File && kept[k].path == normalized(
                                        entries[e0].path,
                                    );
                                assert(tree[t0].entries[e0] == entries[e0]);
                                assert(t != t0);
                            }
                            assert forall|m: int| 0 <= m < result_paths(new_acc).len() implies (
                            #[trigger] result_paths(new_acc)[m]) != x by {
                                assert(result_paths(new_acc) =~= old_paths + result_paths(kept));
                                if m >= old_paths.len() {
                                    assert(result_paths(kept)[m - old_paths.len()] == kept[m
                                        - old_paths.len()].path);
                                }
                            }
                        }
                    }
                    lemma_unvisited_push_lt(tree, st.visited, cur);
                    lemma_run_distinct_paths(tree, p, closed);
                },
            }
        }
    }
}

/// Distinct result paths: over a snapshot whose file entries carry
/// pairwise-distinct normalized paths, no path appears twice across the
/// results of a whole run — each directory is expanded at most once and
/// each file contributes at most one record.
pub proof fn lemma_result_paths_distinct(tree: Seq<ListingModel>, p: Seq<char>, root: Seq<char>)
    requires
        tree_paths_distinct(tree),
    ensures
        distinct_seqs(
            result_paths(
                run_model(tree, p, init_state(root)).results + run_model(
                    tree,
                    p,
                    init_state(root),
                ).batch,
            ),
        ),
{
    let init = init_state(root);
    assert(init.results + init.batch =~= Seq::<FileResultModel>::empty());
    lemma_run_distinct_paths(tree, p, init);
}

/// The global cap: a run whose merged results have reached the total
/// result cap stops at its next step — it visits no further directory,
/// keeps the results it has, and reports itself curtailed.
pub proof fn lemma_global_cap_curtails(tree: Seq<ListingModel>, p: Seq<char>, st: RunState)
    requires
        !st.curtailed,
        st.pending.len() > 0,
        st.results.len() >= MAX_TOTAL_RESULTS,
        st.batch.len() < BATCH_SIZE,
    ensures
        run_model(tree, p, st).curtailed,
        run_model(tree, p, st).results == st.results,
        run_model(tree, p, st).visited == st.visited,
        run_model(tree, p, st).stats == st.stats,
{
}

/// The first listing with the given path, by linear scan.
fn lookup_listing<'a>(tree: &'a Vec<DirListing>, path: &String) -> (r: Option<
    &'a Vec<EntryInfo>,
>)
    ensures
        match r {
            Some(es) => lookup_model(tree.deep_view(), path@) == Some(es.deep_view()),
            None => lookup_model(tree.deep_view(), path@) is None,
        },
{
    let ghost tm = tree.deep_view();
    proof {
        assert(tm.skip(0) =~= tm);
    }
    let n = tree.len();
    let mut i: usize = 0;
    while i < n
        invariant
            tm == tree.deep_view(),
            tm.len() == tree@.len(),
            n == tree@.len(),
            i <= n,
            lookup_model(tm, path@) == lookup_model(tm.skip(i as int), path@),
        decreases n - i,
    {
        proof {
            assert(tm.skip(i as int).first() == tm[i as int]);
            assert(tm[i as int] == tree@[i as int]@);
        }
        let listing = &tree[i];
        if listing.path.eq(path) {
            return Some(&listing.entries);
        }
        proof {
            assert(tm.skip(i as int).drop_first() =~= tm.skip(i + 1 as int));
        }
        i = i + 1;
    }
    proof {
        assert(tm.skip(n as int).len() == 0);
    }
    None
}

/// Run one whole search over the snapshot: the same loop the host runs
/// over the real filesystem, without timers or cancellation. The response
/// is exactly what [`run_model`] computes from the snapshot, the root and
/// the compiled pattern; the only failure is a malformed pattern.
pub fn search_tree(
    tree: &Vec<DirListing>,
    root: &str,
    query: &str,
    is_regex: bool,
    is_case_sensitive: bool,
    is_whole_word: bool,
) -> (r: Result<SearchResponse, String>)
    ensures
        r is Ok <==> pattern_ok(full_pattern(query@, is_regex, is_case_sensitive, is_whole_word)),
        r is Ok ==> models_outcome(
            r->Ok_0,
            tree.deep_view(),
            root@,
            full_pattern(query@, is_regex, is_case_sensitive, is_whole_word),
        ),
        r is Ok ==> wf_results(r->Ok_0.results.deep_view()),
        r is Err ==> ("Invalid search pattern: "@).is_prefix_of(r->Err_0@),
{
    let matcher = match build_regex(query, is_regex, is_case_sensitive, is_whole_word) {
        Ok(m) => m,
        Err(e) => {
            return Err(e);
        },
    };
    let ghost tm = tree.deep_view();
    let ghost p = matcher@;
    let ghost init = init_state(root@);
    let mut engine = SearchEngine::new(root, u64::MAX);
    proof {
        assert(engine_state(engine) =~= init);
    }
    loop
        invariant
            tm == tree.deep_view(),
            p == matcher@,
            p == full_pattern(query@, is_regex, is_case_sensitive, is_whole_word),
            init == init_state(root@),
            pattern_ok(p),
            engine.timeout_ms == u64::MAX,
            !engine.curtailed,
            engine.results_ok(),
            run_model(tm, p, engine_state(engine)) == run_model(tm, p, init),
        decreases unvisited_count(tm, engine.visited.deep_view()), engine.pending@.len(),
    {
        let ghost st0 = engine_state(engine);
        let current = match engine.take_next_dir() {
            None => {
                proof {
                    assert(run_model(tm, p, st0) == st0);
                }
                let response = engine.finish_complete(0);
                return Ok(response);
            },
            Some(d) => d,
        };
        proof {
            assert(st0.pending[0] == current@);
            assert(current@ == st0.pending.first());
        }
        let ghost popped = RunState { pending: st0.pending.drop_first(), ..st0 };
        proof {
            assert(engine.pending.deep_view() =~= st0.pending.drop_first()) by {
                assert forall|j: int| 0 <= j < engine.pending@.len() implies #[trigger] engine
                    .pending
                    .deep_view()[j] == st0.pending.drop_first()[j] by {
                    assert(engine.pending.deep_view()[j] == engine.pending@[j]@);
                }
            }
            assert(engine_state(engine) =~= popped);
        }
        if engine.batch_due(false) {
            let _snapshot = engine.flush_batch(0);
        }
        let ghost flushed = if popped.batch.len() >= BATCH_SIZE as nat {
            RunState { results: popped.results + popped.batch, batch: Seq::empty(), ..popped }
        } else {
            popped
        };
        proof {
            if popped.batch.len() >= BATCH_SIZE as nat {
                assert(engine.batch.deep_view() =~= Seq::<FileResultModel>::empty());
            }
            assert(engine_state(engine) =~= flushed);
        }
        if engine.should_curtail(0) {
            engine.mark_curtailed();
            proof {
                assert(engine_state(engine) =~= (RunState { curtailed: true, ..flushed }));
                assert(run_model(tm, p, st0) == engine_state(engine));
            }
            let response = engine.finish_complete(0);
            return Ok(response);
        }
        if !should_search_directory(&current) || !engine.mark_visited(&current) {
            proof {
                assert(engine_state(engine) =~= flushed);
                assert(run_model(tm, p, st0) == run_model(tm, p, flushed));
            }
            continue;
        }
        let ghost entered = RunState { visited: flushed.visited.push(current@), ..flushed };
        proof {
            assert(engine_state(engine) =~= entered);
            lemma_unvisited_push_le(tm, st0.visited, current@);
        }
        match lookup_listing(tree, &current) {
            None => {
                proof {
                    assert(run_model(tm, p, st0) == run_model(tm, p, entered));
                }
                continue;
            },
            Some(entries) => {
                let ghost entries_m = entries.deep_view();
                let ghost pass_init = PassModel { results: Seq::empty(), files_seen: 0 };
                let ghost pend0 = engine.pending.deep_view();
                let mut pass = DirPass::new();
                proof {
                    assert(pass@ =~= pass_init);
                    assert(wf_results(pass.results.deep_view()));
                    assert(pass_fold(p, pend0, entries_m.skip(0), pass@) == pass_fold(
                        p,
                        pend0,
                        entries_m,
                        pass_init,
                    )) by {
                        assert(entries_m.skip(0) =~= entries_m);
                    }
                }
                let n = entries.len();
                let mut i: usize = 0;
                let ghost eng_frame = engine;
                while i < n
                    invariant
                        n == entries@.len(),
                        entries_m == entries.deep_view(),
                        entries_m.len() == entries@.len(),
                        p == matcher@,
                        i <= n,
                        engine.visited == eng_frame.visited,
                        engine.results == eng_frame.results,
                        engine.batch == eng_frame.batch,
                        engine.stats == eng_frame.stats,
                        engine.curtailed == eng_frame.curtailed,
                        engine.timeout_ms == eng_frame.timeout_ms,
                        engine.dropped == eng_frame.dropped,
                        wf_results(pass.results.deep_view()),
                        pass_fold(p, engine.pending.deep_view(), entries_m.skip(i as int), pass@)
                            == pass_fold(p, pend0, entries_m, pass_init),
                    decreases n - i,
                {
                    let entry = entries[i].clone();
                    let ghost entry_snapshot = entry;
                    let ghost engine_before = engine;
                    let ghost pass_before = pass;
                    engine.process_directory_entry(entry, &matcher, &mut pass);
                    proof {
                        lemma_entry_transition_functional(
                            engine_before,
                            pass_before,
                            entry_snapshot,
                            p,
                            engine,
                            pass,
                        );
                        assert(entry_snapshot@ == entries_m[i as int]) by {
                            assert(entries_m[i as int] == entries@[i as int]@);
                        }
                        assert(entries_m.skip(i as int).first() == entries_m[i as int]);
                        assert(entries_m.skip(i as int).drop_first() =~= entries_m.skip(
                            i + 1 as int,
                        ));
                    }
                    i = i + 1;
                }
                proof {
                    assert(entries_m.skip(n as int).len() == 0);
                }
                let ghost folded = pass_fold(p, entered.pending, entries_m, pass_init);
                proof {
                    assert(folded == (engine.pending.deep_view(), pass@));
                }
                let ghost closed = close_dir_model(
                    RunState { pending: folded.0, ..entered },
                    folded.1,
                );
                engine.finish_directory(pass);
                proof {
                    assert(engine_state(engine) =~= closed);
                    assert(run_model(tm, p, st0) == run_model(tm, p, closed));
                    lemma_unvisited_push_lt(tm, st0.visited, current@);
                }
            },
        }
    }
}

} // verus!
