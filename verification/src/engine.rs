//! The traversal scheduler, result aggregator and batcher of one search
//! session.
//!
//! The engine owns the work list of pending directories, the visited set,
//! the accumulated results, the pending micro-batch and the running
//! statistics. The host drives it: it pops a directory, lists it, feeds
//! each entry back with its probes, and asks for flushes and termination
//! decisions. Every decision the engine makes is a pure function of the
//! values handed to it.

use vstd::prelude::*;
use vstd::string::*;
use vstd::utf8::{decode_utf8, valid_utf8};
use crate::constants::{BATCH_SIZE, MAX_FILES_PER_DIR, MAX_RESULTS_PER_DIR, MAX_TOTAL_RESULTS};
use crate::pattern::Matcher;
use crate::platform::{base_of, normalize_path, normalized};
use crate::scan::{
    lemma_wf_results_concat, lemma_wf_results_take, matched_models, option_bytes, scan_model,
    search_file, should_prioritize_directory, should_skip_file, skip_file, priority_name,
    wf_result_ranges, wf_results,
};
use crate::text::{decode_text, lines_of};
use crate::types::{
    capped, clone_results, lemma_result_count_concat, result_count, FileResultModel,
    SearchFileResult, SearchProgress, SearchResponse, SearchStats,
};

verus! {

/// The kind of one directory entry, as the host's type probe reported it;
/// `Unknown` stands for a failed probe or an entry of another kind.
#[derive(Clone, Copy, Debug, PartialEq, Eq, Structural)]
pub enum EntryKind {
    File,
    Directory,
    Unknown,
}

/// One directory entry as the host hands it to the engine: its raw path,
/// its kind, and for a file the size probe and the full-content probe,
/// each absent if the host's read failed.
pub struct EntryInfo {
    pub path: String,
    pub kind: EntryKind,
    pub size: Option<u64>,
    pub bytes: Option<Vec<u8>>,
}

/// The running state of a single directory pass: the file results found in
/// the directory so far, and how many files were examined in it.
pub struct DirPass {
    pub results: Vec<SearchFileResult>,
    pub files_seen: usize,
}

impl DirPass {
    /// A fresh pass with nothing seen yet.
    pub fn new() -> (p: DirPass)
        ensures
            p.results@.len() == 0,
            p.files_seen == 0,
    {
        DirPass { results: Vec::new(), files_seen: 0 }
    }
}

pub open spec fn contains_string(vs: Seq<Seq<char>>, x: Seq<char>) -> bool {
    exists|i: int| 0 <= i < vs.len() && vs[i] == x
}

/// The state of one search session.
pub struct SearchEngine {
    /// The deque of directories still to visit; the next one is at the
    /// front, priority directories are pushed to the front, ordinary ones
    /// to the back.
    pub pending: Vec<String>,
    /// Directories already visited, guarding against re-enqueueing.
    pub visited: Vec<String>,
    /// Results already merged out of flushed batches.
    pub results: Vec<SearchFileResult>,
    /// Results awaiting the next batch flush.
    pub batch: Vec<SearchFileResult>,
    /// The running counters.
    pub stats: SearchStats,
    /// Whether the timeout or the global result cap ended the search.
    pub curtailed: bool,
    /// The caller's wall-clock budget in milliseconds.
    pub timeout_ms: u64,
    /// How many match ranges were counted but later dropped, by
    /// per-directory truncation or a cancellation discard.
    pub dropped: Ghost<nat>,
}

impl SearchEngine {
    /// All match ranges ever counted: those in the merged results, those
    /// still in the batch, and those dropped.
    pub open spec fn counted(self) -> nat {
        result_count(self.results.deep_view()) + result_count(self.batch.deep_view())
            + self.dropped@
    }

    /// The statistics invariant: `total_matches` is the counted total,
    /// saturated at the machine's limit.
    pub open spec fn wf(self) -> bool {
        self.stats.total_matches == capped(self.counted())
    }

    /// Every record held in the merged results and in the pending batch
    /// has well-formed range lists.
    pub open spec fn results_ok(self) -> bool {
        wf_results(self.results.deep_view()) && wf_results(self.batch.deep_view())
    }

    /// Open a session: the work list is seeded with the normalized root
    /// and every counter starts at zero.
    pub fn new(root: &str, timeout_ms: u64) -> (e: SearchEngine)
        ensures
            e.pending.deep_view() == seq![normalized(root@)],
            e.visited@.len() == 0,
            e.results@.len() == 0,
            e.batch@.len() == 0,
            e.stats == (SearchStats { files_searched: 0, total_matches: 0, directories_searched: 0 }),
            !e.curtailed,
            e.timeout_ms == timeout_ms,
            e.dropped@ == 0,
            e.wf(),
    {
        let mut pending: Vec<String> = Vec::new();
        pending.push(normalize_path(root));
        let e = SearchEngine {
            pending,
            visited: Vec::new(),
            results: Vec::new(),
            batch: Vec::new(),
            stats: SearchStats { files_searched: 0, total_matches: 0, directories_searched: 0 },
            curtailed: false,
            timeout_ms,
            dropped: Ghost(0),
        };
        proof {
            assert(e.pending.deep_view() =~= seq![normalized(root@)]);
            assert(e.results.deep_view() =~= Seq::<FileResultModel>::empty());
            assert(e.batch.deep_view() =~= Seq::<FileResultModel>::empty());
        }
        e
    }

    /// Pop the next directory off the front of the work list; `None` means
    /// the tree is exhausted and the search completes naturally.
    pub fn take_next_dir(&mut self) -> (r: Option<String>)
        ensures
            match r {
                None => old(self).pending@.len() == 0 && *final(self) == *old(self),
                Some(d) => {
                    &&& old(self).pending@.len() > 0
                    &&& d == old(self).pending@[0]
                    &&& final(self).pending@ == old(self).pending@.drop_first()
                    &&& final(self).visited == old(self).visited
                    &&& final(self).results == old(self).results
                    &&& final(self).batch == old(self).batch
                    &&& final(self).stats == old(self).stats
                    &&& final(self).curtailed == old(self).curtailed
                    &&& final(self).timeout_ms == old(self).timeout_ms
                    &&& final(self).dropped == old(self).dropped
                },
            },
    {
        if self.pending.is_empty() {
            None
        } else {
            let d = self.pending.remove(0);
            proof {
                assert(self.pending@ =~= old(self).pending@.drop_first());
            }
            Some(d)
        }
    }

    /// Record a directory as visited; false means it was seen before and
    /// must be skipped.
    pub fn mark_visited(&mut self, dir: &String) -> (fresh: bool)
        ensures
            fresh == !contains_string(old(self).visited.deep_view(), dir@),
            !fresh ==> *final(self) == *old(self),
            fresh ==> final(self).visited.deep_view() == old(self).visited.deep_view().push(dir@),
            final(self).pending == old(self).pending,
            final(self).results == old(self).results,
            final(self).batch == old(self).batch,
            final(self).stats == old(self).stats,
            final(self).curtailed == old(self).curtailed,
            final(self).timeout_ms == old(self).timeout_ms,
            final(self).dropped == old(self).dropped,
    {
        let n = self.visited.len();
        let mut i: usize = 0;
        while i < n
            invariant
                n == self.visited@.len(),
                i <= n,
                *self == *old(self),
                forall|j: int| 0 <= j < i ==> (#[trigger] self.visited@[j])@ != dir@,
            decreases n - i,
        {
            if self.visited[i].eq(dir) {
                proof {
                    assert(self.visited.deep_view()[i as int] == self.visited@[i as int]@);
                    assert(contains_string(old(self).visited.deep_view(), dir@));
                }
                return false;
            }
            i = i + 1;
        }
        proof {
            assert forall|j: int|
                0 <= j < old(self).visited.deep_view().len() implies #[trigger] old(
                self,
            ).visited.deep_view()[j] != dir@ by {
                assert(old(self).visited.deep_view()[j] == old(self).visited@[j]@);
            }
        }
        self.visited.push(dir.clone());
        proof {
            assert(self.visited.deep_view() =~= old(self).visited.deep_view().push(dir@));
        }
        true
    }

    /// Whether the session must stop early: the wall clock has run past
    /// the budget, or the merged results have reached the global cap.
    pub fn should_curtail(&self, elapsed_ms: u64) -> (r: bool)
        ensures
            r == (elapsed_ms > self.timeout_ms || self.results@.len() >= MAX_TOTAL_RESULTS),
    {
        elapsed_ms > self.timeout_ms || self.results.len() >= MAX_TOTAL_RESULTS
    }

    /// Note that the search was cut short by the timeout or the cap.
    pub fn mark_curtailed(&mut self)
        ensures
            final(self).curtailed,
            final(self).pending == old(self).pending,
            final(self).visited == old(self).visited,
            final(self).results == old(self).results,
            final(self).batch == old(self).batch,
            final(self).stats == old(self).stats,
            final(self).timeout_ms == old(self).timeout_ms,
            final(self).dropped == old(self).dropped,
    {
        self.curtailed = true;
    }

    /// Whether the pending batch must be flushed now: it is non-empty and
    /// either full or overdue.
    pub fn batch_due(&self, early_timer_elapsed: bool) -> (r: bool)
        ensures
            r == (self.batch@.len() > 0 && (self.batch@.len() >= BATCH_SIZE
                || early_timer_elapsed)),
    {
        self.batch.len() > 0 && (self.batch.len() >= BATCH_SIZE || early_timer_elapsed)
    }

    /// Merge the pending batch into the results and return the
    /// early-results snapshot to send to the observer: the full result set
    /// so far with the current statistics, never flagged as cancelled or
    /// curtailed.
    pub fn flush_batch(&mut self, elapsed_ms: u64) -> (snap: SearchResponse)
        ensures
            old(self).wf() ==> final(self).wf(),
            old(self).results_ok() ==> final(self).results_ok() && wf_results(
                snap.results.deep_view(),
            ),
            final(self).results.deep_view() == old(self).results.deep_view() + old(
                self,
            ).batch.deep_view(),
            final(self).batch@.len() == 0,
            final(self).pending == old(self).pending,
            final(self).visited == old(self).visited,
            final(self).stats == old(self).stats,
            final(self).curtailed == old(self).curtailed,
            final(self).timeout_ms == old(self).timeout_ms,
            final(self).dropped == old(self).dropped,
            snap.results.deep_view() == final(self).results.deep_view(),
            snap.stats == final(self).stats,
            !snap.cancelled,
            !snap.curtailed,
            snap.processing_time_ms == elapsed_ms,
    {
        let ghost old_results = self.results.deep_view();
        let ghost old_batch = self.batch.deep_view();
        self.results.append(&mut self.batch);
        proof {
            assert(self.results.deep_view() =~= old_results + old_batch);
            assert(self.batch.deep_view() =~= Seq::<FileResultModel>::empty());
            lemma_result_count_concat(old_results, old_batch);
            if wf_results(old_results) && wf_results(old_batch) {
                lemma_wf_results_concat(old_results, old_batch);
            }
        }
        let snapshot_results = clone_results(&self.results);
        SearchResponse {
            results: snapshot_results,
            stats: self.stats,
            cancelled: false,
            curtailed: false,
            processing_time_ms: elapsed_ms,
        }
    }

    /// Feed one directory entry through the filter, the classifier and the
    /// scanner, exactly as [`entry_transition`] describes.
    pub fn process_directory_entry(
        &mut self,
        entry: EntryInfo,
        matcher: &Matcher,
        pass: &mut DirPass,
    )
        ensures
            entry_transition(*old(self), *old(pass), entry, matcher@, *final(self), *final(pass)),
            wf_results(old(pass).results.deep_view()) ==> wf_results(
                final(pass).results.deep_view(),
            ),
    {
        match entry.kind {
            EntryKind::Directory => {
                if should_prioritize_directory(entry.path.as_str()) {
                    self.pending.insert(0, entry.path);
                } else {
                    self.pending.push(entry.path);
                }
            },
            EntryKind::Unknown => {},
            EntryKind::File => {
                if !should_skip_file(&entry.size, &entry.bytes) {
                    pass.files_seen = pass.files_seen.saturating_add(1);
                    if pass.files_seen <= MAX_FILES_PER_DIR {
                        let ghost rs_pre = pass.results.deep_view();
                        if let Some(b) = entry.bytes {
                            if let Some(content) = decode_text(b) {
                                if let Some(res) = search_file(
                                    entry.path.as_str(),
                                    content.as_str(),
                                    matcher,
                                ) {
                                    pass.results.push(res);
                                    proof {
                                        assert(pass.results.deep_view() =~= rs_pre.push(res@));
                                        if wf_results(rs_pre) {
                                            assert forall|k: int|
                                                0 <= k < rs_pre.push(res@).len() implies wf_result_ranges(
                                                #[trigger] rs_pre.push(res@)[k],
                                            ) by {
                                                if k < rs_pre.len() {
                                                    assert(rs_pre.push(res@)[k] == rs_pre[k]);
                                                } else {
                                                    assert(rs_pre.push(res@)[k] == res@);
                                                }
                                            }
                                        }
                                    }
                                }
                            }
                        }
                    }
                }
            },
        }
    }

    /// Close one directory pass: account the files examined and the
    /// directory itself, count every range the pass found, truncate the
    /// pass to the per-directory cap, and queue what is kept onto the
    /// batch. Truncation never raises `curtailed`.
    pub fn finish_directory(&mut self, pass: DirPass)
        ensures
            old(self).wf() ==> final(self).wf(),
            old(self).results_ok() && wf_results(pass.results.deep_view())
                ==> final(self).results_ok(),
            final(self).pending == old(self).pending,
            final(self).visited == old(self).visited,
            final(self).results == old(self).results,
            final(self).curtailed == old(self).curtailed,
            final(self).timeout_ms == old(self).timeout_ms,
            final(self).stats.files_searched == capped(
                (old(self).stats.files_searched + pass.files_seen) as nat,
            ),
            final(self).stats.directories_searched == capped(
                (old(self).stats.directories_searched + 1) as nat,
            ),
            final(self).stats.total_matches == capped(
                (old(self).stats.total_matches + result_count(pass.results.deep_view())) as nat,
            ),
            final(self).batch.deep_view() == old(self).batch.deep_view() + kept_results(
                pass.results.deep_view(),
            ),
            final(self).dropped@ == old(self).dropped@ + result_count(
                dropped_results(pass.results.deep_view()),
            ),
    {
        let ghost all = pass.results.deep_view();
        self.stats.files_searched = self.stats.files_searched.saturating_add(pass.files_seen);
        self.stats.directories_searched = self.stats.directories_searched.saturating_add(1);
        let found = count_results(&pass.results);
        self.stats.total_matches = self.stats.total_matches.saturating_add(found);
        let mut kept = pass.results;
        if kept.len() > MAX_RESULTS_PER_DIR {
            kept.truncate(MAX_RESULTS_PER_DIR);
        }
        proof {
            assert(kept.deep_view() =~= kept_results(all));
            assert(kept_results(all) + dropped_results(all) =~= all);
            lemma_result_count_concat(kept_results(all), dropped_results(all));
        }
        let ghost old_batch = self.batch.deep_view();
        self.dropped = Ghost(self.dropped@ + result_count(dropped_results(all)));
        self.batch.append(&mut kept);
        proof {
            assert(self.batch.deep_view() =~= old_batch + kept_results(all));
            lemma_result_count_concat(old_batch, kept_results(all));
            if wf_results(old_batch) && wf_results(all) {
                if all.len() > MAX_RESULTS_PER_DIR {
                    lemma_wf_results_take(all, MAX_RESULTS_PER_DIR as int);
                }
                lemma_wf_results_concat(old_batch, kept_results(all));
            }
        }
    }

    /// The progress snapshot: the current counters and the elapsed time.
    pub fn progress(&self, elapsed_ms: u64) -> (p: SearchProgress)
        ensures
            p.files_searched == self.stats.files_searched,
            p.directories_searched == self.stats.directories_searched,
            p.total_matches == self.stats.total_matches,
            p.processing_time_ms == elapsed_ms,
    {
        SearchProgress {
            files_searched: self.stats.files_searched,
            directories_searched: self.stats.directories_searched,
            total_matches: self.stats.total_matches,
            processing_time_ms: elapsed_ms,
        }
    }

    /// End the session on an observed cancellation: the merged results are
    /// returned as they stand, the un-flushed batch is discarded, and the
    /// response is flagged cancelled and never curtailed.
    pub fn finish_cancelled(self, elapsed_ms: u64) -> (r: SearchResponse)
        ensures
            r.results.deep_view() == self.results.deep_view(),
            self.results_ok() ==> wf_results(r.results.deep_view()),
            r.stats == self.stats,
            r.cancelled,
            !r.curtailed,
            r.processing_time_ms == elapsed_ms,
    {
        SearchResponse {
            results: self.results,
            stats: self.stats,
            cancelled: true,
            curtailed: false,
            processing_time_ms: elapsed_ms,
        }
    }

    /// End the session on natural completion, timeout or the result cap:
    /// residual batch entries are merged into the results, and the
    /// response carries the curtailment flag. When nothing was ever
    /// dropped and the count stayed within the machine's range, the
    /// reported `total_matches` is exactly the number of ranges returned.
    pub fn finish_complete(self, elapsed_ms: u64) -> (r: SearchResponse)
        ensures
            r.results.deep_view() == self.results.deep_view() + self.batch.deep_view(),
            self.results_ok() ==> wf_results(r.results.deep_view()),
            r.stats == self.stats,
            !r.cancelled,
            r.curtailed == self.curtailed,
            r.processing_time_ms == elapsed_ms,
            self.wf() && self.dropped@ == 0 && self.counted() <= usize::MAX
                ==> r.stats.total_matches == result_count(r.results.deep_view()),
    {
        let ghost old_results = self.results.deep_view();
        let ghost old_batch = self.batch.deep_view();
        let mut results = self.results;
        let mut batch = self.batch;
        results.append(&mut batch);
        proof {
            assert(results.deep_view() =~= old_results + old_batch);
            lemma_result_count_concat(old_results, old_batch);
            if wf_results(old_results) && wf_results(old_batch) {
                lemma_wf_results_concat(old_results, old_batch);
            }
        }
        SearchResponse {
            results,
            stats: self.stats,
            cancelled: false,
            curtailed: self.curtailed,
            processing_time_ms: elapsed_ms,
        }
    }
}

/// The results a directory pass keeps after per-directory truncation.
pub open spec fn kept_results(rs: Seq<FileResultModel>) -> Seq<FileResultModel> {
    if rs.len() > MAX_RESULTS_PER_DIR {
        rs.take(MAX_RESULTS_PER_DIR as int)
    } else {
        rs
    }
}

/// The results a directory pass loses to per-directory truncation.
pub open spec fn dropped_results(rs: Seq<FileResultModel>) -> Seq<FileResultModel> {
    if rs.len() > MAX_RESULTS_PER_DIR {
        rs.skip(MAX_RESULTS_PER_DIR as int)
    } else {
        Seq::empty()
    }
}

/// Whether scanning this entry produces a file record: its contents could
/// be read, they decode as text, and some line matches.
pub open spec fn file_yields(entry: EntryInfo, p: Seq<char>) -> bool {
    &&& entry.bytes is Some
    &&& valid_utf8(entry.bytes->0@)
    &&& matched_models(p, lines_of(decode_utf8(entry.bytes->0@))).len() != 0
}

/// How one scanned file extends the pass results: one scan record exactly
/// when the file yields, nothing otherwise.
pub open spec fn scan_step(
    rs_pre: Seq<FileResultModel>,
    entry: EntryInfo,
    p: Seq<char>,
    rs_post: Seq<FileResultModel>,
) -> bool {
    if file_yields(entry, p) {
        rs_post == rs_pre.push(scan_model(p, entry.path@, decode_utf8(entry.bytes->0@)))
    } else {
        rs_post == rs_pre
    }
}

/// How one directory pass advances on one file entry: an excluded file
/// changes nothing; any other file is counted against the directory's
/// budget and, while the budget lasts, scanned.
pub open spec fn file_transition(
    pass_pre: DirPass,
    entry: EntryInfo,
    p: Seq<char>,
    pass_post: DirPass,
) -> bool {
    if skip_file(entry.size, option_bytes(entry.bytes)) {
        pass_post == pass_pre
    } else {
        &&& pass_post.files_seen == capped((pass_pre.files_seen + 1) as nat)
        &&& if pass_post.files_seen > MAX_FILES_PER_DIR {
            pass_post.results == pass_pre.results
        } else {
            scan_step(pass_pre.results.deep_view(), entry, p, pass_post.results.deep_view())
        }
    }
}

/// What processing one directory entry does: a directory is enqueued, at
/// the front when its name is on the priority allowlist and at the back
/// otherwise; a file runs through the pass; anything else changes nothing.
pub open spec fn entry_transition(
    pre: SearchEngine,
    pass_pre: DirPass,
    entry: EntryInfo,
    p: Seq<char>,
    post: SearchEngine,
    pass_post: DirPass,
) -> bool {
    match entry.kind {
        EntryKind::Directory => {
            &&& pass_post == pass_pre
            &&& post.visited == pre.visited
            &&& post.results == pre.results
            &&& post.batch == pre.batch
            &&& post.stats == pre.stats
            &&& post.curtailed == pre.curtailed
            &&& post.timeout_ms == pre.timeout_ms
            &&& post.dropped == pre.dropped
            &&& post.pending@ == (if priority_name(base_of(entry.path@)) {
                pre.pending@.insert(0, entry.path)
            } else {
                pre.pending@.push(entry.path)
            })
        },
        EntryKind::Unknown => post == pre && pass_post == pass_pre,
        EntryKind::File => {
            &&& post == pre
            &&& file_transition(pass_pre, entry, p, pass_post)
        },
    }
}

/// The mathematical model of an [`EntryInfo`].
#[verifier::ext_equal]
pub ghost struct EntryModel {
    pub path: Seq<char>,
    pub kind: EntryKind,
    pub size: Option<u64>,
    pub bytes: Option<Seq<u8>>,
}

impl View for EntryInfo {
    type V = EntryModel;

    open spec fn view(&self) -> EntryModel {
        EntryModel {
            path: self.path@,
            kind: self.kind,
            size: self.size,
            bytes: option_bytes(self.bytes),
        }
    }
}

impl DeepView for EntryInfo {
    type V = EntryModel;

    open spec fn deep_view(&self) -> EntryModel {
        self.view()
    }
}

/// The mathematical model of a [`DirPass`].
#[verifier::ext_equal]
pub ghost struct PassModel {
    pub results: Seq<FileResultModel>,
    pub files_seen: usize,
}

impl View for DirPass {
    type V = PassModel;

    open spec fn view(&self) -> PassModel {
        PassModel { results: self.results.deep_view(), files_seen: self.files_seen }
    }
}

fn clone_bytes(v: &Vec<u8>) -> (r: Vec<u8>)
    ensures
        r@ == v@,
{
    let mut out: Vec<u8> = Vec::new();
    let mut i: usize = 0;
    while i < v.len()
        invariant
            i <= v@.len(),
            out@ == v@.take(i as int),
        decreases v@.len() - i,
    {
        out.push(v[i]);
        proof {
            assert(v@.take(i + 1 as int) =~= v@.take(i as int).push(v@[i as int]));
        }
        i = i + 1;
    }
    proof {
        assert(v@.take(v@.len() as int) =~= v@);
    }
    out
}

impl Clone for EntryInfo {
    fn clone(&self) -> (r: Self)
        ensures
            r@ == self@,
    {
        EntryInfo {
            path: self.path.clone(),
            kind: self.kind,
            size: self.size,
            bytes: match &self.bytes {
                Some(b) => Some(clone_bytes(b)),
                None => None,
            },
        }
    }
}

/// Whether scanning this entry produces a file record, stated over the
/// entry's model.
pub open spec fn yields_model(e: EntryModel, p: Seq<char>) -> bool {
    &&& e.bytes is Some
    &&& valid_utf8(e.bytes->0)
    &&& matched_models(p, lines_of(decode_utf8(e.bytes->0))).len() != 0
}

/// [`file_transition`] as a function of the entry's model: what one file
/// entry makes of a directory pass.
pub open spec fn file_step_model(pa: PassModel, e: EntryModel, p: Seq<char>) -> PassModel {
    if skip_file(e.size, e.bytes) {
        pa
    } else {
        let seen = capped((pa.files_seen + 1) as nat);
        PassModel {
            files_seen: seen,
            results: if seen > MAX_FILES_PER_DIR {
                pa.results
            } else if yields_model(e, p) {
                pa.results.push(scan_model(p, e.path, decode_utf8(e.bytes->0)))
            } else {
                pa.results
            },
        }
    }
}

/// [`entry_transition`] as a function of the entry's model: the work list
/// and the pass after one directory entry.
pub open spec fn entry_step_model(
    pending: Seq<Seq<char>>,
    pa: PassModel,
    e: EntryModel,
    p: Seq<char>,
) -> (Seq<Seq<char>>, PassModel) {
    match e.kind {
        EntryKind::Directory => (
            if priority_name(base_of(e.path)) {
                pending.insert(0, e.path)
            } else {
                pending.push(e.path)
            },
            pa,
        ),
        EntryKind::Unknown => (pending, pa),
        EntryKind::File => (pending, file_step_model(pa, e, p)),
    }
}

/// The relational description of one entry determines the models: the new
/// work list and pass are the functional step of the old ones, and every
/// other part of the engine is untouched.
pub proof fn lemma_entry_transition_functional(
    pre: SearchEngine,
    pass_pre: DirPass,
    entry: EntryInfo,
    p: Seq<char>,
    post: SearchEngine,
    pass_post: DirPass,
)
    requires
        entry_transition(pre, pass_pre, entry, p, post, pass_post),
    ensures
        post.pending.deep_view() == entry_step_model(
            pre.pending.deep_view(),
            pass_pre@,
            entry@,
            p,
        ).0,
        pass_post@ == entry_step_model(pre.pending.deep_view(), pass_pre@, entry@, p).1,
        post.visited == pre.visited,
        post.results == pre.results,
        post.batch == pre.batch,
        post.stats == pre.stats,
        post.curtailed == pre.curtailed,
        post.timeout_ms == pre.timeout_ms,
        post.dropped == pre.dropped,
{
    match entry.kind {
        EntryKind::Directory => {
            if priority_name(base_of(entry.path@)) {
                assert(post.pending.deep_view() =~= pre.pending.deep_view().insert(
                    0,
                    entry.path@,
                )) by {
                    assert forall|j: int| 0 <= j < post.pending@.len() implies #[trigger] post
                        .pending
                        .deep_view()[j] == pre.pending.deep_view().insert(0, entry.path@)[j] by {
                        assert(post.pending.deep_view()[j] == post.pending@[j]@);
                        if j > 0 {
                            assert(post.pending@[j] == pre.pending@[j - 1]);
                            assert(pre.pending.deep_view()[j - 1] == pre.pending@[j - 1]@);
                        }
                    }
                }
            } else {
                assert(post.pending.deep_view() =~= pre.pending.deep_view().push(entry.path@)) by {
                    assert forall|j: int| 0 <= j < post.pending@.len() implies #[trigger] post
                        .pending
                        .deep_view()[j] == pre.pending.deep_view().push(entry.path@)[j] by {
                        assert(post.pending.deep_view()[j] == post.pending@[j]@);
                        if j < pre.pending@.len() {
                            assert(post.pending@[j] == pre.pending@[j]);
                            assert(pre.pending.deep_view()[j] == pre.pending@[j]@);
                        }
                    }
                }
            }
        },
        EntryKind::Unknown => {},
        EntryKind::File => {
            if skip_file(entry.size, option_bytes(entry.bytes)) {
                assert(pass_post@ =~= file_step_model(pass_pre@, entry@, p));
            } else if pass_post.files_seen > MAX_FILES_PER_DIR {
                assert(pass_post@ =~= file_step_model(pass_pre@, entry@, p));
            } else {
                assert(pass_post@ =~= file_step_model(pass_pre@, entry@, p));
            }
        },
    }
}

/// The number of match ranges over a run of file results, saturating at
/// the machine's limit.
fn count_results(rs: &Vec<SearchFileResult>) -> (c: usize)
    ensures
        c == capped(result_count(rs.deep_view())),
{
    let mut c: usize = 0;
    let mut i: usize = 0;
    while i < rs.len()
        invariant
            i <= rs@.len(),
            c == capped(result_count(rs.deep_view().take(i as int))),
        decreases rs@.len() - i,
    {
        c = c.saturating_add(crate::types::count_file_matches(&rs[i]));
        proof {
            let dv = rs.deep_view();
            assert(dv.take(i + 1 as int).drop_last() =~= dv.take(i as int));
            assert(dv.take(i + 1 as int).last() == rs@[i as int]@);
        }
        i = i + 1;
    }
    proof {
        assert(rs.deep_view().take(rs@.len() as int) =~= rs.deep_view());
    }
    c
}

/// A file excluded by the binary heuristic or the size ceiling leaves both
/// the engine and the directory pass untouched: it never reaches the
/// results, whatever text it may hold.
pub proof fn lemma_excluded_file_contributes_nothing(
    pre: SearchEngine,
    pass_pre: DirPass,
    entry: EntryInfo,
    p: Seq<char>,
    post: SearchEngine,
    pass_post: DirPass,
)
    requires
        entry_transition(pre, pass_pre, entry, p, post, pass_post),
        entry.kind is File,
        skip_file(entry.size, option_bytes(entry.bytes)),
    ensures
        post == pre,
        pass_post == pass_pre,
{
}

/// One directory pass adds at most the per-directory cap of file results
/// to the batch, however many files in the directory matched.
pub proof fn lemma_per_directory_cap(
    batch_pre: Seq<FileResultModel>,
    dir_results: Seq<FileResultModel>,
)
    ensures
        (batch_pre + kept_results(dir_results)).len() <= batch_pre.len() + MAX_RESULTS_PER_DIR,
{
}

/// In a response assembled from a session that never dropped a counted
/// range — no per-directory truncation and no cancellation discard — and
/// whose count stayed within the machine's range, `total_matches` is
/// exactly the number of match ranges over the returned results.
pub proof fn lemma_total_matches_exact(e: SearchEngine, r: SearchResponse)
    requires
        e.wf(),
        e.dropped@ == 0,
        e.counted() <= usize::MAX,
        r.results.deep_view() == e.results.deep_view() + e.batch.deep_view(),
        r.stats == e.stats,
    ensures
        r.stats.total_matches == result_count(r.results.deep_view()),
{
    lemma_result_count_concat(e.results.deep_view(), e.batch.deep_view());
}

} // verus!
