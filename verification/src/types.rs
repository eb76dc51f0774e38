//! The data types of a search: per-line matches, per-file results, running
//! statistics, the terminal response and the transient progress snapshot,
//! together with their mathematical models and the range-counting functions
//! the statistics are measured by.

use vstd::prelude::*;

verus! {

/// One matching line: its 1-based line number, its raw text, and the
/// ascending, non-overlapping half-open byte ranges of the matches in it.
#[derive(Debug)]
pub struct SearchMatch {
    pub line: usize,
    pub content: String,
    pub match_ranges: Vec<[usize; 2]>,
}

/// All matching lines of one file, under its normalized path; only files
/// with at least one matching line are ever materialized.
#[derive(Debug)]
pub struct SearchFileResult {
    pub path: String,
    pub matches: Vec<SearchMatch>,
}

/// The mathematical model of a [`SearchMatch`].
#[verifier::ext_equal]
pub ghost struct MatchModel {
    pub line: int,
    pub content: Seq<char>,
    pub ranges: Seq<[usize; 2]>,
}

/// The mathematical model of a [`SearchFileResult`].
#[verifier::ext_equal]
pub ghost struct FileResultModel {
    pub path: Seq<char>,
    pub matches: Seq<MatchModel>,
}

impl View for SearchMatch {
    type V = MatchModel;

    open spec fn view(&self) -> MatchModel {
        MatchModel { line: self.line as int, content: self.content@, ranges: self.match_ranges@ }
    }
}

impl DeepView for SearchMatch {
    type V = MatchModel;

    open spec fn deep_view(&self) -> MatchModel {
        self.view()
    }
}

impl View for SearchFileResult {
    type V = FileResultModel;

    open spec fn view(&self) -> FileResultModel {
        FileResultModel { path: self.path@, matches: self.matches.deep_view() }
    }
}

impl DeepView for SearchFileResult {
    type V = FileResultModel;

    open spec fn deep_view(&self) -> FileResultModel {
        self.view()
    }
}

/// Running counters of one search; each is non-decreasing while the search
/// runs. `total_matches` counts match ranges, not matching lines.
#[derive(Clone, Copy, Debug, PartialEq, Eq, Structural)]
pub struct SearchStats {
    pub files_searched: usize,
    pub total_matches: usize,
    pub directories_searched: usize,
}

/// The terminal outcome of one search, also used as the early-results
/// snapshot (there with both flags false).
#[derive(Debug)]
pub struct SearchResponse {
    pub results: Vec<SearchFileResult>,
    pub stats: SearchStats,
    pub cancelled: bool,
    pub curtailed: bool,
    pub processing_time_ms: u64,
}

/// A transient progress snapshot, emitted on a timer and not retained.
#[derive(Clone, Copy, Debug)]
pub struct SearchProgress {
    pub files_searched: usize,
    pub directories_searched: usize,
    pub total_matches: usize,
    pub processing_time_ms: u64,
}

impl Default for SearchStats {
    /// All counters start at zero.
    fn default() -> (r: Self)
        ensures
            r.files_searched == 0,
            r.total_matches == 0,
            r.directories_searched == 0,
    {
        SearchStats { files_searched: 0, total_matches: 0, directories_searched: 0 }
    }
}

fn clone_ranges(v: &Vec<[usize; 2]>) -> (r: Vec<[usize; 2]>)
    ensures
        r@ == v@,
{
    let mut out: Vec<[usize; 2]> = Vec::new();
    let mut i: usize = 0;
    while i < v.len()
        invariant
            i <= v@.len(),
            out@ == v@.take(i as int),
        decreases v@.len() - i,
    {
        out.push(v[i]);
        proof {
            assert(v@.take(i + 1 as int) =~= v@.take(i as int).push(v@[i as int]));
        }
        i = i + 1;
    }
    proof {
        assert(v@.take(v@.len() as int) =~= v@);
    }
    out
}

impl Clone for SearchMatch {
    fn clone(&self) -> (r: Self)
        ensures
            r@ == self@,
    {
        SearchMatch {
            line: self.line,
            content: self.content.clone(),
            match_ranges: clone_ranges(&self.match_ranges),
        }
    }
}

impl Clone for SearchFileResult {
    fn clone(&self) -> (r: Self)
        ensures
            r@ == self@,
    {
        let mut matches: Vec<SearchMatch> = Vec::new();
        let mut i: usize = 0;
        while i < self.matches.len()
            invariant
                i <= self.matches@.len(),
                matches@.len() == i,
                forall|j: int| 0 <= j < i ==> (#[trigger] matches@[j])@ == self.matches@[j]@,
            decreases self.matches@.len() - i,
        {
            matches.push(self.matches[i].clone());
            i = i + 1;
        }
        proof {
            assert forall|j: int| 0 <= j < matches@.len() implies matches.deep_view()[j] == self
                .matches
                .deep_view()[j] by {
                assert(matches.deep_view()[j] == matches@[j]@);
                assert(self.matches.deep_view()[j] == self.matches@[j]@);
            }
            assert(matches.deep_view() =~= self.matches.deep_view());
        }
        SearchFileResult { path: self.path.clone(), matches }
    }
}

/// A fresh vector holding clones of the given results, model for model.
pub fn clone_results(v: &Vec<SearchFileResult>) -> (r: Vec<SearchFileResult>)
    ensures
        r.deep_view() == v.deep_view(),
{
    let mut out: Vec<SearchFileResult> = Vec::new();
    let mut i: usize = 0;
    while i < v.len()
        invariant
            i <= v@.len(),
            out@.len() == i,
            forall|j: int| 0 <= j < i ==> (#[trigger] out@[j])@ == v@[j]@,
        decreases v@.len() - i,
    {
        out.push(v[i].clone());
        i = i + 1;
    }
    proof {
        assert forall|j: int| 0 <= j < out@.len() implies out.deep_view()[j] == v.deep_view()[j] by {
            assert(out.deep_view()[j] == out@[j]@);
            assert(v.deep_view()[j] == v@[j]@);
        }
        assert(out.deep_view() =~= v.deep_view());
    }
    out
}

/// The number of match ranges over a run of matching lines.
pub open spec fn match_count(ms: Seq<MatchModel>) -> nat
    decreases ms.len(),
{
    if ms.len() == 0 {
        0
    } else {
        match_count(ms.drop_last()) + ms.last().ranges.len()
    }
}

/// The number of match ranges over a run of file results.
pub open spec fn result_count(rs: Seq<FileResultModel>) -> nat
    decreases rs.len(),
{
    if rs.len() == 0 {
        0
    } else {
        result_count(rs.drop_last()) + match_count(rs.last().matches)
    }
}

/// A mathematical count squeezed into a `usize`, as the saturating
/// additions of the statistics produce it.
pub open spec fn capped(n: nat) -> usize {
    if n > usize::MAX {
        usize::MAX
    } else {
        n as usize
    }
}

pub proof fn lemma_match_count_concat(a: Seq<MatchModel>, b: Seq<MatchModel>)
    ensures
        match_count(a + b) == match_count(a) + match_count(b),
    decreases b.len(),
{
    if b.len() == 0 {
        assert(a + b =~= a);
    } else {
        assert((a + b).drop_last() =~= a + b.drop_last());
        lemma_match_count_concat(a, b.drop_last());
    }
}

pub proof fn lemma_result_count_concat(a: Seq<FileResultModel>, b: Seq<FileResultModel>)
    ensures
        result_count(a + b) == result_count(a) + result_count(b),
    decreases b.len(),
{
    if b.len() == 0 {
        assert(a + b =~= a);
    } else {
        assert((a + b).drop_last() =~= a + b.drop_last());
        lemma_result_count_concat(a, b.drop_last());
    }
}

/// The number of match ranges in one file result, saturating at the
/// machine's limit.
pub fn count_file_matches(res: &SearchFileResult) -> (c: usize)
    ensures
        c == capped(match_count(res@.matches)),
{
    let mut c: usize = 0;
    let mut i: usize = 0;
    while i < res.matches.len()
        invariant
            i <= res.matches@.len(),
            c == capped(match_count(res.matches.deep_view().take(i as int))),
        decreases res.matches@.len() - i,
    {
        c = c.saturating_add(res.matches[i].match_ranges.len());
        proof {
            let dv = res.matches.deep_view();
            assert(dv.take(i + 1 as int).drop_last() =~= dv.take(i as int));
            assert(dv.take(i + 1 as int).last() == res.matches@[i as int]@);
        }
        i = i + 1;
    }
    proof {
        assert(res.matches.deep_view().take(res.matches@.len() as int) =~= res.matches.deep_view());
    }
    c
}

} // verus!
