//! The file filter, the classifier heuristics, and the scanner that turns
//! one file's text into a per-file match record.

use vstd::prelude::*;
use vstd::string::*;
use crate::constants::MAX_FILE_SIZE;
use crate::pattern::{found_ranges, wf_ranges, Matcher};
use crate::platform::{base_of, base_name, normalize_path, normalized};
use crate::text::lines_of;
use crate::text::split_lines;
use crate::types::{FileResultModel, MatchModel, SearchFileResult, SearchMatch};
use vstd::utf8::encode_utf8;

verus! {

/// No directory is ever refused outright; priority only changes order.
pub fn should_search_directory(_path: &str) -> (r: bool)
    ensures
        r,
{
    true
}

pub open spec fn contains_nul(b: Seq<u8>) -> bool {
    exists|i: int| 0 <= i < b.len() && b[i] == 0
}

/// The binary heuristic: a file whose bytes hold a null byte is binary.
pub fn is_binary_file(bytes: &Vec<u8>) -> (r: bool)
    ensures
        r == contains_nul(bytes@),
{
    let mut i: usize = 0;
    while i < bytes.len()
        invariant
            i <= bytes@.len(),
            forall|j: int| 0 <= j < i ==> bytes@[j] != 0,
        decreases bytes@.len() - i,
    {
        if bytes[i] == 0 {
            return true;
        }
        i = i + 1;
    }
    false
}

/// The size ceiling: a file above [`MAX_FILE_SIZE`] bytes is not searched.
pub fn is_too_large(size: u64) -> (r: bool)
    ensures
        r == (size > MAX_FILE_SIZE),
{
    size > MAX_FILE_SIZE
}

pub open spec fn option_bytes(b: Option<Vec<u8>>) -> Option<Seq<u8>> {
    match b {
        Some(v) => Some(v@),
        None => None,
    }
}

/// A file is skipped when its bytes could be read and hold a null byte, or
/// when its size could be probed and is over the ceiling. A failed probe
/// never causes a skip.
pub open spec fn skip_file(size_probe: Option<u64>, bytes_probe: Option<Seq<u8>>) -> bool {
    (bytes_probe matches Some(b) && contains_nul(b)) || (size_probe matches Some(s) && s
        > MAX_FILE_SIZE)
}

/// Whether a file should be excluded from the search, given its size probe
/// and its full contents, each absent if the probe failed.
pub fn should_skip_file(size_probe: &Option<u64>, bytes_probe: &Option<Vec<u8>>) -> (r: bool)
    ensures
        r == skip_file(*size_probe, option_bytes(*bytes_probe)),
{
    let binary = match bytes_probe {
        Some(b) => is_binary_file(b),
        None => false,
    };
    let large = match size_probe {
        Some(s) => is_too_large(*s),
        None => false,
    };
    binary || large
}

/// The fixed allowlist of conventional source-root names.
pub open spec fn priority_name(n: Seq<char>) -> bool {
    n == "src"@ || n == "lib"@ || n == "app"@ || n == "components"@ || n == "pages"@
}

/// Whether a directory is searched before its ordinary siblings: its base
/// name is on the source-root allowlist.
pub fn should_prioritize_directory(path: &str) -> (r: bool)
    ensures
        r == priority_name(base_of(path@)),
{
    let base = base_name(path);
    base == "src".to_owned() || base == "lib".to_owned() || base == "app".to_owned() || base
        == "components".to_owned() || base == "pages".to_owned()
}

/// The full model of one scan: the normalized path, and one match model
/// per line that the pattern matches at least once.
pub open spec fn scan_model(p: Seq<char>, path: Seq<char>, content: Seq<char>) -> FileResultModel {
    FileResultModel { path: normalized(path), matches: matched_models(p, lines_of(content)) }
}

/// Every range list in the record is well formed: half-open byte ranges
/// into its own line's bytes, ascending and non-overlapping.
pub open spec fn wf_result_ranges(fr: FileResultModel) -> bool {
    forall|j: int|
        0 <= j < fr.matches.len() ==> wf_ranges(
            (#[trigger] fr.matches[j]).ranges,
            encode_utf8(fr.matches[j].content).len() as int,
        )
}

/// Every record in the run has well-formed range lists.
pub open spec fn wf_results(rs: Seq<FileResultModel>) -> bool {
    forall|i: int| 0 <= i < rs.len() ==> wf_result_ranges(#[trigger] rs[i])
}

pub proof fn lemma_wf_results_concat(a: Seq<FileResultModel>, b: Seq<FileResultModel>)
    requires
        wf_results(a),
        wf_results(b),
    ensures
        wf_results(a + b),
{
    assert forall|i: int| 0 <= i < (a + b).len() implies wf_result_ranges(
        #[trigger] (a + b)[i],
    ) by {
        if i < a.len() {
            assert((a + b)[i] == a[i]);
        } else {
            assert((a + b)[i] == b[i - a.len()]);
        }
    }
}

pub proof fn lemma_wf_results_take(rs: Seq<FileResultModel>, k: int)
    requires
        wf_results(rs),
        0 <= k <= rs.len(),
    ensures
        wf_results(rs.take(k)),
{
    assert forall|i: int| 0 <= i < k implies wf_result_ranges(#[trigger] rs.take(k)[i]) by {
        assert(rs.take(k)[i] == rs[i]);
    }
}

/// Scan one file's text line by line. A record is returned exactly when
/// some line matches, and is then the scan model of the inputs — the scan
/// outcome is a function of the pattern, the path and the content alone —
/// with every range list well formed.
pub fn search_file(path: &str, content: &str, matcher: &Matcher) -> (r: Option<SearchFileResult>)
    ensures
        r is Some <==> matched_models(matcher@, lines_of(content@)).len() != 0,
        r is Some ==> r->0@ == scan_model(matcher@, path@, content@),
        r is Some ==> wf_result_ranges(r->0@),
{
    let lines = split_lines(content);
    let ghost ls = lines_of(content@);
    let mut matches: Vec<SearchMatch> = Vec::new();
    let ghost p = matcher@;
    let mut i: usize = 0;
    while i < lines.len()
        invariant
            lines@.len() == ls.len(),
            forall|k: int| 0 <= k < ls.len() ==> (#[trigger] lines@[k])@ == ls[k],
            ls == lines_of(content@),
            p == matcher@,
            i <= ls.len(),
            matches.deep_view() =~= scan_prefix(p, ls, i as int),
            forall|j: int|
                0 <= j < matches@.len() ==> wf_ranges(
                    (#[trigger] matches@[j])@.ranges,
                    encode_utf8(matches@[j]@.content).len() as int,
                ),
        decreases lines@.len() - i,
    {
        let rs = matcher.find_ranges(lines[i].as_str());
        let ghost pre = matches.deep_view();
        if rs.len() > 0 {
            let m = SearchMatch { line: i + 1, content: lines[i].clone(), match_ranges: rs };
            matches.push(m);
        }
        proof {
            assert(ls.take(i + 1 as int).drop_last() =~= ls.take(i as int));
            assert(ls.take(i + 1 as int).last() == ls[i as int]);
            if found_ranges(p, ls[i as int]).len() != 0 {
                assert(matches.deep_view() =~= pre.push(
                    MatchModel { line: i + 1, content: ls[i as int], ranges: found_ranges(p, ls[i as int]) },
                ));
            }
            assert(matches.deep_view() =~= scan_prefix(p, ls, i + 1 as int));
        }
        i = i + 1;
    }
    proof {
        assert(ls.take(ls.len() as int) =~= ls);
    }
    if matches.len() > 0 {
        let fr = SearchFileResult { path: normalize_path(path), matches };
        proof {
            assert(fr@ =~= scan_model(p, path@, content@));
            assert forall|j: int| 0 <= j < fr@.matches.len() implies wf_ranges(
                (#[trigger] fr@.matches[j]).ranges,
                encode_utf8(fr@.matches[j].content).len() as int,
            ) by {
                assert(fr@.matches[j] == fr.matches@[j]@);
            }
        }
        Some(fr)
    } else {
        None
    }
}

/// The match models collected after scanning the first `n` lines.
pub open spec fn scan_prefix(p: Seq<char>, ls: Seq<Seq<char>>, n: int) -> Seq<MatchModel> {
    matched_models(p, ls.take(n))
}

/// The matched lines of `ls`, as match models with 1-based line numbers.
pub open spec fn matched_models(p: Seq<char>, ls: Seq<Seq<char>>) -> Seq<MatchModel>
    decreases ls.len(),
{
    if ls.len() == 0 {
        Seq::empty()
    } else {
        matched_models(p, ls.drop_last()) + (if found_ranges(p, ls.last()).len() != 0 {
            seq![
                MatchModel {
                    line: ls.len() as int,
                    content: ls.last(),
                    ranges: found_ranges(p, ls.last()),
                },
            ]
        } else {
            Seq::empty()
        })
    }
}

/// Scanning is deterministic: the scan of one file is a function of the
/// pattern, the path and the content alone, so two scans of an unchanged
/// file with an unchanged query report the same path and the same
/// (line number, line text, match ranges) tuples.
pub proof fn lemma_scan_deterministic(
    r1: FileResultModel,
    r2: FileResultModel,
    p: Seq<char>,
    path: Seq<char>,
    content: Seq<char>,
)
    requires
        r1 == scan_model(p, path, content),
        r2 == scan_model(p, path, content),
    ensures
        r1 == r2,
{
}

} // verus!
