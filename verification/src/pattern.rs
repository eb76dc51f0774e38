//! The query compiler: turns a pattern and its three flags into a compiled
//! line matcher, and the matcher's two operations on a line of text.
//!
//! The pattern text handed to the compiler is fully specified; what the
//! compiled expression matches is the regex engine's affair and is named,
//! not restated.

use vstd::prelude::*;
use vstd::string::*;

verus! {

/// The characters the regex syntax treats as operators; a literal query
/// must escape each of them.
pub open spec fn is_meta_char(c: char) -> bool {
    c == '\\' || c == '.' || c == '+' || c == '*' || c == '?' || c == '(' || c == ')' || c == '|'
        || c == '[' || c == ']' || c == '{' || c == '}' || c == '^' || c == '$' || c == '#'
        || c == '&' || c == '-' || c == '~'
}

/// `s` with a backslash inserted before every meta character.
pub open spec fn escaped_chars(s: Seq<char>) -> Seq<char>
    decreases s.len(),
{
    if s.len() == 0 {
        Seq::empty()
    } else {
        (if is_meta_char(s.first()) {
            seq!['\\', s.first()]
        } else {
            seq![s.first()]
        }) + escaped_chars(s.drop_first())
    }
}

/// Relies on `regex::escape`: prefixes each regex meta character with a
/// backslash and leaves every other character unchanged.
#[verifier::external_body]
fn escape_literal(q: &str) -> (r: String)
    ensures
        r@ == escaped_chars(q@),
{
    regex::escape(q)
}

/// `p` wrapped in word-boundary anchors on both sides.
pub open spec fn word_bounded(p: Seq<char>) -> Seq<char> {
    "\\b"@ + p + "\\b"@
}

/// `p` prefixed with the inline case-fold flag.
pub open spec fn case_folded(p: Seq<char>) -> Seq<char> {
    "(?i)"@ + p
}

/// The pattern text that one query compiles to: the query itself in regex
/// mode, otherwise the escaped query; wrapped in word boundaries when whole
/// word is asked; prefixed with the case-fold flag when case does not
/// matter.
pub open spec fn full_pattern(
    q: Seq<char>,
    is_regex: bool,
    is_case_sensitive: bool,
    is_whole_word: bool,
) -> Seq<char> {
    let base = if is_regex {
        q
    } else {
        escaped_chars(q)
    };
    let worded = if is_whole_word {
        word_bounded(base)
    } else {
        base
    };
    if is_case_sensitive {
        worded
    } else {
        case_folded(worded)
    }
}

#[verifier::external_type_specification]
#[verifier::external_body]
pub struct ExRegex(regex::Regex);

/// Whether `regex::Regex::new` accepts the pattern text; compilation
/// succeeds or fails as a function of that text alone.
pub uninterp spec fn pattern_ok(p: Seq<char>) -> bool;

/// The byte ranges that the expression compiled from `p` matches in `line`:
/// what `regex::Regex::find_iter` yields.
pub uninterp spec fn found_ranges(p: Seq<char>, line: Seq<char>) -> Seq<[usize; 2]>;

/// Ranges are half open, lie within the first `max` bytes, and come in
/// ascending, non-overlapping order.
pub open spec fn wf_ranges(rs: Seq<[usize; 2]>, max: int) -> bool {
    &&& forall|i: int| 0 <= i < rs.len() ==> (#[trigger] rs[i])[0] <= rs[i][1] <= max
    &&& forall|i: int| 0 <= i < rs.len() - 1 ==> (#[trigger] rs[i])[1] <= rs[i + 1][0]
}

/// A compiled line matcher. Its view is the pattern text it was compiled
/// from; the pairing of the two fields is established by `compile` alone.
pub struct Matcher {
    re: regex::Regex,
    pattern: String,
}

impl View for Matcher {
    type V = Seq<char>;

    closed spec fn view(&self) -> Seq<char> {
        self.pattern@
    }
}

/// Relies on `regex::Regex::new`: compiles the pattern text, succeeding
/// exactly when the text is well formed. A failure carries the parser's
/// message behind a fixed prefix, which the body itself prepends.
#[verifier::external_body]
fn compile(p: String) -> (r: Result<Matcher, String>)
    ensures
        r is Ok <==> pattern_ok(p@),
        r is Ok ==> r->Ok_0@ == p@,
        r is Err ==> ("Invalid search pattern: "@).is_prefix_of(r->Err_0@),
{
    match regex::Regex::new(&p) {
        Ok(re) => Ok(Matcher { re, pattern: p }),
        Err(e) => Err(format!("Invalid search pattern: {}", e)),
    }
}

impl Matcher {
    /// Relies on `regex::Regex::is_match`: true exactly when the expression
    /// matches somewhere in the line, hence when the match list is
    /// non-empty.
    #[verifier::external_body]
    pub fn is_match(&self, line: &str) -> (r: bool)
        ensures
            r == (found_ranges(self@, line@).len() != 0),
    {
        self.re.is_match(line)
    }

    /// Relies on `regex::Regex::find_iter`: the successive non-overlapping
    /// matches in the line, as half-open byte ranges in ascending order.
    #[verifier::external_body]
    pub fn find_ranges(&self, line: &str) -> (r: Vec<[usize; 2]>)
        ensures
            r@ == found_ranges(self@, line@),
            wf_ranges(r@, line.spec_bytes().len() as int),
    {
        let mut out = Vec::new();
        for m in self.re.find_iter(line) {
            out.push([m.start(), m.end()]);
        }
        out
    }
}

/// Compile a search query into a line matcher. In literal mode every meta
/// character of the query is escaped first; whole-word queries gain word
/// boundaries on both sides; case-insensitive queries gain the inline
/// case-fold flag. The only failure is a malformed pattern, and its error
/// text carries the parser's message behind a fixed prefix.
pub fn build_regex(
    query: &str,
    is_regex: bool,
    is_case_sensitive: bool,
    is_whole_word: bool,
) -> (r: Result<Matcher, String>)
    ensures
        r is Ok <==> pattern_ok(
            full_pattern(query@, is_regex, is_case_sensitive, is_whole_word),
        ),
        r is Ok ==> r->Ok_0@ == full_pattern(query@, is_regex, is_case_sensitive, is_whole_word),
        r is Err ==> ("Invalid search pattern: "@).is_prefix_of(r->Err_0@),
{
    let base: String = if is_regex {
        query.to_owned()
    } else {
        escape_literal(query)
    };
    let worded: String = if is_whole_word {
        let mut w = "\\b".to_owned();
        w.append(base.as_str());
        w.append("\\b");
        w
    } else {
        base
    };
    let full: String = if is_case_sensitive {
        worded
    } else {
        let mut f = "(?i)".to_owned();
        f.append(worded.as_str());
        f
    };
    compile(full)
}

} // verus!
