//! Path helpers: separator normalization, hidden-file detection, and the
//! fixed drive facts of a Unix-style host.

use vstd::prelude::*;
use vstd::string::*;
use crate::text::push_char;

verus! {

/// `s` with every backslash separator replaced by a forward slash.
pub open spec fn normalized(s: Seq<char>) -> Seq<char> {
    s.map_values(|c: char| if c == '\\' { '/' } else { c })
}

/// `s` without its trailing separators.
pub open spec fn strip_slashes(s: Seq<char>) -> Seq<char>
    decreases s.len(),
{
    if s.len() > 0 && s.last() == '/' {
        strip_slashes(s.drop_last())
    } else {
        s
    }
}

/// The characters after the last separator of `s`.
pub open spec fn tail_component(s: Seq<char>) -> Seq<char>
    decreases s.len(),
{
    if s.len() == 0 {
        s
    } else if s.last() == '/' {
        Seq::empty()
    } else {
        tail_component(s.drop_last()).push(s.last())
    }
}

/// The base name of a path: its final component — the characters after
/// the last separator, once trailing separators are stripped — so that
/// `a/b` and `a/b/` have the same base name `b`.
pub open spec fn base_of(s: Seq<char>) -> Seq<char> {
    tail_component(strip_slashes(s))
}

/// A path names a hidden entry when its base name starts with a dot.
pub open spec fn hidden_name(s: Seq<char>) -> bool {
    base_of(s).len() > 0 && base_of(s)[0] == '.'
}

/// Normalize a path to the host's separator form.
pub fn normalize_path(path: &str) -> (r: String)
    ensures
        r@ == normalized(path@),
{
    let n = path.unicode_len();
    let mut out = String::new();
    let mut i: usize = 0;
    while i < n
        invariant
            n == path@.len(),
            i <= n,
            out@ == normalized(path@.take(i as int)),
        decreases n - i,
    {
        let c = path.get_char(i);
        if c == '\\' {
            push_char(&mut out, '/');
        } else {
            push_char(&mut out, c);
        }
        proof {
            assert(path@.take(i + 1 as int) =~= path@.take(i as int).push(path@[i as int]));
            assert(normalized(path@.take(i + 1 as int)) =~= normalized(path@.take(i as int)).push(
                if path@[i as int] == '\\' { '/' } else { path@[i as int] },
            ));
        }
        i = i + 1;
    }
    proof {
        assert(path@.take(n as int) =~= path@);
    }
    out
}

/// Stripping trailing separators leaves exactly the first `m` characters,
/// where everything from `m` on is a separator and the character before
/// `m`, if any, is not.
proof fn lemma_strip_to_take(s: Seq<char>, m: int)
    requires
        0 <= m <= s.len(),
        forall|j: int| m <= j < s.len() ==> s[j] == '/',
        m > 0 ==> s[m - 1] != '/',
    ensures
        strip_slashes(s) == s.take(m),
    decreases s.len(),
{
    if s.len() > 0 && s.last() == '/' {
        assert(m < s.len());
        lemma_strip_to_take(s.drop_last(), m);
        assert(s.drop_last().take(m) =~= s.take(m));
    } else {
        if m < s.len() {
            assert(s[s.len() - 1] == '/');
        }
        assert(s.take(m) =~= s);
    }
}

/// The base name of a path, as a fresh string.
pub fn base_name(path: &str) -> (r: String)
    ensures
        r@ == base_of(path@),
{
    let n = path.unicode_len();
    let mut m: usize = n;
    while m > 0 && path.get_char(m - 1) == '/'
        invariant
            n == path@.len(),
            m <= n,
            forall|j: int| m <= j < n ==> path@[j] == '/',
        decreases m,
    {
        m = m - 1;
    }
    proof {
        lemma_strip_to_take(path@, m as int);
    }
    let ghost t = path@.take(m as int);
    let mut out = String::new();
    let mut i: usize = 0;
    while i < m
        invariant
            n == path@.len(),
            m <= n,
            i <= m,
            t == path@.take(m as int),
            out@ == tail_component(t.take(i as int)),
        decreases m - i,
    {
        let c = path.get_char(i);
        if c == '/' {
            out = String::new();
        } else {
            push_char(&mut out, c);
        }
        proof {
            let u = t.take(i + 1 as int);
            assert(u.last() == path@[i as int]);
            assert(u.drop_last() =~= t.take(i as int));
        }
        i = i + 1;
    }
    proof {
        assert(t.take(m as int) =~= t);
    }
    out
}

/// Whether the path names a hidden entry: its base name starts with a dot.
pub fn is_hidden(path: &str) -> (r: bool)
    ensures
        r == hidden_name(path@),
{
    let base = base_name(path);
    if base.as_str().unicode_len() == 0 {
        false
    } else {
        base.as_str().get_char(0) == '.'
    }
}

/// The host's drive facts, as the host-facing commands report them.
#[derive(Debug)]
pub struct DriveInfo {
    pub system_drive: String,
    pub user_home: String,
    pub available_drives: Vec<String>,
}

/// The system drive of a Unix-style host: always the root directory.
pub fn get_system_drive() -> (r: String)
    ensures
        r@ == "/"@,
{
    "/".to_owned()
}

/// Drive facts of a Unix-style host: the system drive, the mount root and
/// the single available drive are all the root directory.
pub fn get_drive_info() -> (r: Result<(String, String, Vec<String>), String>)
    ensures
        r is Ok,
        r->Ok_0.0@ == "/"@,
        r->Ok_0.1@ == "/"@,
        r->Ok_0.2@.len() == 1,
        r->Ok_0.2@[0]@ == "/"@,
{
    let mut drives: Vec<String> = Vec::new();
    drives.push("/".to_owned());
    Ok(("/".to_owned(), "/".to_owned(), drives))
}

} // verus!
