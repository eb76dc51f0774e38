//! Text primitives shared by the scanner and the path helpers: appending a
//! character to a string, splitting text into lines, and decoding bytes as
//! UTF-8 text.

use vstd::prelude::*;
use vstd::string::*;
use vstd::utf8::{decode_utf8, valid_utf8};

verus! {

/// Relies on `String::push`: appends exactly one character to the string.
#[verifier::external_body]
pub fn push_char(s: &mut String, c: char)
    ensures
        final(s)@ == old(s)@.push(c),
{
    s.push(c);
}

/// The prefix of `s` up to (not including) its first line feed, or all of
/// `s` if it has none.
pub open spec fn first_line(s: Seq<char>) -> Seq<char>
    decreases s.len(),
{
    if s.len() == 0 {
        s
    } else if s.first() == '\n' {
        Seq::empty()
    } else {
        seq![s.first()] + first_line(s.drop_first())
    }
}

/// What follows the first line feed of `s`; empty if `s` has none.
pub open spec fn rest_after_line(s: Seq<char>) -> Seq<char>
    decreases s.len(),
{
    if s.len() == 0 {
        s
    } else if s.first() == '\n' {
        s.drop_first()
    } else {
        rest_after_line(s.drop_first())
    }
}

pub open spec fn has_newline(s: Seq<char>) -> bool {
    exists|i: int| 0 <= i < s.len() && s[i] == '\n'
}

/// A line with its terminating carriage return removed, as a line feed that
/// followed a carriage return ends the line before the carriage return.
pub open spec fn strip_cr(l: Seq<char>) -> Seq<char> {
    if l.len() > 0 && l.last() == '\r' {
        l.drop_last()
    } else {
        l
    }
}

pub proof fn lemma_rest_shorter(s: Seq<char>)
    requires
        has_newline(s),
    ensures
        rest_after_line(s).len() < s.len(),
    decreases s.len(),
{
    if s.len() > 0 && s.first() != '\n' {
        assert(has_newline(s.drop_first())) by {
            let i = choose|i: int| 0 <= i < s.len() && s[i] == '\n';
            assert(s.drop_first()[i - 1] == '\n');
        }
        lemma_rest_shorter(s.drop_first());
    }
}

/// The lines of `s`, split at line feeds. A line ending with a carriage
/// return followed by a line feed loses the carriage return; a final line
/// ending is optional and produces no extra empty line.
pub open spec fn lines_of(s: Seq<char>) -> Seq<Seq<char>>
    decreases s.len(),
    via lines_of_decreases
{
    if s.len() == 0 {
        Seq::empty()
    } else if has_newline(s) {
        seq![strip_cr(first_line(s))] + lines_of(rest_after_line(s))
    } else {
        seq![s]
    }
}

#[via_fn]
proof fn lines_of_decreases(s: Seq<char>) {
    if s.len() > 0 && has_newline(s) {
        lemma_rest_shorter(s);
    }
}

/// Relies on `str::lines`: lines are split at line feeds, a carriage return
/// directly before a line feed is stripped, and a final line ending yields
/// no trailing empty line.
#[verifier::external_body]
pub fn split_lines(s: &str) -> (r: Vec<String>)
    ensures
        r@.len() == lines_of(s@).len(),
        forall|i: int| 0 <= i < r@.len() ==> (#[trigger] r@[i])@ == lines_of(s@)[i],
{
    s.lines().map(|line| line.to_owned()).collect()
}

/// Relies on `String::from_utf8`: succeeds exactly on valid UTF-8 input and
/// then returns the text those bytes encode.
#[verifier::external_body]
pub fn decode_text(bytes: Vec<u8>) -> (r: Option<String>)
    ensures
        r is Some <==> valid_utf8(bytes@),
        r is Some ==> r->0@ == decode_utf8(bytes@),
{
    match String::from_utf8(bytes) {
        Ok(s) => Some(s),
        Err(_) => None,
    }
}

} // verus!
