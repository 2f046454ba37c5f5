//! Splitting file contents into lines, and the test that decides whether a
//! line contributes a value: no forbidden character anywhere, and neither
//! blank nor a `#` comment once surrounding whitespace is ignored.

use vstd::prelude::*;
use crate::chars::{is_invalid_path_char, is_space_char, char_is_invalid, char_is_space};

verus! {

/// How many characters from position `i` of `s` until the next newline
/// (exclusive), or until the end when no newline follows.
pub open spec fn newline_dist(s: Seq<char>, i: int) -> nat
    decreases s.len() - i,
{
    if i < 0 || i >= s.len() || s[i] == '\n' {
        0
    } else {
        1 + newline_dist(s, i + 1)
    }
}

/// A newline search starting inside `s` stays inside `s`.
pub proof fn lemma_newline_dist_bound(s: Seq<char>, i: int)
    requires
        0 <= i <= s.len(),
    ensures
        i + newline_dist(s, i) <= s.len(),
    decreases s.len() - i,
{
    if i < s.len() && s[i] != '\n' {
        lemma_newline_dist_bound(s, i + 1);
    }
}

/// A line with its terminator removed: the trailing `\r` goes too when the
/// terminator was `\r\n`.
pub open spec fn strip_trailing_cr(l: Seq<char>) -> Seq<char> {
    if l.len() > 0 && l[l.len() - 1] == '\r' {
        l.drop_last()
    } else {
        l
    }
}

/// The lines of `s` from position `i` on: maximal `\n`-free stretches, each
/// without its terminator; text after the last newline is a line only when
/// it is not empty.
pub open spec fn spec_lines_from(s: Seq<char>, i: int) -> Seq<Seq<char>>
    decreases s.len() - i via spec_lines_from_decreases
{
    if i < 0 || i >= s.len() {
        Seq::empty()
    } else {
        let j = i + newline_dist(s, i);
        if j >= s.len() {
            seq![s.subrange(i, s.len() as int)]
        } else {
            seq![strip_trailing_cr(s.subrange(i, j))] + spec_lines_from(s, j + 1)
        }
    }
}

#[via_fn]
proof fn spec_lines_from_decreases(s: Seq<char>, i: int) {
    if 0 <= i < s.len() {
        lemma_newline_dist_bound(s, i);
    }
}

/// The lines of a whole file content.
pub open spec fn spec_lines(s: Seq<char>) -> Seq<Seq<char>> {
    spec_lines_from(s, 0)
}

/// How many whitespace characters run from position `i` of `s`.
pub open spec fn space_run_len(s: Seq<char>, i: int) -> nat
    decreases s.len() - i,
{
    if i < 0 || i >= s.len() || !is_space_char(s[i]) {
        0
    } else {
        1 + space_run_len(s, i + 1)
    }
}

/// A line earns a place among the collected values: it holds no forbidden
/// character, at least one character besides whitespace, and its first
/// such character is not the comment mark `#`.
pub open spec fn line_kept(s: Seq<char>) -> bool {
    &&& (forall|k: int| 0 <= k < s.len() ==> !is_invalid_path_char(s[k]))
    &&& space_run_len(s, 0) < s.len()
    &&& s[space_run_len(s, 0) as int] != '#'
}

/// Whether `line` holds any forbidden character.
fn has_invalid_char(line: &str, n: usize) -> (r: bool)
    requires
        n == line@.len(),
    ensures
        r == !(forall|k: int| 0 <= k < line@.len() ==> !is_invalid_path_char(line@[k])),
{
    let mut i: usize = 0;
    while i < n
        invariant
            i <= n,
            n == line@.len(),
            forall|k: int| 0 <= k < i ==> !is_invalid_path_char(line@[k]),
        decreases n - i,
    {
        if char_is_invalid(line.get_char(i)) {
            return true;
        }
        i = i + 1;
    }
    false
}

/// The position of the first character of `line` that is not whitespace,
/// or `n` when the whole line is whitespace.
fn first_non_space(line: &str, n: usize) -> (e: usize)
    requires
        n == line@.len(),
    ensures
        e <= n,
        e == space_run_len(line@, 0),
{
    let mut j: usize = 0;
    while j < n && char_is_space(line.get_char(j))
        invariant
            j <= n,
            n == line@.len(),
            space_run_len(line@, 0) == j + space_run_len(line@, j as int),
        decreases n - j,
    {
        j = j + 1;
    }
    proof {
        assert(space_run_len(line@, j as int) == 0);
    }
    j
}

/// Decides [`line_kept`] for `line`.
pub fn line_is_kept(line: &str) -> (r: bool)
    ensures
        r == line_kept(line@),
{
    let n = line.unicode_len();
    if has_invalid_char(line, n) {
        return false;
    }
    let t = first_non_space(line, n);
    if t == n {
        return false;
    }
    line.get_char(t) != '#'
}

/// Splits `content` into its lines, as reading the file line by line would
/// hand them out.
pub fn split_lines(content: &str) -> (r: Vec<String>)
    ensures
        r.deep_view() == spec_lines(content@),
{
    let n = content.unicode_len();
    let mut out: Vec<String> = Vec::new();
    let mut i: usize = 0;
    while i < n
        invariant
            i <= n,
            n == content@.len(),
            out.deep_view() + spec_lines_from(content@, i as int) == spec_lines(content@),
        decreases n - i,
    {
        let ghost prev = out.deep_view();
        let j = newline_end(content, i, n);
        if j == n {
            let line = content.substring_char(i, n).to_owned();
            out.push(line);
            proof {
                assert(out.deep_view() =~= prev.push(content@.subrange(i as int, n as int)));
                assert(prev + spec_lines_from(content@, i as int) =~= spec_lines(content@));
                assert(out.deep_view() + spec_lines_from(content@, n as int) =~= spec_lines(
                    content@,
                ));
            }
            i = n;
        } else {
            let end = if j > i && content.get_char(j - 1) == '\r' {
                j - 1
            } else {
                j
            };
            let line = content.substring_char(i, end).to_owned();
            proof {
                assert(strip_trailing_cr(content@.subrange(i as int, j as int)) =~= content@
                    .subrange(i as int, end as int));
            }
            out.push(line);
            proof {
                assert(out.deep_view() =~= prev.push(
                    strip_trailing_cr(content@.subrange(i as int, j as int)),
                ));
                assert(out.deep_view() + spec_lines_from(content@, j as int + 1) =~= prev
                    + spec_lines_from(content@, i as int));
            }
            i = j + 1;
        }
    }
    proof {
        assert(spec_lines_from(content@, i as int) =~= Seq::<Seq<char>>::empty());
        assert(out.deep_view() + Seq::<Seq<char>>::empty() =~= out.deep_view());
    }
    out
}

/// The position of the first newline at or after `start`, or `n` when none
/// follows.
fn newline_end(content: &str, start: usize, n: usize) -> (j: usize)
    requires
        start <= n,
        n == content@.len(),
    ensures
        start <= j <= n,
        j == start + newline_dist(content@, start as int),
        j < n ==> content@[j as int] == '\n',
{
    let mut j = start;
    while j < n && content.get_char(j) != '\n'
        invariant
            start <= j <= n,
            n == content@.len(),
            start + newline_dist(content@, start as int) == j + newline_dist(
                content@,
                j as int,
            ),
        decreases n - j,
    {
        j = j + 1;
    }
    proof {
        assert(newline_dist(content@, j as int) == 0);
    }
    j
}

} // verus!
