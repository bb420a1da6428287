//! The two kinds of line that are told apart by their shape: the pattern, with
//! its modifier prefix and its path, and the directive line that names the
//! secondary pattern file.

use crate::text::{is_space, is_whitespace, leading_spaces, lemma_leading_spaces, trim, trim_bounds};
use vstd::prelude::*;
use vstd::slice::slice_subrange;

verus! {

/// The token `#include` that opens a directive.
pub open spec fn directive() -> Seq<char> {
    seq!['#', 'i', 'n', 'c', 'l', 'u', 'd', 'e']
}

/// The token `#include`, as characters.
pub fn directive_word() -> (w: Vec<char>)
    ensures
        w@ == directive(),
{
    let w: Vec<char> = vec!['#', 'i', 'n', 'c', 'l', 'u', 'd', 'e'];
    proof {
        assert(w@ =~= directive());
    }
    w
}

/// Whether `word` stands in `s` at the index `at`.
pub open spec fn stands_at(s: Seq<char>, at: int, word: Seq<char>) -> bool {
    0 <= at && at + word.len() <= s.len() && s.subrange(at, at + word.len()) == word
}

/// Tests whether `word` stands in `s` at the index `at`.
pub fn matches_at(s: &[char], at: usize, word: &[char]) -> (r: bool)
    ensures
        r == stands_at(s@, at as int, word@),
{
    if at > s.len() || word.len() > s.len() - at {
        return false;
    }
    let mut i: usize = 0;
    while i < word.len()
        invariant
            i <= word.len(),
            at + word.len() <= s.len(),
            forall|k: int| 0 <= k < i ==> s@[at + k] == word@[k],
        decreases word.len() - i,
    {
        if s[at + i] != word[i] {
            proof {
                assert(s@.subrange(at as int, at + word.len())[i as int] == s@[at + i]);
            }
            return false;
        }
        i += 1;
    }
    proof {
        assert(s@.subrange(at as int, at + word.len()) =~= word@);
    }
    true
}

/// The name of the secondary pattern file, `.stignore_sync`.
pub open spec fn secondary_name() -> Seq<char> {
    seq!['.', 's', 't', 'i', 'g', 'n', 'o', 'r', 'e', '_', 's', 'y', 'n', 'c']
}

/// The name of the secondary pattern file, as characters.
pub fn secondary_word() -> (w: Vec<char>)
    ensures
        w@ == secondary_name(),
{
    let w: Vec<char> = vec!['.', 's', 't', 'i', 'g', 'n', 'o', 'r', 'e', '_', 's', 'y', 'n', 'c'];
    proof {
        assert(w@ =~= secondary_name());
    }
    w
}

/// The length of the marker that `s` starts with: 1 for the negation `!`, 4
/// for `(?d)` and for `(?i)`, and 0 where `s` starts with none of them.
pub open spec fn marker_len(s: Seq<char>) -> nat {
    if s.len() >= 1 && s[0] == '!' {
        1
    } else if s.len() >= 4 && s[0] == '(' && s[1] == '?' && (s[2] == 'd' || s[2] == 'i') && s[3]
        == ')' {
        4
    } else {
        0
    }
}

/// The length of the longest run of markers that `s` starts with.
pub open spec fn marker_run(s: Seq<char>) -> nat
    decreases s.len(),
{
    let n = marker_len(s);
    if n == 0 {
        0
    } else {
        n + marker_run(s.skip(n as int))
    }
}

/// The number of spaces (U+0020) that `s` starts with.
pub open spec fn blanks(s: Seq<char>) -> nat
    decreases s.len(),
{
    if s.len() > 0 && s[0] == ' ' {
        1 + blanks(s.drop_first())
    } else {
        0
    }
}

/// The length of the modifier prefix of the pattern `s`: the directive token
/// with the space behind it where `s` starts with that, and else the longest
/// run of markers, which may be empty.
pub open spec fn modifier_len(s: Seq<char>) -> nat {
    if stands_at(s, 0, directive().push(' ')) {
        9
    } else {
        marker_run(s)
    }
}

/// Where the path of the pattern `s` starts: behind the modifier prefix and
/// the spaces that follow it.
pub open spec fn path_offset(s: Seq<char>) -> nat {
    let m = modifier_len(s);
    m + blanks(s.skip(m as int))
}

/// The modifier prefix of the pattern `s`.
pub open spec fn modifier_of(s: Seq<char>) -> Seq<char> {
    s.take(modifier_len(s) as int)
}

/// The path of the pattern `s`: what is left of it behind the modifier prefix
/// and the spaces that follow it.
pub open spec fn path_of(s: Seq<char>) -> Seq<char> {
    s.skip(path_offset(s) as int)
}

/// Whether `s` has the shape of a pattern: its path is not empty.
pub open spec fn has_path(s: Seq<char>) -> bool {
    path_offset(s) < s.len()
}

/// A run of `n` spaces at the start of `s`, followed by the end of `s` or by
/// another character, is all the leading spaces.
pub proof fn lemma_blanks(s: Seq<char>, n: int)
    requires
        0 <= n <= s.len(),
        forall|i: int| 0 <= i < n ==> #[trigger] s[i] == ' ',
        n < s.len() ==> s[n] != ' ',
    ensures
        blanks(s) == n,
    decreases n,
{
    if n > 0 {
        lemma_blanks(s.drop_first(), n - 1);
    }
}

/// Whether `m` is a run of markers and nothing else.
pub open spec fn is_marker_run(m: Seq<char>) -> bool {
    marker_run(m) == m.len()
}

/// The number of spaces that `s` starts with lies within `s`; they are
/// spaces, and what follows them is not.
pub proof fn lemma_blanks_bound(s: Seq<char>)
    ensures
        blanks(s) <= s.len(),
        forall|i: int| 0 <= i < blanks(s) ==> #[trigger] s[i] == ' ',
        blanks(s) < s.len() ==> s[blanks(s) as int] != ' ',
    decreases s.len(),
{
    if s.len() > 0 && s[0] == ' ' {
        let t = s.drop_first();
        lemma_blanks_bound(t);
        assert forall|i: int| 0 <= i < blanks(s) implies #[trigger] s[i] == ' ' by {
            if i > 0 {
                assert(s[i] == t[i - 1]);
            }
        }
        if blanks(s) < s.len() {
            assert(s[blanks(s) as int] == t[blanks(t) as int]);
        }
    }
}

/// The longest run of markers at the start of `s` lies within `s`, is made of
/// markers and of nothing else, and no marker follows it.
pub proof fn lemma_marker_run_bound(s: Seq<char>)
    ensures
        marker_run(s) <= s.len(),
        is_marker_run(s.take(marker_run(s) as int)),
        marker_len(s.skip(marker_run(s) as int)) == 0,
    decreases s.len(),
{
    let n = marker_len(s) as int;
    if n == 0 {
        assert(s.skip(0) =~= s);
        assert(marker_len(s.take(0)) == 0);
    } else {
        let t = s.skip(n);
        lemma_marker_run_bound(t);
        let r = marker_run(t) as int;
        let head = s.take(n + r);
        assert(head.skip(n) =~= t.take(r));
        assert(s.skip(n + r) =~= t.skip(r));
        assert(marker_len(head) == n) by {
            assert(head[0] == s[0]);
            if n == 4 {
                assert(head[1] == s[1] && head[2] == s[2] && head[3] == s[3]);
            }
        }
    }
}

/// Every text reads as a modifier prefix, spaces, and a path, in one way: the
/// modifier prefix is the directive token with a space, or the longest run of
/// markers; the spaces are all the spaces behind it; the path is the rest.
pub proof fn lemma_pattern_shape(s: Seq<char>)
    ensures
        modifier_len(s) <= path_offset(s) <= s.len(),
        s == modifier_of(s) + s.subrange(modifier_len(s) as int, path_offset(s) as int) + path_of(
            s,
        ),
        forall|i: int| modifier_len(s) <= i < path_offset(s) ==> #[trigger] s[i] == ' ',
        has_path(s) ==> path_of(s)[0] != ' ',
        modifier_of(s) == directive().push(' ') || is_marker_run(modifier_of(s)),
        !stands_at(s, 0, directive().push(' ')) ==> marker_len(s.skip(modifier_len(s) as int))
            == 0,
{
    lemma_marker_run_bound(s);
    let m = modifier_len(s) as int;
    let rest = s.skip(m);
    lemma_blanks_bound(rest);
    let p = path_offset(s) as int;
    assert forall|i: int| m <= i < p implies #[trigger] s[i] == ' ' by {
        assert(s[i] == rest[i - m]);
    }
    if p < s.len() {
        assert(path_of(s)[0] == rest[blanks(rest) as int]);
    }
    assert(s =~= modifier_of(s) + s.subrange(m, p) + path_of(s));
    if stands_at(s, 0, directive().push(' ')) {
        assert(s.take(9) =~= s.subrange(0, 9));
    }
}

/// The length of the marker that stands in `s` at the index `at`.
fn marker_len_at(s: &[char], at: usize) -> (n: usize)
    requires
        at <= s.len(),
    ensures
        n == marker_len(s@.skip(at as int)),
        at + n <= s.len(),
{
    let left: usize = s.len() - at;
    if left >= 1 && s[at] == '!' {
        1
    } else if left >= 4 && s[at] == '(' && s[at + 1] == '?' && (s[at + 2] == 'd' || s[at + 2]
        == 'i') && s[at + 3] == ')' {
        4
    } else {
        0
    }
}

/// Finds the two parts of a pattern: the length of its modifier prefix, and
/// the index at which its path starts.
pub fn scan_pattern(line: &[char]) -> (r: (usize, usize))
    ensures
        r.0 == modifier_len(line@),
        r.1 == path_offset(line@),
        r.0 <= r.1 <= line.len(),
{
    let n: usize = line.len();
    let mut opening: Vec<char> = directive_word();
    opening.push(' ');
    let mut m: usize = 0;
    if matches_at(line, 0, opening.as_slice()) {
        m = 9;
    } else {
        proof {
            assert(line@.skip(0) =~= line@);
        }
        loop
            invariant
                m <= n == line.len(),
                marker_run(line@) == m + marker_run(line@.skip(m as int)),
            ensures
                m <= n,
                marker_run(line@) == m,
            decreases n - m,
        {
            let k: usize = marker_len_at(line, m);
            if k == 0 {
                break ;
            }
            proof {
                assert(line@.skip(m as int).skip(k as int) =~= line@.skip(m + k));
            }
            m += k;
        }
    }
    let mut p: usize = m;
    while p < n && line[p] == ' '
        invariant
            m <= p <= n == line.len(),
            forall|i: int| m <= i < p ==> line@[i] == ' ',
        decreases n - p,
    {
        p += 1;
    }
    proof {
        let rest = line@.skip(m as int);
        assert forall|i: int| 0 <= i < p - m implies #[trigger] rest[i] == ' ' by {
            assert(rest[i] == line@[m + i]);
        }
        lemma_blanks(rest, p - m);
    }
    (m, p)
}

/// Whether `s` is a directive line that names the secondary pattern file:
/// between whitespace, which may be missing, the directive token, whitespace,
/// and the name of the file.
pub open spec fn is_directive_line(s: Seq<char>) -> bool {
    let t = trim(s);
    let rest = t.skip(directive().len() as int);
    &&& stands_at(t, 0, directive())
    &&& leading_spaces(rest) >= 1
    &&& rest.skip(leading_spaces(rest) as int) == secondary_name()
}

/// Tests whether `line` is a directive line that names the secondary pattern
/// file.
pub fn names_secondary(line: &[char]) -> (r: bool)
    ensures
        r == is_directive_line(line@),
{
    let (a, b): (usize, usize) = trim_bounds(line);
    let t = slice_subrange(line, a, b);
    let token = directive_word();
    if !matches_at(t, 0, token.as_slice()) {
        return false;
    }
    let n: usize = t.len();
    let mut i: usize = 8;
    while i < n && is_whitespace(t[i])
        invariant
            8 <= i <= n == t.len(),
            forall|k: int| 8 <= k < i ==> is_space(#[trigger] t@[k]),
        decreases n - i,
    {
        i += 1;
    }
    proof {
        let rest = t@.skip(8);
        assert forall|k: int| 0 <= k < i - 8 implies is_space(#[trigger] rest[k]) by {
            assert(rest[k] == t@[k + 8]);
        }
        lemma_leading_spaces(rest, i - 8);
        assert(rest.skip(i - 8) =~= t@.skip(i as int));
    }
    if i == 8 {
        return false;
    }
    let name = secondary_word();
    let r = n - i == name.len() && matches_at(t, i, name.as_slice());
    proof {
        if n - i == name.len() {
            assert(t@.skip(i as int) =~= t@.subrange(i as int, i + name.len()));
        }
    }
    r
}

} // verus!
