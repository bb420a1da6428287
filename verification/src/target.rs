//! Choosing the file that receives the patterns: the primary pattern file
//! `.stignore`, or the secondary one, `.stignore_sync`, which the primary file
//! may name in a directive line.

use crate::grammar::{directive, is_directive_line, names_secondary, secondary_name};
use crate::text::{
    chars_of, is_blank, is_space, leading_spaces, lemma_leading_bound, lemma_leading_spaces,
    lemma_trailing_bound, lemma_trailing_spaces, pieces, split, trailing_spaces, trim, Delimiter,
};
use vstd::prelude::*;

verus! {

/// Which file the user asks to append to.
#[derive(Clone, Copy, Debug)]
pub enum Target {
    /// The secondary file if the primary file names it, and else the primary
    /// file.
    Auto,
    /// The primary file.
    Stignore,
    /// The secondary file.
    StignoreSync,
}

/// One of the two pattern files at the root of a synchronised folder.
#[derive(Clone, Copy, Debug)]
pub enum TargetFile {
    /// The file `.stignore`.
    Primary,
    /// The file `.stignore_sync`.
    Secondary,
}

impl TargetFile {
    /// The name of the file.
    pub open spec fn spec_file_name(self) -> Seq<char> {
        match self {
            TargetFile::Primary => ".stignore"@,
            TargetFile::Secondary => ".stignore_sync"@,
        }
    }

    /// The name of the file.
    pub fn file_name(self) -> (name: &'static str)
        ensures
            name@ == self.spec_file_name(),
    {
        match self {
            TargetFile::Primary => ".stignore",
            TargetFile::Secondary => ".stignore_sync",
        }
    }
}

/// The name that a directive line must hold is the name of the secondary
/// file.
pub proof fn lemma_secondary_name()
    ensures
        TargetFile::Secondary.spec_file_name() == secondary_name(),
{
    reveal_strlit(".stignore_sync");
    assert(".stignore_sync"@ =~= secondary_name());
}

/// Whether a text has a line that is a directive naming the secondary file.
pub open spec fn names_secondary_file(content: Seq<char>) -> bool {
    exists|i: int|
        0 <= i < pieces(content, Delimiter::LineFeed).len() && is_directive_line(
            #[trigger] pieces(content, Delimiter::LineFeed)[i],
        )
}

/// The file that receives the patterns. Where the user names a file, it is
/// that one. Else it is the secondary file if the primary file names it, and
/// the primary file if it does not.
pub open spec fn resolved(target: Target, sync_included: bool) -> TargetFile {
    match target {
        Target::Stignore => TargetFile::Primary,
        Target::StignoreSync => TargetFile::Secondary,
        Target::Auto => if sync_included {
            TargetFile::Secondary
        } else {
            TargetFile::Primary
        },
    }
}

impl Target {
    /// Whether the primary file has to be read before the file that receives
    /// the patterns is known.
    pub fn needs_scan(self) -> (r: bool)
        ensures
            r == (self is Auto),
            !r ==> resolved(self, true) == resolved(self, false),
    {
        match self {
            Target::Auto => true,
            _ => false,
        }
    }

    /// The file that receives the patterns, given whether the primary file
    /// names the secondary one.
    pub fn resolve(self, sync_included: bool) -> (file: TargetFile)
        ensures
            file == resolved(self, sync_included),
    {
        match self {
            Target::Stignore => TargetFile::Primary,
            Target::StignoreSync => TargetFile::Secondary,
            Target::Auto => if sync_included {
                TargetFile::Secondary
            } else {
                TargetFile::Primary
            },
        }
    }
}

/// Tests whether the text of the primary file has a line that is a directive
/// naming the secondary file.
pub fn is_stignore_sync_included(content: &str) -> (r: bool)
    ensures
        r == names_secondary_file(content@),
{
    let text = chars_of(content);
    let lines = split(text.as_slice(), Delimiter::LineFeed);
    let mut i: usize = 0;
    while i < lines.len()
        invariant
            i <= lines.len(),
            lines.deep_view() == pieces(content@, Delimiter::LineFeed),
            forall|k: int| 0 <= k < i ==> !is_directive_line(#[trigger] lines.deep_view()[k]),
        decreases lines.len() - i,
    {
        proof {
            assert(lines.deep_view()[i as int] =~= lines@[i as int]@);
        }
        if names_secondary(lines[i].as_slice()) {
            return true;
        }
        i += 1;
    }
    false
}

/// A line made of the directive token, whitespace and the name of the
/// secondary file is a directive line, whatever whitespace stands before it
/// and behind it.
pub proof fn lemma_directive_line_accepted(before: Seq<char>, between: Seq<char>, after: Seq<char>)
    requires
        is_blank(before),
        is_blank(between),
        between.len() >= 1,
        is_blank(after),
    ensures
        is_directive_line(before + directive() + between + secondary_name() + after),
{
    let s = before + directive() + between + secondary_name() + after;
    let a = before.len() as int;
    assert(s[a] == directive()[0]);
    assert forall|i: int| 0 <= i < a implies is_space(#[trigger] s[i]) by {
        assert(s[i] == before[i]);
    }
    lemma_leading_spaces(s, a);
    let rest = s.skip(a);
    let c = after.len() as int;
    assert forall|i: int| rest.len() - c <= i < rest.len() implies is_space(#[trigger] rest[i]) by {
        assert(rest[i] == after[i - (rest.len() - c)]);
    }
    assert(rest[rest.len() - c - 1] == secondary_name()[13]);
    lemma_trailing_spaces(rest, c);
    let t = trim(s);
    assert(t =~= directive() + between + secondary_name());
    assert(t.subrange(0, 8) =~= directive());
    let tail = t.skip(8);
    assert(tail =~= between + secondary_name());
    let b = between.len() as int;
    assert forall|i: int| 0 <= i < b implies is_space(#[trigger] tail[i]) by {
        assert(tail[i] == between[i]);
    }
    assert(tail[b] == secondary_name()[0]);
    lemma_leading_spaces(tail, b);
    assert(tail.skip(b) =~= secondary_name());
}

/// A directive line is made of the directive token, whitespace and the name
/// of the secondary file, between whitespace, and of nothing else.
pub proof fn lemma_directive_line_shape(s: Seq<char>)
    requires
        is_directive_line(s),
    ensures
        exists|before: Seq<char>, between: Seq<char>, after: Seq<char>|
            #![trigger before + directive() + between + secondary_name() + after]
            {
                &&& is_blank(before)
                &&& is_blank(between)
                &&& between.len() >= 1
                &&& is_blank(after)
                &&& s == before + directive() + between + secondary_name() + after
            },
{
    lemma_leading_bound(s);
    let a = leading_spaces(s) as int;
    let rest = s.skip(a);
    lemma_trailing_bound(rest);
    let c = trailing_spaces(rest) as int;
    let t = trim(s);
    let tail = t.skip(8);
    lemma_leading_bound(tail);
    let b = leading_spaces(tail) as int;
    let before = s.take(a);
    let between = tail.take(b);
    let after = rest.skip(rest.len() - c);
    assert(t.subrange(0, 8) == directive());
    assert forall|i: int| 0 <= i < after.len() implies is_space(#[trigger] after[i]) by {
        assert(after[i] == rest[rest.len() - c + i]);
    }
    assert(s =~= before + directive() + between + secondary_name() + after) by {
        let whole = before + directive() + between + secondary_name() + after;
        assert(t =~= t.subrange(0, 8) + tail);
        assert(tail =~= tail.take(b) + tail.skip(b));
        assert(rest =~= t + after);
        assert(s =~= before + rest);
    }
}

/// With no file named by the user, the secondary file receives the patterns
/// if the primary file has a directive line that names it, with whatever
/// whitespace around its parts, and the primary file receives them if it has
/// no such line.
pub proof fn lemma_auto_resolution(content: Seq<char>)
    ensures
        resolved(Target::Auto, names_secondary_file(content)) == if names_secondary_file(content) {
            TargetFile::Secondary
        } else {
            TargetFile::Primary
        },
        (exists|i: int, before: Seq<char>, between: Seq<char>, after: Seq<char>|
            #![trigger
                pieces(content, Delimiter::LineFeed)[i],
                before + directive() + between + secondary_name() + after
            ]
            {
                &&& 0 <= i < pieces(content, Delimiter::LineFeed).len()
                &&& is_blank(before)
                &&& is_blank(between)
                &&& between.len() >= 1
                &&& is_blank(after)
                &&& pieces(content, Delimiter::LineFeed)[i] == before + directive() + between
                    + secondary_name() + after
            }) <==> names_secondary_file(content),
{
    let lines = pieces(content, Delimiter::LineFeed);
    if names_secondary_file(content) {
        let i = choose|i: int| 0 <= i < lines.len() && is_directive_line(#[trigger] lines[i]);
        lemma_directive_line_shape(lines[i]);
    }
    assert forall|i: int, before: Seq<char>, between: Seq<char>, after: Seq<char>|
        {
            &&& 0 <= i < lines.len()
            &&& is_blank(before)
            &&& is_blank(between)
            &&& between.len() >= 1
            &&& is_blank(after)
            &&& #[trigger] lines[i] == #[trigger] (before + directive() + between
                + secondary_name() + after)
        } implies names_secondary_file(content) by {
        lemma_directive_line_accepted(before, between, after);
    }
}

} // verus!
