//! Paths as lists of names.
//!
//! A path text is read as the names that lead from some directory to a file
//! or a directory below it. What says where the path starts, a drive, a root
//! or the current directory, is no name and is left out.

use crate::platform::Platform;
use crate::text::{chars_of, extend_chars, pieces, split, string_of, Delimiter};
use vstd::prelude::*;
use vstd::slice::{slice_subrange, slice_to_vec};

verus! {

/// Whether `c` is one of the letters `a` to `z` and `A` to `Z`.
pub open spec fn is_letter(c: char) -> bool {
    ('a' <= c && c <= 'z') || ('A' <= c && c <= 'Z')
}

/// Whether `p` starts with a drive: a letter and a colon.
pub open spec fn has_drive(p: Seq<char>) -> bool {
    p.len() >= 2 && is_letter(p[0]) && p[1] == ':'
}

/// The number of characters at the start of `p` that name a drive.
pub open spec fn drive_len(p: Seq<char>, platform: Platform) -> nat {
    if platform.has_drives() && has_drive(p) {
        2
    } else {
        0
    }
}

/// Whether a piece of a path is a name: it is neither empty, as the piece
/// before a leading separator and the one between two separators are, nor the
/// single dot that stands for the directory it is met in.
pub open spec fn is_name(piece: Seq<char>) -> bool {
    piece.len() > 0 && piece != seq!['.']
}

/// The names of the path `p`, in order. A drive at its start, separators at
/// its start and at its end, repeated separators and single dots give none.
pub open spec fn path_names(p: Seq<char>, platform: Platform) -> Seq<Seq<char>> {
    pieces(p.skip(drive_len(p, platform) as int), platform.delimiter()).filter(
        |piece: Seq<char>| is_name(piece),
    )
}

/// The path text made of `names`, with `sep` between each two of them and
/// nothing before the first or behind the last.
pub open spec fn joined(names: Seq<Seq<char>>, sep: char) -> Seq<char>
    decreases names.len(),
{
    if names.len() == 0 {
        Seq::empty()
    } else if names.len() == 1 {
        names[0]
    } else {
        joined(names.drop_last(), sep).push(sep) + names.last()
    }
}

/// The path `p` below the directory that `prefix` names: the names of
/// `prefix` and then those of `p`, written with the platform's separator.
pub open spec fn rewritten_path(
    p: Seq<char>,
    prefix: Seq<Seq<char>>,
    platform: Platform,
) -> Seq<char> {
    joined(prefix + path_names(p, platform), platform.separator())
}

/// Tests whether a piece of a path is a name.
pub fn piece_is_name(piece: &[char]) -> (r: bool)
    ensures
        r == is_name(piece@),
{
    let r = piece.len() > 0 && !(piece.len() == 1 && piece[0] == '.');
    proof {
        if piece.len() == 1 && piece[0] == '.' {
            assert(piece@ =~= seq!['.']);
        }
        if piece@ == seq!['.'] {
            assert(piece@.len() == 1 && piece@[0] == '.');
        }
    }
    r
}

/// The number of characters at the start of `p` that name a drive.
pub fn drive_length(p: &[char], platform: Platform) -> (n: usize)
    ensures
        n == drive_len(p@, platform),
        n <= p.len(),
{
    match platform {
        Platform::Unix => 0,
        Platform::Windows => {
            if p.len() >= 2 && p[1] == ':' && (('a' <= p[0] && p[0] <= 'z') || ('A' <= p[0]
                && p[0] <= 'Z')) {
                2
            } else {
                0
            }
        },
    }
}

/// Appends `name` to the path text at the end of `out`, behind a separator
/// unless it is the first name of that path.
fn push_name(
    out: &mut Vec<char>,
    name: &[char],
    first: bool,
    sep: char,
    Ghost(start): Ghost<int>,
    Ghost(names): Ghost<Seq<Seq<char>>>,
)
    requires
        0 <= start <= old(out)@.len(),
        old(out)@.skip(start) == joined(names, sep),
        first == (names.len() == 0),
    ensures
        final(out)@.len() >= start,
        final(out)@.take(start) == old(out)@.take(start),
        final(out)@.skip(start) == joined(names.push(name@), sep),
{
    if !first {
        out.push(sep);
    }
    extend_chars(out, name);
    proof {
        let more = names.push(name@);
        assert(more.drop_last() =~= names);
        assert(out@.take(start) =~= old(out)@.take(start));
        if first {
            assert(old(out)@.skip(start) =~= Seq::<char>::empty());
            assert(out@.skip(start) =~= name@);
        } else {
            assert(out@.skip(start) =~= old(out)@.skip(start).push(sep) + name@);
        }
    }
}

/// Appends `more` names to the path text at the end of `out`, which holds the
/// names `names` so far and starts at the index `start`.
fn push_names(
    out: &mut Vec<char>,
    more: &Vec<Vec<char>>,
    first: bool,
    sep: char,
    Ghost(start): Ghost<int>,
    Ghost(names): Ghost<Seq<Seq<char>>>,
)
    requires
        0 <= start <= old(out)@.len(),
        old(out)@.skip(start) == joined(names, sep),
        first == (names.len() == 0),
    ensures
        final(out)@.len() >= start,
        final(out)@.take(start) == old(out)@.take(start),
        final(out)@.skip(start) == joined(names + more.deep_view(), sep),
{
    let mut k: usize = 0;
    proof {
        assert(names + more.deep_view().take(0) =~= names);
    }
    while k < more.len()
        invariant
            k <= more.len(),
            0 <= start <= out@.len(),
            out@.take(start) == old(out)@.take(start),
            out@.skip(start) == joined(names + more.deep_view().take(k as int), sep),
            first == (names.len() == 0),
        decreases more.len() - k,
    {
        proof {
            assert(names + more.deep_view().take(k + 1) =~~= (names + more.deep_view().take(
                k as int,
            )).push(more@[k as int]@));
        }
        push_name(
            out,
            more[k].as_slice(),
            first && k == 0,
            sep,
            Ghost(start),
            Ghost(names + more.deep_view().take(k as int)),
        );
        k += 1;
    }
    proof {
        assert(more.deep_view().take(k as int) =~= more.deep_view());
    }
}

/// Reads the names of a path from its characters.
pub fn read_names(path: &[char], platform: Platform) -> (names: Vec<Vec<char>>)
    ensures
        names.deep_view() == path_names(path@, platform),
{
    let d: usize = drive_length(path, platform);
    let rest = slice_subrange(path, d, path.len());
    let parts = split(rest, platform.path_delimiter());
    let ghost kept = |piece: Seq<char>| is_name(piece);
    let mut names: Vec<Vec<char>> = Vec::new();
    let mut j: usize = 0;
    proof {
        reveal(Seq::filter);
        assert(parts.deep_view().take(0) =~= Seq::empty());
        assert(names.deep_view() =~= parts.deep_view().take(0).filter(kept));
        assert(rest@ =~= path@.skip(d as int));
    }
    while j < parts.len()
        invariant
            j <= parts.len(),
            kept == |piece: Seq<char>| is_name(piece),
            names.deep_view() == parts.deep_view().take(j as int).filter(kept),
        decreases parts.len() - j,
    {
        let piece = parts[j].as_slice();
        proof {
            reveal(Seq::filter);
            let seen = parts.deep_view().take(j + 1);
            assert(seen.drop_last() =~= parts.deep_view().take(j as int));
            assert(seen.last() =~= piece@);
        }
        if piece_is_name(piece) {
            let ghost before = names.deep_view();
            names.push(slice_to_vec(piece));
            proof {
                assert(names.deep_view() =~~= before.push(piece@));
            }
        }
        j += 1;
    }
    proof {
        assert(parts.deep_view().take(j as int) =~= parts.deep_view());
    }
    names
}

/// Reads the names of a path.
pub fn names_of(path: &str, platform: Platform) -> (names: Vec<String>)
    ensures
        names.deep_view() == path_names(path@, platform),
{
    let text = chars_of(path);
    let read = read_names(text.as_slice(), platform);
    let mut names: Vec<String> = Vec::new();
    let mut k: usize = 0;
    while k < read.len()
        invariant
            k <= read.len(),
            names.deep_view() == read.deep_view().take(k as int),
        decreases read.len() - k,
    {
        let ghost before = names.deep_view();
        names.push(string_of(read[k].as_slice()));
        proof {
            assert(names.deep_view() =~~= before.push(read@[k as int]@));
            assert(read.deep_view().take(k + 1) =~~= before.push(read@[k as int]@));
        }
        k += 1;
    }
    proof {
        assert(read.deep_view().take(k as int) =~= read.deep_view());
    }
    names
}

/// Appends to `out` the path `path` below the directory that `prefix` names.
pub fn push_rewritten(
    out: &mut Vec<char>,
    path: &[char],
    prefix: &Vec<Vec<char>>,
    platform: Platform,
)
    ensures
        final(out)@ == old(out)@ + rewritten_path(path@, prefix.deep_view(), platform),
{
    let sep = platform.path_separator();
    let ghost start = out@.len() as int;
    let ghost none: Seq<Seq<char>> = Seq::empty();
    proof {
        assert(out@.skip(start) =~= Seq::<char>::empty());
        assert(none + prefix.deep_view() =~= prefix.deep_view());
    }
    push_names(out, prefix, true, sep, Ghost(start), Ghost(none));
    let names = read_names(path, platform);
    push_names(out, &names, prefix.len() == 0, sep, Ghost(start), Ghost(prefix.deep_view()));
    proof {
        assert(out@.take(start) =~= old(out)@);
        assert(out@ =~= out@.take(start) + out@.skip(start));
    }
}

/// Whether no character of `s` is a delimiter.
pub open spec fn free_of(s: Seq<char>, d: Delimiter) -> bool {
    forall|i: int| 0 <= i < s.len() ==> !d.cuts(#[trigger] s[i])
}

/// Whether `name` can be one name of a path: it is a name, and none of its
/// characters sets names apart.
pub open spec fn is_plain_name(name: Seq<char>, platform: Platform) -> bool {
    is_name(name) && free_of(name, platform.delimiter())
}

/// No piece holds a delimiter.
pub proof fn lemma_pieces_free(s: Seq<char>, d: Delimiter)
    ensures
        pieces(s, d).len() >= 1,
        forall|k: int| 0 <= k < pieces(s, d).len() ==> free_of(#[trigger] pieces(s, d)[k], d),
    decreases s.len(),
{
    if s.len() > 0 {
        lemma_pieces_free(s.drop_last(), d);
    }
}

/// Text without a delimiter, put behind `a`, joins the last piece of `a`.
pub proof fn lemma_pieces_extend(a: Seq<char>, x: Seq<char>, d: Delimiter)
    requires
        free_of(x, d),
    ensures
        pieces(a, d).len() >= 1,
        pieces(a + x, d) == pieces(a, d).drop_last().push(pieces(a, d).last() + x),
    decreases x.len(),
{
    lemma_pieces_free(a, d);
    if x.len() == 0 {
        assert(a + x =~= a);
        assert(pieces(a, d).last() + x =~= pieces(a, d).last());
        assert(pieces(a, d).drop_last().push(pieces(a, d).last()) =~= pieces(a, d));
    } else {
        let y = x.drop_last();
        assert(free_of(y, d)) by {
            assert forall|i: int| 0 <= i < y.len() implies !d.cuts(#[trigger] y[i]) by {
                assert(y[i] == x[i]);
            }
        }
        lemma_pieces_extend(a, y, d);
        assert((a + x).drop_last() =~= a + y);
        assert((a + x).last() == x.last());
        assert(!d.cuts(x.last()));
        let before = pieces(a + y, d);
        assert(before.drop_last() =~= pieces(a, d).drop_last());
        assert(before.last().push(x.last()) =~= pieces(a, d).last() + x);
    }
}

/// Cutting the path text made of names that hold no delimiter gives the names
/// back.
pub proof fn lemma_pieces_of_joined(names: Seq<Seq<char>>, sep: char, d: Delimiter)
    requires
        names.len() >= 1,
        d.cuts(sep),
        forall|k: int| 0 <= k < names.len() ==> free_of(#[trigger] names[k], d),
    ensures
        pieces(joined(names, sep), d) == names,
    decreases names.len(),
{
    let x = names.last();
    if names.len() == 1 {
        lemma_pieces_extend(Seq::empty(), x, d);
        assert(Seq::<char>::empty() + x =~= x);
        assert(pieces(Seq::<char>::empty(), d).last() + x =~= x);
        assert(pieces(x, d) =~= names);
    } else {
        let init = names.drop_last();
        lemma_pieces_of_joined(init, sep, d);
        let a = joined(init, sep).push(sep);
        assert(a.drop_last() =~= joined(init, sep));
        assert(a.last() == sep);
        assert(pieces(a, d) == init.push(Seq::<char>::empty()));
        lemma_pieces_extend(a, x, d);
        assert(Seq::<char>::empty() + x =~= x);
        assert(init.push(Seq::<char>::empty()).drop_last() =~= init);
        assert(init.push(x) =~= names);
    }
}

/// The pieces of a text, put together again with the delimiter between each
/// two of them, are the text, where the delimiter is one character.
pub proof fn lemma_joined_pieces(s: Seq<char>, sep: char, d: Delimiter)
    requires
        forall|c: char| d.cuts(c) <==> c == sep,
    ensures
        joined(pieces(s, d), sep) == s,
    decreases s.len(),
{
    if s.len() == 0 {
        assert(joined(pieces(s, d), sep) =~= s);
    } else {
        let init = s.drop_last();
        let before = pieces(init, d);
        lemma_pieces_free(init, d);
        lemma_joined_pieces(init, sep, d);
        assert(init.push(s.last()) =~= s);
        if d.cuts(s.last()) {
            let all = before.push(Seq::<char>::empty());
            assert(all.drop_last() =~= before);
            assert(joined(all, sep) =~= joined(before, sep).push(sep));
        } else {
            let all = before.drop_last().push(before.last().push(s.last()));
            assert(all.drop_last() =~= before.drop_last());
            if before.len() == 1 {
                assert(joined(all, sep) =~= joined(before, sep).push(s.last()));
            } else {
                assert(joined(all, sep) =~= joined(before.drop_last(), sep).push(sep) + before.last(
                ).push(s.last()));
                assert(joined(all, sep) =~= joined(before, sep).push(s.last()));
            }
        }
    }
}

/// The names of a path are names, and none of them holds a delimiter.
pub proof fn lemma_path_names_plain(p: Seq<char>, platform: Platform)
    ensures
        forall|k: int|
            0 <= k < path_names(p, platform).len() ==> is_plain_name(
                #[trigger] path_names(p, platform)[k],
                platform,
            ),
{
    broadcast use vstd::seq_lib::group_filter_ensures;

    let d = platform.delimiter();
    let all = pieces(p.skip(drive_len(p, platform) as int), d);
    let pred = |piece: Seq<char>| is_name(piece);
    lemma_pieces_free(p.skip(drive_len(p, platform) as int), d);
    assert forall|k: int| 0 <= k < all.filter(pred).len() implies is_plain_name(
        #[trigger] all.filter(pred)[k],
        platform,
    ) by {
        let name = all.filter(pred)[k];
        assert(pred(name));
        assert(all.filter(pred).contains(name));
        all.lemma_filter_contains_rev(pred, name);
        let j = choose|j: int| 0 <= j < all.len() && all[j] == name;
        assert(free_of(all[j], d));
    }
}

/// A list of names keeps all its elements when only names are kept.
pub proof fn lemma_names_all_kept(names: Seq<Seq<char>>)
    requires
        forall|k: int| 0 <= k < names.len() ==> is_name(#[trigger] names[k]),
    ensures
        names.filter(|piece: Seq<char>| is_name(piece)) == names,
    decreases names.len(),
{
    reveal(Seq::filter);
    if names.len() > 0 {
        lemma_names_all_kept(names.drop_last());
        assert(names.drop_last().push(names.last()) =~= names);
    }
}

/// Reading back the path text made of names gives those names, where none of
/// them holds a delimiter and the text does not start with what reads as a
/// drive.
pub proof fn lemma_names_of_joined(names: Seq<Seq<char>>, platform: Platform)
    requires
        forall|k: int| 0 <= k < names.len() ==> is_plain_name(#[trigger] names[k], platform),
        drive_len(joined(names, platform.separator()), platform) == 0,
    ensures
        path_names(joined(names, platform.separator()), platform) == names,
{
    reveal(Seq::filter);
    let d = platform.delimiter();
    let text = joined(names, platform.separator());
    assert(text.skip(0) =~= text);
    if names.len() == 0 {
        let only = seq![Seq::<char>::empty()];
        assert(pieces(text, d) =~= only);
        let pred = |piece: Seq<char>| is_name(piece);
        assert(only.drop_last() =~= Seq::<Seq<char>>::empty());
        assert(only.drop_last().filter(pred) =~= Seq::<Seq<char>>::empty());
        assert(!pred(only.last()));
        assert(only.filter(pred) =~= names);
    } else {
        lemma_pieces_of_joined(names, platform.separator(), d);
        lemma_names_all_kept(names);
    }
}

/// Rewriting a path and reading the result back gives the names of the prefix
/// and then the names of the path: with the prefix taken off again, what is
/// left names the same file as the path did, whatever separators and dots the
/// path was written with.
///
/// This holds where each name of the prefix is a name without a delimiter, and
/// where the rewritten path does not start with what reads as a drive.
pub proof fn lemma_rewrite_round_trip(p: Seq<char>, prefix: Seq<Seq<char>>, platform: Platform)
    requires
        forall|k: int| 0 <= k < prefix.len() ==> is_plain_name(#[trigger] prefix[k], platform),
        drive_len(rewritten_path(p, prefix, platform), platform) == 0,
    ensures
        path_names(rewritten_path(p, prefix, platform), platform) == prefix + path_names(
            p,
            platform,
        ),
        path_names(rewritten_path(p, prefix, platform), platform).skip(prefix.len() as int)
            == path_names(p, platform),
{
    let names = prefix + path_names(p, platform);
    lemma_path_names_plain(p, platform);
    assert forall|k: int| 0 <= k < names.len() implies is_plain_name(
        #[trigger] names[k],
        platform,
    ) by {
        if k >= prefix.len() {
            assert(names[k] == path_names(p, platform)[k - prefix.len()]);
        } else {
            assert(names[k] == prefix[k]);
        }
    }
    lemma_names_of_joined(names, platform);
    assert(names.skip(prefix.len() as int) =~= path_names(p, platform));
}

} // verus!
