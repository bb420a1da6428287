//! The rewriting of patterns: from what the user typed to the lines that are
//! appended to a pattern file.

use crate::grammar::{has_path, modifier_of, path_of, scan_pattern, stands_at};
use crate::path::{
    drive_len, is_plain_name, joined, lemma_rewrite_round_trip, path_names, push_rewritten,
    rewritten_path,
};
use crate::platform::Platform;
use crate::text::{
    all_whitespace, chars_of, extend_chars, is_blank, pieces, split, string_of, trim, trim_bounds,
    Delimiter,
};
use vstd::prelude::*;
use vstd::slice::slice_subrange;
use vstd::string::StringExecFns;

verus! {

/// The mark `//` that a comment starts with.
pub open spec fn comment_mark() -> Seq<char> {
    seq!['/', '/']
}

/// Whether a line is copied as it is: an empty line and a comment are.
pub open spec fn passes_through(line: Seq<char>) -> bool {
    line.len() == 0 || stands_at(line, 0, comment_mark())
}

/// Whether a line is refused: it is not copied as it is, and it has not the
/// shape of a pattern.
pub open spec fn is_invalid(line: Seq<char>) -> bool {
    !passes_through(line) && !has_path(line)
}

/// The lines of one input text: the pieces between its line feeds, each
/// without the whitespace at its two ends.
pub open spec fn lines_of(input: Seq<char>) -> Seq<Seq<char>> {
    pieces(input, Delimiter::LineFeed).map_values(|piece: Seq<char>| trim(piece))
}

/// The lines of all the input texts, in order.
pub open spec fn candidate_lines(inputs: Seq<Seq<char>>) -> Seq<Seq<char>> {
    inputs.map_values(|input: Seq<char>| lines_of(input)).flatten()
}

/// What is written for a line that is not refused. A line that passes through
/// is written as it is. Of a pattern the modifier prefix is kept and the
/// spaces behind it are dropped; its path is kept as it is where no prefix is
/// given, and else rewritten to lie below the directory that the prefix names.
pub open spec fn rewritten(
    line: Seq<char>,
    prefix: Option<Seq<Seq<char>>>,
    platform: Platform,
) -> Seq<char> {
    if passes_through(line) {
        line
    } else {
        modifier_of(line) + match prefix {
            None => path_of(line),
            Some(names) => rewritten_path(path_of(line), names, platform),
        }
    }
}

/// The text made of what is written for each of `lines`, each followed by the
/// end of a line.
pub open spec fn rendered(
    lines: Seq<Seq<char>>,
    prefix: Option<Seq<Seq<char>>>,
    platform: Platform,
) -> Seq<char> {
    lines.map_values(|line: Seq<char>| rewritten(line, prefix, platform) + platform.line_ending())
        .flatten()
}

/// Those of `lines` that are refused, in order.
pub open spec fn invalid_lines(lines: Seq<Seq<char>>) -> Seq<Seq<char>> {
    lines.filter(|line: Seq<char>| is_invalid(line))
}

/// Why the patterns could not be rewritten.
#[derive(Debug)]
pub enum PatternError {
    /// Some lines have not the shape of a pattern: all of them, in order.
    Invalid(Vec<String>),
    /// The lines held nothing but whitespace.
    NoPatterns,
}

/// The message for lines that were refused.
pub open spec fn invalid_message(lines: Seq<Seq<char>>) -> Seq<char> {
    "Incorrect pattern"@ + (if lines.len() > 1 {
        "s"@
    } else {
        Seq::<char>::empty()
    }) + ":\n"@ + joined(lines, '\n')
}

impl PatternError {
    /// The message that tells the user of this error.
    pub open spec fn spec_message(&self) -> Seq<char> {
        match self {
            PatternError::Invalid(lines) => invalid_message(lines.deep_view()),
            PatternError::NoPatterns => "No patterns supplied!"@,
        }
    }

    /// The message that tells the user of this error.
    pub fn message(&self) -> (m: String)
        ensures
            m@ == self.spec_message(),
    {
        match self {
            PatternError::Invalid(lines) => {
                let mut m = String::new();
                m.append("Incorrect pattern");
                if lines.len() > 1 {
                    m.append("s");
                }
                m.append(":\n");
                let ghost head = m@;
                let mut i: usize = 0;
                while i < lines.len()
                    invariant
                        i <= lines.len(),
                        m@ == head + joined(lines.deep_view().take(i as int), '\n'),
                    decreases lines.len() - i,
                {
                    if i > 0 {
                        m.push('\n');
                    }
                    m.append(lines[i].as_str());
                    proof {
                        let seen = lines.deep_view().take(i + 1);
                        assert(seen.drop_last() =~= lines.deep_view().take(i as int));
                        assert(seen.last() == lines@[i as int]@);
                        if i > 0 {
                            assert(m@ =~= head + (joined(seen.drop_last(), '\n').push('\n')
                                + seen.last()));
                        }
                    }
                    i += 1;
                }
                proof {
                    assert(lines.deep_view().take(i as int) =~= lines.deep_view());
                }
                m
            },
            PatternError::NoPatterns => "No patterns supplied!".to_string(),
        }
    }
}

/// The text that an element of a list of texts holds.
pub proof fn lemma_text_at(v: &Vec<Vec<char>>, i: int)
    requires
        0 <= i < v.len(),
    ensures
        v.deep_view()[i] == v@[i]@,
{
    assert(v.deep_view()[i] =~= v@[i]@);
}

/// What is written for one more line stands behind what is written for the
/// lines before it.
pub proof fn lemma_rendered_push(
    lines: Seq<Seq<char>>,
    line: Seq<char>,
    prefix: Option<Seq<Seq<char>>>,
    platform: Platform,
)
    ensures
        rendered(lines.push(line), prefix, platform) == rendered(lines, prefix, platform)
            + rewritten(line, prefix, platform) + platform.line_ending(),
{
    let f = |l: Seq<char>| rewritten(l, prefix, platform) + platform.line_ending();
    assert(lines.push(line).map_values(f) =~= lines.map_values(f).push(f(line)));
    lines.map_values(f).lemma_flatten_push(f(line));
    assert(rendered(lines, prefix, platform) + f(line) =~= rendered(lines, prefix, platform)
        + rewritten(line, prefix, platform) + platform.line_ending());
}

/// One more line joins the refused lines exactly if it is refused itself.
pub proof fn lemma_invalid_push(lines: Seq<Seq<char>>, line: Seq<char>)
    ensures
        invalid_lines(lines.push(line)) == if is_invalid(line) {
            invalid_lines(lines).push(line)
        } else {
            invalid_lines(lines)
        },
{
    reveal(Seq::filter);
    assert(lines.push(line).drop_last() =~= lines);
}

/// The lines of one more input text stand behind the lines of the texts
/// before it.
pub proof fn lemma_candidate_push(inputs: Seq<Seq<char>>, input: Seq<char>)
    ensures
        candidate_lines(inputs.push(input)) == candidate_lines(inputs) + lines_of(input),
{
    let f = |s: Seq<char>| lines_of(s);
    assert(inputs.push(input).map_values(f) =~= inputs.map_values(f).push(f(input)));
    inputs.map_values(f).lemma_flatten_push(f(input));
}

/// The refused lines are all the lines that are refused, and no others: each
/// line of `lines` that is refused is among them, and each of them is a line
/// of `lines` that is refused.
pub proof fn lemma_invalid_lines_complete(lines: Seq<Seq<char>>)
    ensures
        forall|i: int|
            0 <= i < lines.len() && is_invalid(#[trigger] lines[i]) ==> invalid_lines(
                lines,
            ).contains(lines[i]),
        forall|k: int|
            0 <= k < invalid_lines(lines).len() ==> is_invalid(#[trigger] invalid_lines(lines)[k])
                && lines.contains(invalid_lines(lines)[k]),
        invalid_lines(lines).len() == 0 <==> forall|i: int|
            0 <= i < lines.len() ==> !is_invalid(#[trigger] lines[i]),
{
    let pred = |line: Seq<char>| is_invalid(line);
    broadcast use vstd::seq_lib::group_filter_ensures;

    assert forall|k: int| 0 <= k < invalid_lines(lines).len() implies is_invalid(
        #[trigger] invalid_lines(lines)[k],
    ) && lines.contains(invalid_lines(lines)[k]) by {
        assert(pred(lines.filter(pred)[k]));
        assert(lines.filter(pred).contains(lines.filter(pred)[k]));
        lines.lemma_filter_contains_rev(pred, lines.filter(pred)[k]);
    }
    if invalid_lines(lines).len() == 0 {
        assert forall|i: int| 0 <= i < lines.len() implies !is_invalid(#[trigger] lines[i]) by {
            if is_invalid(lines[i]) {
                assert(pred(lines[i]));
                assert(lines.filter(pred).contains(lines[i]));
            }
        }
    } else {
        assert(pred(lines.filter(pred)[0]));
        assert(lines.filter(pred).contains(lines.filter(pred)[0]));
        lines.lemma_filter_contains_rev(pred, lines.filter(pred)[0]);
    }
}

/// What is written for a pattern under a prefix keeps the modifier prefix of
/// the pattern, and behind it holds a path that reads as the names of the
/// prefix and then the names of the path of the pattern: with the prefix taken
/// off again, the path names the same file as before.
///
/// This holds where each name of the prefix is a name without a delimiter, and
/// where the rewritten path does not start with what reads as a drive.
pub proof fn lemma_pattern_round_trip(line: Seq<char>, prefix: Seq<Seq<char>>, platform: Platform)
    requires
        !passes_through(line),
        has_path(line),
        forall|k: int| 0 <= k < prefix.len() ==> is_plain_name(#[trigger] prefix[k], platform),
        drive_len(rewritten_path(path_of(line), prefix, platform), platform) == 0,
    ensures
        ({
            let written = rewritten(line, Some(prefix), platform);
            let path = written.skip(modifier_of(line).len() as int);
            &&& written == modifier_of(line) + path
            &&& path_names(path, platform) == prefix + path_names(path_of(line), platform)
            &&& path_names(path, platform).skip(prefix.len() as int) == path_names(
                path_of(line),
                platform,
            )
        }),
{
    let path = rewritten_path(path_of(line), prefix, platform);
    lemma_rewrite_round_trip(path_of(line), prefix, platform);
    assert((modifier_of(line) + path).skip(modifier_of(line).len() as int) =~= path);
}

/// Tests whether a line is copied as it is.
pub fn is_verbatim(line: &[char]) -> (r: bool)
    ensures
        r == passes_through(line@),
{
    let r = line.len() == 0 || (line.len() >= 2 && line[0] == '/' && line[1] == '/');
    proof {
        if line.len() >= 2 {
            let head = line@.subrange(0, 2);
            if line[0] == '/' && line[1] == '/' {
                assert(head =~= comment_mark());
            } else {
                assert(head[0] == line@[0] && head[1] == line@[1]);
            }
        }
    }
    r
}

/// Handles one line, taken as it stands: a refused line joins `bad`, and for
/// any other line what is written for it joins `out`.
pub fn process_line(
    line: &[char],
    prefix: &Option<Vec<Vec<char>>>,
    platform: Platform,
    out: &mut Vec<char>,
    bad: &mut Vec<String>,
)
    ensures
        is_invalid(line@) ==> final(out)@ == old(out)@ && final(bad).deep_view() == old(
            bad,
        ).deep_view().push(line@),
        !is_invalid(line@) ==> final(bad).deep_view() == old(bad).deep_view() && final(out)@
            == old(out)@ + rewritten(line@, prefix.deep_view(), platform)
            + platform.line_ending(),
{
    if is_verbatim(line) {
        extend_chars(out, line);
        platform.end_line(out);
        return ;
    }
    let (m, p): (usize, usize) = scan_pattern(line);
    if p == line.len() {
        let ghost before = bad.deep_view();
        bad.push(string_of(line));
        proof {
            assert(bad.deep_view() =~= before.push(line@));
        }
        return ;
    }
    extend_chars(out, slice_subrange(line, 0, m));
    let path = slice_subrange(line, p, line.len());
    proof {
        assert(path@ =~= path_of(line@));
    }
    match prefix {
        None => {
            extend_chars(out, path);
        },
        Some(names) => {
            push_rewritten(out, path, names, platform);
        },
    }
    let ghost body = out@;
    platform.end_line(out);
    proof {
        assert(body =~= old(out)@ + rewritten(line@, prefix.deep_view(), platform));
    }
}

/// Whether `r` is what the rewriting of `inputs` gives: an error that names
/// the refused lines, all of them and in order, if there is one; else an error
/// if what is written holds nothing but whitespace; else what is written.
pub open spec fn is_rewriting_of(
    r: Result<String, PatternError>,
    inputs: Seq<Seq<char>>,
    prefix: Option<Seq<Seq<char>>>,
    platform: Platform,
) -> bool {
    let lines = candidate_lines(inputs);
    let text = rendered(lines, prefix, platform);
    match r {
        Ok(s) => invalid_lines(lines).len() == 0 && !is_blank(text) && s@ == text,
        Err(PatternError::Invalid(bad)) => bad.deep_view() == invalid_lines(lines) && bad.len()
            > 0,
        Err(PatternError::NoPatterns) => invalid_lines(lines).len() == 0 && is_blank(text),
    }
}

/// Rewrites the patterns that the user typed into the text to append.
///
/// Each input text is cut at its line feeds, and each piece is taken without
/// the whitespace at its two ends. An empty line and a comment are copied. Any
/// other line must have a path behind its modifier prefix; the prefix is kept,
/// and the path is kept too or, where `prepend_prefix` names the way from the
/// root of the folder to the working directory, rewritten to lie below it.
/// Every line that is written is followed by the platform's end of a line.
///
/// The result is an error naming every refused line if there is one; else an
/// error if the text holds nothing but whitespace; else the text.
pub fn process_patterns(
    patterns: &Vec<String>,
    prepend_prefix: Option<&Vec<String>>,
    platform: Platform,
) -> (r: Result<String, PatternError>)
    ensures
        is_rewriting_of(r, patterns.deep_view(), prepend_prefix.deep_view(), platform),
        forall|i: int|
            #![trigger candidate_lines(patterns.deep_view())[i]]
            0 <= i < candidate_lines(patterns.deep_view()).len() && is_invalid(
                candidate_lines(patterns.deep_view())[i],
            ) ==> (r matches Err(PatternError::Invalid(bad)) && bad.deep_view().contains(
                candidate_lines(patterns.deep_view())[i],
            )),
{
    let prefix: Option<Vec<Vec<char>>> = match prepend_prefix {
        None => None,
        Some(names) => {
            let mut texts: Vec<Vec<char>> = Vec::new();
            let mut k: usize = 0;
            while k < names.len()
                invariant
                    k <= names.len(),
                    texts.deep_view() == names.deep_view().take(k as int),
                decreases names.len() - k,
            {
                let ghost before = texts.deep_view();
                texts.push(chars_of(names[k].as_str()));
                proof {
                    assert(texts.deep_view() =~~= before.push(names@[k as int]@));
                    assert(names.deep_view().take(k + 1) =~~= before.push(names@[k as int]@));
                }
                k += 1;
            }
            proof {
                assert(names.deep_view().take(k as int) =~= names.deep_view());
            }
            Some(texts)
        },
    };
    assert(prefix.deep_view() == prepend_prefix.deep_view());
    let mut out: Vec<char> = Vec::new();
    let mut bad: Vec<String> = Vec::new();
    let ghost mut seen: Seq<Seq<char>> = Seq::empty();
    let mut i: usize = 0;
    proof {
        assert(patterns.deep_view().take(0) =~= Seq::empty());
        assert(bad.deep_view() =~= Seq::empty());
        reveal(Seq::filter);
        assert(rendered(seen, prefix.deep_view(), platform) =~= Seq::empty());
    }
    while i < patterns.len()
        invariant
            i <= patterns.len(),
            seen == candidate_lines(patterns.deep_view().take(i as int)),
            bad.deep_view() == invalid_lines(seen),
            bad.len() == 0 ==> out@ == rendered(seen, prefix.deep_view(), platform),
        decreases patterns.len() - i,
    {
        let input = chars_of(patterns[i].as_str());
        let raw = split(input.as_slice(), Delimiter::LineFeed);
        let ghost done = seen;
        let mut j: usize = 0;
        proof {
            assert(lines_of(input@).take(0) =~= Seq::empty());
            assert(seen =~= done + lines_of(input@).take(0));
        }
        while j < raw.len()
            invariant
                j <= raw.len(),
                raw.deep_view() == pieces(input@, Delimiter::LineFeed),
                seen == done + lines_of(input@).take(j as int),
                bad.deep_view() == invalid_lines(seen),
                bad.len() == 0 ==> out@ == rendered(seen, prefix.deep_view(), platform),
            decreases raw.len() - j,
        {
            let piece = raw[j].as_slice();
            let (a, b): (usize, usize) = trim_bounds(piece);
            let line = slice_subrange(piece, a, b);
            proof {
                lemma_text_at(&raw, j as int);
                assert(line@ == lines_of(input@)[j as int]);
                assert(lines_of(input@).take(j + 1) =~= lines_of(input@).take(j as int).push(
                    line@,
                ));
                lemma_invalid_push(seen, line@);
                lemma_rendered_push(seen, line@, prefix.deep_view(), platform);
            }
            let ghost count = bad.deep_view().len();
            process_line(line, &prefix, platform, &mut out, &mut bad);
            proof {
                assert(bad.deep_view().len() == if is_invalid(line@) {
                    count + 1
                } else {
                    count
                });
                assert(done + lines_of(input@).take(j + 1) =~= seen.push(line@));
                seen = seen.push(line@);
            }
            j += 1;
        }
        proof {
            assert(lines_of(input@).take(j as int) =~= lines_of(input@));
            assert(patterns.deep_view().take(i + 1) =~= patterns.deep_view().take(i as int).push(
                input@,
            ));
            lemma_candidate_push(patterns.deep_view().take(i as int), input@);
        }
        i += 1;
    }
    proof {
        assert(patterns.deep_view().take(i as int) =~= patterns.deep_view());
        lemma_invalid_lines_complete(seen);
    }
    if bad.len() > 0 {
        return Err(PatternError::Invalid(bad));
    }
    if all_whitespace(out.as_slice()) {
        Err(PatternError::NoPatterns)
    } else {
        Ok(string_of(out.as_slice()))
    }
}

} // verus!
