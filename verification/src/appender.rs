//! Appending text to a pattern file so that it starts on a line of its own.
//!
//! A file is seen as its bytes. Before the new text the end of a line is
//! written, unless the file is empty or ends with one already. Only the length
//! of the file and its last bytes are needed to tell.

use crate::platform::Platform;
use vstd::prelude::*;
use vstd::slice::slice_subrange;
use vstd::string::StringSliceAdditionalSpecFns;

verus! {

/// Whether `file` ends with the bytes `ending`.
pub open spec fn ends_with(file: Seq<u8>, ending: Seq<u8>) -> bool {
    file.len() >= ending.len() && file.skip(file.len() - ending.len()) == ending
}

/// Whether the end of a line has to be written before text that is appended
/// to `file`: it has to unless the file is empty or ends with one.
pub open spec fn needs_break(file: Seq<u8>, platform: Platform) -> bool {
    file.len() > 0 && !ends_with(file, platform.line_ending_bytes())
}

/// What is written to `file` when `text` is appended to it.
pub open spec fn written(file: Seq<u8>, text: Seq<u8>, platform: Platform) -> Seq<u8> {
    if needs_break(file, platform) {
        platform.line_ending_bytes() + text
    } else {
        text
    }
}

/// The file after `text` has been appended to `file`.
pub open spec fn appended(file: Seq<u8>, text: Seq<u8>, platform: Platform) -> Seq<u8> {
    file + written(file, text, platform)
}

/// The number of bytes at the end of a file of `file_len` bytes that have to
/// be looked at: as many as end a line, or none where the file is shorter than
/// that.
pub open spec fn tail_len(file_len: nat, platform: Platform) -> nat {
    if file_len >= platform.line_ending_bytes().len() {
        platform.line_ending_bytes().len()
    } else {
        0
    }
}

/// The last bytes of `file` that have to be looked at.
pub open spec fn tail_of(file: Seq<u8>, platform: Platform) -> Seq<u8> {
    file.skip(file.len() - tail_len(file.len(), platform))
}

/// Whether the end of a line has to be written before the appended text, told
/// from the length of the file and from its last bytes.
pub open spec fn break_for(file_len: nat, tail: Seq<u8>, platform: Platform) -> bool {
    file_len > 0 && (file_len < platform.line_ending_bytes().len() || tail
        != platform.line_ending_bytes())
}

/// The length of a file and its last bytes tell what the whole file tells.
pub proof fn lemma_break_for(file: Seq<u8>, platform: Platform)
    ensures
        break_for(file.len(), tail_of(file, platform), platform) == needs_break(file, platform),
{
}

/// The number of bytes that end a line.
pub fn line_ending_len(platform: Platform) -> (n: usize)
    ensures
        n == platform.line_ending_bytes().len(),
        1 <= n <= 2,
{
    match platform {
        Platform::Unix => 1,
        Platform::Windows => 2,
    }
}

/// The number of bytes at the end of a file of `file_len` bytes that have to
/// be read before text is appended to it.
pub fn tail_length(file_len: u64, platform: Platform) -> (n: usize)
    ensures
        n == tail_len(file_len as nat, platform),
        n <= file_len,
{
    let e: usize = line_ending_len(platform);
    if file_len >= e as u64 {
        e
    } else {
        0
    }
}

/// Tests whether `tail` is the end of a line.
pub fn is_line_ending(tail: &[u8], platform: Platform) -> (r: bool)
    ensures
        r == (tail@ == platform.line_ending_bytes()),
{
    let r = match platform {
        Platform::Unix => tail.len() == 1 && tail[0] == 0x0A,
        Platform::Windows => tail.len() == 2 && tail[0] == 0x0D && tail[1] == 0x0A,
    };
    proof {
        if r {
            assert(tail@ =~= platform.line_ending_bytes());
        }
    }
    r
}

/// Tells whether the end of a line has to be written before text that is
/// appended to a file of `file_len` bytes whose last bytes are `tail`.
///
/// `tail` holds the last `tail_length(file_len, platform)` bytes of the file.
/// An empty file needs none. A file too short to end with the end of a line
/// needs one. Any other file needs one unless its last bytes are one.
pub fn break_needed(file_len: u64, tail: &[u8], platform: Platform) -> (r: bool)
    ensures
        r == break_for(file_len as nat, tail@, platform),
{
    if file_len == 0 {
        false
    } else if file_len < line_ending_len(platform) as u64 {
        true
    } else {
        !is_line_ending(tail, platform)
    }
}

/// The bytes to write at the end of a file when `text` is appended to it: the
/// end of a line if one is needed, and the text.
pub fn payload(insert_break: bool, text: &str, platform: Platform) -> (bytes: Vec<u8>)
    ensures
        bytes@ == if insert_break {
            platform.line_ending_bytes() + text.spec_bytes()
        } else {
            text.spec_bytes()
        },
{
    let mut bytes: Vec<u8> = Vec::new();
    if insert_break {
        match platform {
            Platform::Unix => {
                bytes.push(0x0A);
            },
            Platform::Windows => {
                bytes.push(0x0D);
                bytes.push(0x0A);
            },
        }
    }
    let ghost head = bytes@;
    let body = text.as_bytes();
    let mut i: usize = 0;
    while i < body.len()
        invariant
            i <= body.len(),
            bytes@ == head + body@.take(i as int),
        decreases body.len() - i,
    {
        bytes.push(body[i]);
        proof {
            assert(body@.take(i + 1) =~= body@.take(i as int).push(body@[i as int]));
        }
        i += 1;
    }
    proof {
        assert(body@.take(i as int) =~= body@);
        if insert_break {
            assert(head =~= platform.line_ending_bytes());
        } else {
            assert(head + body@ =~= body@);
        }
    }
    bytes
}

/// Appends `patterns` to the file whose bytes are `file`, on a line of its
/// own.
pub fn append(file: &mut Vec<u8>, patterns: &str, platform: Platform)
    ensures
        final(file)@ == appended(old(file)@, patterns.spec_bytes(), platform),
{
    let len: usize = file.len();
    let n: usize = tail_length(len as u64, platform);
    let tail = slice_subrange(file.as_slice(), len - n, len);
    proof {
        assert(tail@ =~= tail_of(file@, platform));
        lemma_break_for(file@, platform);
    }
    let insert_break = break_needed(len as u64, tail, platform);
    let mut bytes = payload(insert_break, patterns, platform);
    file.append(&mut bytes);
}

/// Appending to an empty file writes the text and nothing before it.
pub proof fn lemma_append_to_empty(text: Seq<u8>, platform: Platform)
    ensures
        appended(Seq::empty(), text, platform) == text,
{
    assert(Seq::<u8>::empty() + text =~= text);
}

/// Appending to a file that ends with the end of a line writes the text and
/// nothing before it, so that no empty line comes to stand between the two.
pub proof fn lemma_append_after_line_ending(file: Seq<u8>, text: Seq<u8>, platform: Platform)
    requires
        ends_with(file, platform.line_ending_bytes()),
    ensures
        appended(file, text, platform) == file + text,
{
}

/// In the file after appending, the text stands at the end, and it stands at
/// the start of the file or behind the end of a line.
pub proof fn lemma_appended_on_own_line(file: Seq<u8>, text: Seq<u8>, platform: Platform)
    ensures
        ends_with(appended(file, text, platform), text),
        ({
            let before = appended(file, text, platform).take(
                appended(file, text, platform).len() - text.len(),
            );
            before.len() == 0 || ends_with(before, platform.line_ending_bytes())
        }),
        file.is_prefix_of(appended(file, text, platform)),
{
    let all = appended(file, text, platform);
    let e = platform.line_ending_bytes();
    let before = all.take(all.len() - text.len());
    assert(all.skip(all.len() - text.len()) =~= text);
    if needs_break(file, platform) {
        assert(before =~= file + e);
        assert(before.skip(before.len() - e.len()) =~= e);
    } else {
        assert(before =~= file);
    }
}

/// Appending twice never needs the end of a line in between where the first
/// text ends with one, as every rewritten text does.
pub proof fn lemma_append_twice(file: Seq<u8>, first: Seq<u8>, second: Seq<u8>, platform: Platform)
    requires
        ends_with(first, platform.line_ending_bytes()),
    ensures
        appended(appended(file, first, platform), second, platform) == appended(
            file,
            first,
            platform,
        ) + second,
{
    let e = platform.line_ending_bytes();
    let once = appended(file, first, platform);
    assert(once.skip(once.len() - e.len()) =~= first.skip(first.len() - e.len()));
}

} // verus!
