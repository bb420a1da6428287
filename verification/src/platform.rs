//! The conventions that differ between the platform families: how a line ends
//! and how the names of a path are set apart.

use crate::text::Delimiter;
use vstd::prelude::*;

verus! {

/// The platform family whose conventions the written text follows. It is fixed
/// for a run, and the rewriting of patterns and the appending to a file are
/// both given the same one.
#[derive(Clone, Copy, Debug)]
pub enum Platform {
    /// A line ends with a line feed; the names of a path are set apart by `/`.
    Unix,
    /// A line ends with a carriage return and a line feed; the names of a path
    /// are set apart by `\`, and `/` is read as `\`.
    Windows,
}

impl Platform {
    /// The characters that end a line.
    pub open spec fn line_ending(self) -> Seq<char> {
        match self {
            Platform::Unix => seq!['\n'],
            Platform::Windows => seq!['\r', '\n'],
        }
    }

    /// The bytes that end a line.
    pub open spec fn line_ending_bytes(self) -> Seq<u8> {
        match self {
            Platform::Unix => seq![0x0Au8],
            Platform::Windows => seq![0x0Du8, 0x0Au8],
        }
    }

    /// The character written between two names of a path.
    pub open spec fn separator(self) -> char {
        match self {
            Platform::Unix => '/',
            Platform::Windows => '\\',
        }
    }

    /// The characters read as setting two names of a path apart.
    pub open spec fn delimiter(self) -> Delimiter {
        match self {
            Platform::Unix => Delimiter::Slash,
            Platform::Windows => Delimiter::AnySlash,
        }
    }

    /// Whether a path may start with a drive: a letter and a colon.
    pub open spec fn has_drives(self) -> bool {
        self is Windows
    }

    /// The character written between two names of a path.
    pub fn path_separator(self) -> (c: char)
        ensures
            c == self.separator(),
            self.delimiter().cuts(c),
    {
        match self {
            Platform::Unix => '/',
            Platform::Windows => '\\',
        }
    }

    /// The characters read as setting two names of a path apart.
    pub fn path_delimiter(self) -> (d: Delimiter)
        ensures
            d == self.delimiter(),
    {
        match self {
            Platform::Unix => Delimiter::Slash,
            Platform::Windows => Delimiter::AnySlash,
        }
    }

    /// Appends the end of a line to `out`.
    pub fn end_line(self, out: &mut Vec<char>)
        ensures
            final(out)@ == old(out)@ + self.line_ending(),
    {
        match self {
            Platform::Unix => {
                out.push('\n');
            },
            Platform::Windows => {
                out.push('\r');
                out.push('\n');
            },
        }
        proof {
            assert(out@ =~= old(out)@ + self.line_ending());
        }
    }
}

} // verus!
