//! Configuration for the TOON encoder: the delimiter between inline values,
//! the indentation width, and the key-folding mode.

use vstd::prelude::*;

verus! {

/// Delimiter used between array elements and tabular row values.
#[derive(Debug, Clone, Copy, PartialEq, Eq, Structural)]
pub enum Delimiter {
    Comma,
    Tab,
    Pipe,
}

/// Key folding mode — collapses single-key object chains into dotted paths.
#[derive(Debug, Clone, Copy, PartialEq, Eq, Structural)]
pub enum KeyFolding {
    Off,
    Safe,
}

/// Options controlling TOON encoding.
pub struct ToonOptions {
    /// Delimiter between array/row values.
    pub delimiter: Delimiter,
    /// Number of spaces per indentation level.
    pub indent: usize,
    /// Key folding mode.
    pub key_folding: KeyFolding,
    /// Maximum number of levels to fold (default: `usize::MAX`).
    pub flatten_depth: usize,
}

/// The character that separates inline array values and tabular row cells.
pub open spec fn delim_char(d: Delimiter) -> char {
    match d {
        Delimiter::Comma => ',',
        Delimiter::Tab => '\t',
        Delimiter::Pipe => '|',
    }
}

/// The symbol shown inside an array header's brackets, announcing a
/// non-default delimiter: empty for comma, the delimiter itself otherwise.
pub open spec fn header_sym(d: Delimiter) -> Seq<char> {
    match d {
        Delimiter::Comma => seq![],
        Delimiter::Tab => seq!['\t'],
        Delimiter::Pipe => seq!['|'],
    }
}

impl Delimiter {
    /// The delimiter as a character.
    pub fn char(self) -> (c: char)
        ensures
            c == delim_char(self),
    {
        match self {
            Delimiter::Comma => ',',
            Delimiter::Tab => '\t',
            Delimiter::Pipe => '|',
        }
    }

    /// The delimiter symbol written inside array headers.
    pub fn header_symbol(self) -> (s: &'static str)
        ensures
            s@ == header_sym(self),
    {
        match self {
            Delimiter::Comma => {
                let s = "";
                proof {
                    reveal_strlit("");
                    assert(s@ =~= header_sym(self));
                }
                s
            },
            Delimiter::Tab => {
                let s = "\t";
                proof {
                    reveal_strlit("\t");
                    assert(s@ =~= header_sym(self));
                }
                s
            },
            Delimiter::Pipe => {
                let s = "|";
                proof {
                    reveal_strlit("|");
                    assert(s@ =~= header_sym(self));
                }
                s
            },
        }
    }
}

impl Default for Delimiter {
    fn default() -> (d: Self)
        ensures
            d == Delimiter::Comma,
    {
        Delimiter::Comma
    }
}

impl Default for KeyFolding {
    fn default() -> (k: Self)
        ensures
            k == KeyFolding::Off,
    {
        KeyFolding::Off
    }
}

impl Default for ToonOptions {
    fn default() -> (o: Self)
        ensures
            o.delimiter == Delimiter::Comma,
            o.indent == 2,
            o.key_folding == KeyFolding::Off,
            o.flatten_depth == usize::MAX,
    {
        ToonOptions {
            delimiter: Delimiter::Comma,
            indent: 2,
            key_folding: KeyFolding::Off,
            flatten_depth: usize::MAX,
        }
    }
}

} // verus!
