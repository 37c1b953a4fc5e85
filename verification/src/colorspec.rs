//! The textual colormap: `value:#rrggbb` entries separated by commas.

use crate::hexcode::{hex_bytes, hex_decode};
use crate::text::{decimal_u8, find_sep, lemma_next_sep, next_sep, parse_u8, part};
use vstd::prelude::*;

verus! {

/// Why a colour or a colormap could not be read.
#[derive(Debug, Clone, Copy, PartialEq, Eq, Structural)]
pub enum ColormapError {
    /// The value of an entry is no byte written in decimal.
    InvalidValue,
    /// An entry has no `:` and so no colour.
    MissingColor,
    /// A colour is not seven bytes long.
    UnsupportedHexFormat,
    /// A colour's six digits are not all hexadecimal.
    InvalidHex,
    /// The colormap has more entries than a palette has room for.
    TooManyColors,
}

/// A colour as its red, green and blue parts.
pub type Rgb = (u8, u8, u8);

/// The byte `,`, which separates entries.
pub const COMMA: u8 = 0x2c;

/// The byte `:`, which separates the parts of an entry.
pub const COLON: u8 = 0x3a;

/// The colour that `text` writes: one leading byte, by custom `#`, then six
/// hexadecimal digits.
pub open spec fn hex_color(text: Seq<u8>) -> Result<Rgb, ColormapError> {
    if text.len() != 7 {
        Err(ColormapError::UnsupportedHexFormat)
    } else {
        match hex_bytes(text.subrange(1, 7)) {
            Some(b) => Ok((b[0], b[1], b[2])),
            None => Err(ColormapError::InvalidHex),
        }
    }
}

/// Reads a colour.
pub fn parse_hex_color(text: &[u8]) -> (r: Result<Rgb, ColormapError>)
    ensures
        r == hex_color(text@),
{
    if text.len() != 7 {
        return Err(ColormapError::UnsupportedHexFormat);
    }
    match hex_decode(part(text, 1, 7)) {
        Ok(bytes) => Ok((bytes[0], bytes[1], bytes[2])),
        Err(_) => Err(ColormapError::InvalidHex),
    }
}

/// The value and colour that one entry writes. The value stands before the
/// first `:`, the colour between the first `:` and the second, or the end;
/// what follows a second `:` is not read.
pub open spec fn entry_of(entry: Seq<u8>) -> Result<(u8, Rgb), ColormapError> {
    let c1 = next_sep(entry, COLON, 0);
    match decimal_u8(entry.subrange(0, c1)) {
        None => Err(ColormapError::InvalidValue),
        Some(value) => if c1 >= entry.len() {
            Err(ColormapError::MissingColor)
        } else {
            match hex_color(entry.subrange(c1 + 1, next_sep(entry, COLON, c1 + 1))) {
                Ok(color) => Ok((value, color)),
                Err(e) => Err(e),
            }
        },
    }
}

/// Reads one entry.
pub fn parse_entry(entry: &[u8]) -> (r: Result<(u8, Rgb), ColormapError>)
    ensures
        r == entry_of(entry@),
{
    let c1 = find_sep(entry, COLON, 0);
    let value = match parse_u8(part(entry, 0, c1)) {
        Some(v) => v,
        None => {
            return Err(ColormapError::InvalidValue);
        },
    };
    if c1 >= entry.len() {
        return Err(ColormapError::MissingColor);
    }
    let c2 = find_sep(entry, COLON, c1 + 1);
    match parse_hex_color(part(entry, c1 + 1, c2)) {
        Ok(color) => Ok((value, color)),
        Err(e) => Err(e),
    }
}

/// The entries that `s` writes from position `from` on, in their order, or
/// the error of the first entry that cannot be read.
pub open spec fn entries_from(s: Seq<u8>, from: int) -> Result<Seq<(u8, Rgb)>, ColormapError>
    decreases s.len() - from,
    when 0 <= from <= s.len()
    via entries_from_decreases
{
    let end = next_sep(s, COMMA, from);
    match entry_of(s.subrange(from, end)) {
        Err(e) => Err(e),
        Ok(x) => if end >= s.len() {
            Ok(seq![x])
        } else {
            match entries_from(s, end + 1) {
                Ok(rest) => Ok(seq![x] + rest),
                Err(e) => Err(e),
            }
        },
    }
}

#[via_fn]
proof fn entries_from_decreases(s: Seq<u8>, from: int) {
    lemma_next_sep(s, COMMA, from);
}

/// The entries of the colormap that `s` writes. The empty text is one empty
/// entry, and so an error.
pub open spec fn entries_of(s: Seq<u8>) -> Result<Seq<(u8, Rgb)>, ColormapError> {
    entries_from(s, 0)
}

/// `found` in front of what `rest` gives.
pub open spec fn prepended(
    found: Seq<(u8, Rgb)>,
    rest: Result<Seq<(u8, Rgb)>, ColormapError>,
) -> Result<Seq<(u8, Rgb)>, ColormapError> {
    match rest {
        Ok(more) => Ok(found + more),
        Err(e) => Err(e),
    }
}

/// Reads a colormap.
pub fn parse_entries(bytes: &[u8]) -> (r: Result<Vec<(u8, Rgb)>, ColormapError>)
    ensures
        match r {
            Ok(entries) => entries_of(bytes@) == Ok::<Seq<(u8, Rgb)>, ColormapError>(entries@),
            Err(e) => entries_of(bytes@) == Err::<Seq<(u8, Rgb)>, ColormapError>(e),
        },
{
    let n = bytes.len();
    let mut entries: Vec<(u8, Rgb)> = Vec::new();
    let mut start: usize = 0;
    proof {
        assert(prepended(entries@, entries_from(bytes@, 0)) == entries_from(bytes@, 0)) by {
            if let Ok(more) = entries_from(bytes@, 0) {
                assert(entries@ + more =~= more);
            }
        }
    }
    loop
        invariant
            n == bytes@.len(),
            start <= n,
            entries_of(bytes@) == prepended(entries@, entries_from(bytes@, start as int)),
        decreases n - start,
    {
        let end = find_sep(bytes, COMMA, start);
        let ghost found = entries@;
        match parse_entry(part(bytes, start, end)) {
            Ok(x) => {
                entries.push(x);
            },
            Err(e) => {
                return Err(e);
            },
        }
        if end >= n {
            proof {
                assert(found + seq![entries@.last()] =~= entries@);
            }
            return Ok(entries);
        }
        proof {
            if let Ok(rest) = entries_from(bytes@, end + 1) {
                assert(found + (seq![entries@.last()] + rest) =~= entries@ + rest);
            }
        }
        start = end + 1;
    }
}

} // verus!
