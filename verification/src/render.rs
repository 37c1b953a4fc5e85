//! What a render job settles before any tile is made: its zoom levels, the
//! encoding that fits the band, and the metadata of the tile set.

use crate::text::{decimal_u8, parse_u8};
use crate::tileid::MAX_ZOOM;
use vstd::prelude::*;
use vstd::string::{StringExecFns, StringSliceAdditionalSpecFns};

verus! {

/// The sample type of a raster band.
#[derive(Debug, Clone, Copy, PartialEq, Eq, Structural)]
pub enum BandType {
    /// Unsigned, 8 bits.
    UInt8,
    /// Unsigned, 32 bits.
    UInt32,
    /// Any other type.
    Other,
}

/// How the tiles of a job are encoded.
#[derive(Debug, Clone, Copy, PartialEq, Eq, Structural)]
pub enum Encoding {
    /// 8-bit samples as greys.
    Grayscale,
    /// 8-bit samples through a colormap that the user gave.
    Colormap,
    /// 32-bit samples as packed colours: a palette image where a tile has
    /// few colours, an RGB image where it has many.
    Rgb,
}

/// Why a job cannot start.
#[derive(Debug, Clone, Copy, PartialEq, Eq, Structural)]
pub enum ConfigError {
    /// The smallest zoom level is above the largest.
    ZoomOrder,
    /// A colormap was given for a band that is not of 8-bit samples.
    ColormapNeedsUInt8,
    /// The band's sample type cannot be encoded.
    UnsupportedDataType,
}

/// Why a zoom level could not be read.
#[derive(Debug, Clone, Copy, PartialEq, Eq, Structural)]
pub enum ZoomError {
    /// The text is no byte written in decimal.
    NotANumber,
    /// The number is above `MAX_ZOOM`.
    TooLarge,
}

/// The zoom level that `text` writes.
pub open spec fn zoom_of(text: Seq<u8>) -> Result<u8, ZoomError> {
    match decimal_u8(text) {
        None => Err(ZoomError::NotANumber),
        Some(zoom) => if zoom > MAX_ZOOM {
            Err(ZoomError::TooLarge)
        } else {
            Ok(zoom)
        },
    }
}

/// Reads a zoom level: a number from 0 to `MAX_ZOOM`, written in decimal.
pub fn parse_zoom(s: &str) -> (r: Result<u8, ZoomError>)
    ensures
        r == zoom_of(s.spec_bytes()),
{
    match parse_u8(s.as_bytes()) {
        None => Err(ZoomError::NotANumber),
        Some(zoom) => if zoom > MAX_ZOOM {
            Err(ZoomError::TooLarge)
        } else {
            Ok(zoom)
        },
    }
}

/// The encoding for a band of type `dtype`, with or without a colormap.
pub open spec fn encoding_of(dtype: BandType, has_colormap: bool) -> Result<Encoding, ConfigError> {
    if has_colormap && dtype != BandType::UInt8 {
        Err(ConfigError::ColormapNeedsUInt8)
    } else {
        match dtype {
            BandType::UInt8 => if has_colormap {
                Ok(Encoding::Colormap)
            } else {
                Ok(Encoding::Grayscale)
            },
            BandType::UInt32 => Ok(Encoding::Rgb),
            BandType::Other => Err(ConfigError::UnsupportedDataType),
        }
    }
}

/// Chooses the encoding for a band, or says why there is none.
pub fn select_encoding(dtype: BandType, has_colormap: bool) -> (r: Result<Encoding, ConfigError>)
    ensures
        r == encoding_of(dtype, has_colormap),
{
    match dtype {
        BandType::UInt8 => if has_colormap {
            Ok(Encoding::Colormap)
        } else {
            Ok(Encoding::Grayscale)
        },
        BandType::UInt32 => if has_colormap {
            Err(ConfigError::ColormapNeedsUInt8)
        } else {
            Ok(Encoding::Rgb)
        },
        BandType::Other => if has_colormap {
            Err(ConfigError::ColormapNeedsUInt8)
        } else {
            Err(ConfigError::UnsupportedDataType)
        },
    }
}

/// Checks a job before it starts: the zoom levels must be in order, and the
/// band must have an encoding.
pub fn validate(minzoom: u8, maxzoom: u8, dtype: BandType, has_colormap: bool) -> (r: Result<
    Encoding,
    ConfigError,
>)
    ensures
        r == if minzoom > maxzoom {
            Err::<Encoding, ConfigError>(ConfigError::ZoomOrder)
        } else {
            encoding_of(dtype, has_colormap)
        },
{
    if minzoom > maxzoom {
        return Err(ConfigError::ZoomOrder);
    }
    select_encoding(dtype, has_colormap)
}

/// The character of the digit `d`.
pub open spec fn digit_char(d: int) -> char {
    if d == 0 {
        '0'
    } else if d == 1 {
        '1'
    } else if d == 2 {
        '2'
    } else if d == 3 {
        '3'
    } else if d == 4 {
        '4'
    } else if d == 5 {
        '5'
    } else if d == 6 {
        '6'
    } else if d == 7 {
        '7'
    } else if d == 8 {
        '8'
    } else {
        '9'
    }
}

/// `n` written in decimal, without leading zeros.
pub open spec fn decimal_text(n: u8) -> Seq<char> {
    if n < 10 {
        seq![digit_char(n as int)]
    } else if n < 100 {
        seq![digit_char(n as int / 10), digit_char(n as int % 10)]
    } else {
        seq![digit_char(n as int / 100), digit_char((n as int / 10) % 10), digit_char(n as int % 10)]
    }
}

/// The digit `d` as text.
fn digit_str(d: u8) -> (s: &'static str)
    requires
        d < 10,
    ensures
        s@ == seq![digit_char(d as int)],
{
    proof {
        reveal_strlit("0");
        reveal_strlit("1");
        reveal_strlit("2");
        reveal_strlit("3");
        reveal_strlit("4");
        reveal_strlit("5");
        reveal_strlit("6");
        reveal_strlit("7");
        reveal_strlit("8");
        reveal_strlit("9");
    }
    let s = if d == 0 {
        "0"
    } else if d == 1 {
        "1"
    } else if d == 2 {
        "2"
    } else if d == 3 {
        "3"
    } else if d == 4 {
        "4"
    } else if d == 5 {
        "5"
    } else if d == 6 {
        "6"
    } else if d == 7 {
        "7"
    } else if d == 8 {
        "8"
    } else {
        "9"
    };
    assert(s@ =~= seq![digit_char(d as int)]);
    s
}

/// Writes `n` in decimal.
pub fn format_u8(n: u8) -> (s: String)
    ensures
        s@ == decimal_text(n),
{
    let mut s = String::new();
    if n >= 100 {
        s.append(digit_str(n / 100));
    }
    if n >= 10 {
        s.append(digit_str((n / 10) % 10));
    }
    s.append(digit_str(n % 10));
    assert(s@ =~= decimal_text(n));
    s
}

/// One entry of the metadata: a name and a value.
pub type Entry = (Seq<char>, Seq<char>);

/// The entry `name` with `value`, if there is one.
pub open spec fn optional_entry(name: Seq<char>, value: Option<Seq<char>>) -> Seq<Entry> {
    match value {
        Some(v) => seq![(name, v)],
        None => Seq::empty(),
    }
}

/// The metadata of a tile set, in the order in which it is stored: the name,
/// the description and the attribution where there are any, the zoom
/// levels, the bounds, the centre, which is `center_xy` and the smallest
/// zoom level, and the kind, the format and the version of the tile set.
pub open spec fn metadata_of(
    name: Seq<char>,
    description: Option<Seq<char>>,
    attribution: Option<Seq<char>>,
    minzoom: u8,
    maxzoom: u8,
    bounds: Seq<char>,
    center_xy: Seq<char>,
) -> Seq<Entry> {
    seq![("name"@, name)] + optional_entry("description"@, description) + optional_entry(
        "attribution"@,
        attribution,
    ) + seq![
        ("minzoom"@, decimal_text(minzoom)),
        ("maxzoom"@, decimal_text(maxzoom)),
        ("bounds"@, bounds),
        ("center"@, center_xy + ","@ + decimal_text(minzoom)),
        ("type"@, "overlay"@),
        ("format"@, "png"@),
        ("version"@, "1.0.0"@),
    ]
}

/// The names and values of `entries` as sequences of characters.
pub open spec fn entries_view(entries: Seq<(String, String)>) -> Seq<Entry> {
    Seq::new(entries.len(), |i: int| (entries[i].0@, entries[i].1@))
}

/// The view of an optional text.
pub open spec fn optional_view(text: Option<&str>) -> Option<Seq<char>> {
    match text {
        Some(t) => Some(t@),
        None => None,
    }
}

/// Adds the entry `name` with `value` to `entries`.
fn push_entry(entries: &mut Vec<(String, String)>, name: &str, value: String)
    ensures
        entries_view(final(entries)@) == entries_view(old(entries)@) + seq![(name@, value@)],
{
    let ghost before = entries@;
    entries.push((String::from_str(name), value));
    assert(entries_view(entries@) =~= entries_view(before) + seq![(name@, value@)]);
}

/// The metadata of a tile set. `name` is the name that the user gave, and
/// `file_stem` the name that stands in for it; `bounds` is the extent as
/// text, and `center_xy` its midpoint as text.
pub fn metadata(
    name: Option<&str>,
    file_stem: &str,
    description: Option<&str>,
    attribution: Option<&str>,
    minzoom: u8,
    maxzoom: u8,
    bounds: &str,
    center_xy: &str,
) -> (entries: Vec<(String, String)>)
    ensures
        entries_view(entries@) == metadata_of(
            match name {
                Some(n) => n@,
                None => file_stem@,
            },
            optional_view(description),
            optional_view(attribution),
            minzoom,
            maxzoom,
            bounds@,
            center_xy@,
        ),
{
    let mut entries: Vec<(String, String)> = Vec::new();
    assert(entries_view(entries@) =~= Seq::<Entry>::empty());
    let name = match name {
        Some(n) => n,
        None => file_stem,
    };
    push_entry(&mut entries, "name", String::from_str(name));
    match description {
        Some(d) => {
            push_entry(&mut entries, "description", String::from_str(d));
        },
        None => {},
    }
    match attribution {
        Some(a) => {
            push_entry(&mut entries, "attribution", String::from_str(a));
        },
        None => {},
    }
    push_entry(&mut entries, "minzoom", format_u8(minzoom));
    push_entry(&mut entries, "maxzoom", format_u8(maxzoom));
    push_entry(&mut entries, "bounds", String::from_str(bounds));
    let mut center = String::from_str(center_xy);
    center.append(",");
    center.append(format_u8(minzoom).as_str());
    push_entry(&mut entries, "center", center);
    push_entry(&mut entries, "type", String::from_str("overlay"));
    push_entry(&mut entries, "format", String::from_str("png"));
    push_entry(&mut entries, "version", String::from_str("1.0.0"));
    assert(entries_view(entries@) =~= metadata_of(
        name@,
        optional_view(description),
        optional_view(attribution),
        minzoom,
        maxzoom,
        bounds@,
        center_xy@,
    ));
    entries
}

} // verus!
