//! A fixed colormap whose last palette slot is transparent and stands for
//! every value that the map does not name.

use crate::colorspec::{entries_of, hex_color, parse_entries, parse_hex_color, ColormapError, Rgb};
use std::collections::HashMap;
use vstd::prelude::*;
use vstd::string::StringSliceAdditionalSpecFns;

verus! {

/// A colour of three 8-bit channels.
#[derive(Debug, Clone, Copy, PartialEq, Eq, Structural)]
pub struct Color {
    pub r: u8,
    pub g: u8,
    pub b: u8,
}

impl Color {
    /// The colour of the three parts `c`.
    pub open spec fn of_parts(c: Rgb) -> Color {
        Color { r: c.0, g: c.1, b: c.2 }
    }

    /// Reads a colour written as one leading character and six hexadecimal
    /// digits, such as `#FF00FF`.
    pub fn from_hex(hex_str: &str) -> (r: Result<Color, ColormapError>)
        ensures
            r == match hex_color(hex_str.spec_bytes()) {
                Ok(c) => Ok::<Color, ColormapError>(Color::of_parts(c)),
                Err(e) => Err::<Color, ColormapError>(e),
            },
    {
        match parse_hex_color(hex_str.as_bytes()) {
            Ok(c) => Ok(Color { r: c.0, g: c.1, b: c.2 }),
            Err(e) => Err(e),
        }
    }
}

/// The most entries a colormap can have: with the transparent slot behind
/// them they fill a palette of 256.
pub const MAX_ENTRIES: usize = 255;

/// The index of each value that `entries` name: the position of its entry,
/// the last one where a value is named more than once.
pub open spec fn indices_of(entries: Seq<(u8, Rgb)>) -> Map<u8, u8>
    decreases entries.len(),
{
    if entries.len() == 0 {
        Map::empty()
    } else {
        indices_of(entries.drop_last()).insert(entries.last().0, (entries.len() - 1) as u8)
    }
}

/// The colours of `entries` in order, three bytes each.
pub open spec fn colors_of(entries: Seq<(u8, Rgb)>) -> Seq<u8>
    decreases entries.len(),
{
    if entries.len() == 0 {
        Seq::empty()
    } else {
        colors_of(entries.drop_last()) + seq![
            entries.last().1.0,
            entries.last().1.1,
            entries.last().1.2,
        ]
    }
}

/// A colormap as a mathematical value.
pub struct ColormapView {
    /// The index of each value that the colormap names.
    pub indices: Map<u8, u8>,
    /// The palette, three bytes a colour: the colours of the entries, then
    /// black for the transparent slot.
    pub colors: Seq<u8>,
    /// The alpha of each palette slot: opaque for the entries, 0 for the
    /// last slot.
    pub transparency: Seq<u8>,
}

impl ColormapView {
    /// The colormap of `entries`.
    pub open spec fn of_entries(entries: Seq<(u8, Rgb)>) -> ColormapView {
        ColormapView {
            indices: indices_of(entries),
            colors: colors_of(entries) + seq![0u8, 0u8, 0u8],
            transparency: Seq::new(entries.len(), |i: int| 255u8) + seq![0u8],
        }
    }

    /// The index of the transparent slot, the last.
    pub open spec fn transparent_index(self) -> u8 {
        (self.transparency.len() - 1) as u8
    }

    /// The index of `value`: its own where the colormap names it, else the
    /// transparent slot.
    pub open spec fn index_of(self, value: u8) -> u8 {
        if self.indices.contains_key(value) {
            self.indices[value]
        } else {
            self.transparent_index()
        }
    }
}

/// The colormap that the text `s` writes: its entries, unless they cannot be
/// read or are more than `MAX_ENTRIES`.
pub open spec fn colormap_of(s: Seq<u8>) -> Result<ColormapView, ColormapError> {
    match entries_of(s) {
        Err(e) => Err(e),
        Ok(entries) => if entries.len() > MAX_ENTRIES {
            Err(ColormapError::TooManyColors)
        } else {
            Ok(ColormapView::of_entries(entries))
        },
    }
}

/// A colormap read from text.
#[derive(Debug)]
pub struct Colormap {
    values: HashMap<u8, u8>,
    colors: Vec<u8>,
    transparency: Vec<u8>,
}

impl View for Colormap {
    type V = ColormapView;

    closed spec fn view(&self) -> ColormapView {
        ColormapView {
            indices: self.values@,
            colors: self.colors@,
            transparency: self.transparency@,
        }
    }
}

impl Colormap {
    /// Whether the colormap is one that `new` can have built: between 1 and
    /// 256 palette slots, three colour bytes for each.
    pub open spec fn wf(&self) -> bool {
        &&& 1 <= self@.transparency.len() <= MAX_ENTRIES + 1
        &&& self@.colors.len() == 3 * self@.transparency.len()
    }

    /// Reads a colormap: entries `value:#rrggbb` separated by commas. The
    /// entries take the palette slots in their order, and one transparent
    /// slot follows them.
    pub fn new(colormap: &str) -> (r: Result<Colormap, ColormapError>)
        ensures
            match r {
                Ok(c) => c.wf() && colormap_of(colormap.spec_bytes()) == Ok::<
                    ColormapView,
                    ColormapError,
                >(c@),
                Err(e) => colormap_of(colormap.spec_bytes()) == Err::<ColormapView, ColormapError>(
                    e,
                ),
            },
    {
        broadcast use vstd::std_specs::hash::group_hash_axioms;

        let entries = match parse_entries(colormap.as_bytes()) {
            Ok(entries) => entries,
            Err(e) => {
                return Err(e);
            },
        };
        let n = entries.len();
        if n > MAX_ENTRIES {
            return Err(ColormapError::TooManyColors);
        }
        let mut values: HashMap<u8, u8> = HashMap::new();
        let mut colors: Vec<u8> = Vec::new();
        let mut transparency: Vec<u8> = Vec::new();
        let mut index: usize = 0;
        proof {
            assert(entries@.take(0) =~= Seq::<(u8, Rgb)>::empty());
        }
        while index < n
            invariant
                n == entries@.len(),
                n <= MAX_ENTRIES,
                index <= n,
                values@ == indices_of(entries@.take(index as int)),
                colors@ == colors_of(entries@.take(index as int)),
                transparency@ == Seq::new(index as nat, |i: int| 255u8),
            decreases n - index,
        {
            let (value, color) = entries[index];
            proof {
                assert(entries@.take(index + 1).drop_last() =~= entries@.take(index as int));
            }
            values.insert(value, index as u8);
            colors.push(color.0);
            colors.push(color.1);
            colors.push(color.2);
            transparency.push(255u8);
            proof {
                assert(colors@ =~= colors_of(entries@.take(index as int)) + seq![
                    color.0,
                    color.1,
                    color.2,
                ]);
                assert(transparency@ =~= Seq::new((index + 1) as nat, |i: int| 255u8));
            }
            index += 1;
        }
        proof {
            assert(entries@.take(n as int) =~= entries@);
            lemma_colors_len(entries@);
        }
        let ghost body = colors@;
        let ghost opaque = transparency@;
        colors.push(0u8);
        colors.push(0u8);
        colors.push(0u8);
        transparency.push(0u8);
        proof {
            assert(colors@ =~= body + seq![0u8, 0u8, 0u8]);
            assert(transparency@ =~= opaque + seq![0u8]);
        }
        Ok(Colormap { values, colors, transparency })
    }

    /// The index of `value`: its own where the colormap names it, else that
    /// of the transparent slot.
    pub fn get_index(&self, value: &u8) -> (index: u8)
        requires
            self.wf(),
        ensures
            index == self@.index_of(*value),
    {
        broadcast use vstd::std_specs::hash::group_hash_axioms;

        match self.values.get(value) {
            Some(v) => *v,
            None => (self.transparency.len() - 1) as u8,
        }
    }

    /// The palette, three bytes a colour.
    pub fn get_colors(&self) -> (colors: &Vec<u8>)
        ensures
            colors@ == self@.colors,
    {
        &self.colors
    }

    /// The alpha of each palette slot.
    pub fn get_transparency(&self) -> (transparency: &Vec<u8>)
        ensures
            transparency@ == self@.transparency,
    {
        &self.transparency
    }
}

/// Every index that `entries` give lies below their number.
pub proof fn lemma_indices_in_range(entries: Seq<(u8, Rgb)>, value: u8)
    requires
        entries.len() <= MAX_ENTRIES,
        indices_of(entries).contains_key(value),
    ensures
        indices_of(entries)[value] < entries.len(),
    decreases entries.len(),
{
    if entries.len() > 0 && entries.last().0 != value {
        lemma_indices_in_range(entries.drop_last(), value);
    }
}

/// A value that the colormap names is opaque, and any other value is
/// transparent.
pub proof fn lemma_unnamed_is_transparent(entries: Seq<(u8, Rgb)>, value: u8)
    requires
        entries.len() <= MAX_ENTRIES,
    ensures
        ({
            let colormap = ColormapView::of_entries(entries);
            let alpha = colormap.transparency[colormap.index_of(value) as int];
            if colormap.indices.contains_key(value) {
                alpha == 255
            } else {
                alpha == 0
            }
        }),
{
    if indices_of(entries).contains_key(value) {
        lemma_indices_in_range(entries, value);
    }
}

/// Three colour bytes for every entry.
pub proof fn lemma_colors_len(entries: Seq<(u8, Rgb)>)
    ensures
        colors_of(entries).len() == 3 * entries.len(),
    decreases entries.len(),
{
    if entries.len() > 0 {
        lemma_colors_len(entries.drop_last());
    }
}

} // verus!
