//! Colours and the palette that maps sample values to them.

use crate::colorspec::{entries_of, hex_color, parse_entries, parse_hex_color, ColormapError, Rgb};
use crate::png::PixelValue;
use std::collections::BTreeMap;
use vstd::prelude::*;
use vstd::string::StringSliceAdditionalSpecFns;

verus! {

/// A colour of three 8-bit channels.
#[derive(Debug, Clone, Copy, PartialEq, Eq, Structural)]
pub struct Rgb8 {
    pub r: u8,
    pub g: u8,
    pub b: u8,
}

impl Rgb8 {
    /// The colour that the three low bytes of `value` hold: red above green
    /// above blue.
    pub open spec fn of_u32(value: u32) -> Rgb8 {
        Rgb8 {
            r: ((value / 0x1_0000) % 0x100) as u8,
            g: ((value / 0x100) % 0x100) as u8,
            b: (value % 0x100) as u8,
        }
    }

    /// The colour of the three parts `c`.
    pub open spec fn of_parts(c: Rgb) -> Rgb8 {
        Rgb8 { r: c.0, g: c.1, b: c.2 }
    }

    /// Reads a colour written as one leading character and six hexadecimal
    /// digits, such as `#FF00FF`.
    pub fn from_hex(hex_str: &str) -> (r: Result<Rgb8, ColormapError>)
        ensures
            r == match hex_color(hex_str.spec_bytes()) {
                Ok(c) => Ok::<Rgb8, ColormapError>(Rgb8::of_parts(c)),
                Err(e) => Err::<Rgb8, ColormapError>(e),
            },
    {
        match parse_hex_color(hex_str.as_bytes()) {
            Ok(c) => Ok(Rgb8 { r: c.0, g: c.1, b: c.2 }),
            Err(e) => Err(e),
        }
    }

    /// Unpacks the colour that `value` holds in its three low bytes.
    pub fn from_u32(value: u32) -> (c: Rgb8)
        ensures
            c == Rgb8::of_u32(value),
    {
        assert(((value >> 16u32) & 0xFFu32) == (value / 0x1_0000u32) % 0x100u32 && ((value >> 8u32)
            & 0xFFu32) == (value / 0x100u32) % 0x100u32 && (value & 0xFFu32) == value % 0x100u32
            && ((value >> 16u32) & 0xFFu32) < 0x100u32 && ((value >> 8u32) & 0xFFu32) < 0x100u32
            && (value & 0xFFu32) < 0x100u32) by (bit_vector);
        Rgb8 {
            r: ((value >> 16u32) & 0xFF) as u8,
            g: ((value >> 8u32) & 0xFF) as u8,
            b: (value & 0xFF) as u8,
        }
    }
}

/// A palette as a mathematical value: the index of each sample value that
/// has one, and the colours in the order of their indices, three bytes each.
pub struct Palette {
    pub indices: Map<u32, u8>,
    pub colors: Seq<u8>,
}

impl Palette {
    /// The number of colours.
    pub open spec fn len(self) -> nat {
        self.colors.len() / 3
    }

    /// The palette that holds only the colour of "no data", at index 0.
    pub open spec fn fresh(nodata: u32) -> Palette {
        Palette { indices: Map::empty().insert(nodata, 0u8), colors: seq![0u8, 0u8, 0u8] }
    }

    /// The index of `value`; 0, the index of "no data", where it has none.
    pub open spec fn index_of(self, value: u32) -> u8 {
        if self.indices.contains_key(value) {
            self.indices[value]
        } else {
            0
        }
    }

    /// Whether a value without an index still gets one: there is room as
    /// long as the palette holds fewer than `limit` colours.
    pub open spec fn has_room(self, limit: nat) -> bool {
        self.len() < limit
    }

    /// The palette after `value` was offered with `color`: unchanged where
    /// the value has an index already or there is no room; else the value
    /// takes the next index and the colour is appended.
    pub open spec fn with_color(self, value: u32, color: Rgb8, limit: nat) -> Palette {
        if self.indices.contains_key(value) || !self.has_room(limit) {
            self
        } else {
            Palette {
                indices: self.indices.insert(value, self.len() as u8),
                colors: self.colors + seq![color.r, color.g, color.b],
            }
        }
    }

    /// The palette after the entries of `entries` were offered in order.
    pub open spec fn with_entries(self, entries: Seq<(u8, Rgb)>, limit: nat) -> Palette
        decreases entries.len(),
    {
        if entries.len() == 0 {
            self
        } else {
            self.with_entries(entries.drop_last(), limit).with_color(
                entries.last().0 as u32,
                Rgb8::of_parts(entries.last().1),
                limit,
            )
        }
    }

    /// The palette after each sample of `samples` was offered in order, with
    /// the colour that its three low bytes hold.
    pub open spec fn with_samples(self, samples: Seq<u32>, limit: nat) -> Palette
        decreases samples.len(),
    {
        if samples.len() == 0 {
            self
        } else {
            self.with_samples(samples.drop_last(), limit).with_color(
                samples.last(),
                Rgb8::of_u32(samples.last()),
                limit,
            )
        }
    }

    /// Whether every sample of `samples` has an index.
    pub open spec fn holds_all(self, samples: Seq<u32>) -> bool {
        forall|i: int| 0 <= i < samples.len() ==> self.indices.contains_key(#[trigger] samples[i])
    }

    /// What holds of every palette that is built from `fresh` by
    /// `with_color`: "no data" has index 0, the indices are those below the
    /// number of colours, no two values share one, and there are at least
    /// one and at most 256 colours.
    pub open spec fn wf(self, nodata: u32) -> bool {
        &&& self.colors.len() % 3 == 0
        &&& 1 <= self.len() <= 256
        &&& self.indices.contains_key(nodata)
        &&& self.indices[nodata] == 0
        &&& forall|v: u32| self.indices.contains_key(v) ==> (#[trigger] self.indices[v]) < self.len()
        &&& forall|v: u32, w: u32|
            self.indices.contains_key(v) && self.indices.contains_key(w) && #[trigger] self.indices[v]
                == #[trigger] self.indices[w] ==> v == w
    }

    /// `with_color` keeps a palette well formed, as long as the limit is at
    /// most 256.
    pub proof fn lemma_with_color_wf(self, nodata: u32, value: u32, color: Rgb8, limit: nat)
        requires
            self.wf(nodata),
            limit <= 256,
        ensures
            self.with_color(value, color, limit).wf(nodata),
            self.with_color(value, color, limit).len() <= self.len() + 1,
    {
    }
}

/// The sample values of a tile, and that of "no data".
pub open spec fn distinct_values(nodata: u32, samples: Seq<u32>) -> Set<u32> {
    samples.to_set().insert(nodata)
}

/// What holds of the palette of a tile while it is built: it names only
/// values of the tile, as many as it has colours and never more than the
/// limit; it names them all as long as they are no more than the limit, and
/// where it misses one it is full.
proof fn lemma_palette_of_samples(nodata: u32, samples: Seq<u32>, limit: nat)
    requires
        1 <= limit,
    ensures
        ({
            let p = Palette::fresh(nodata).with_samples(samples, limit);
            let named = p.indices.dom();
            let all = distinct_values(nodata, samples);
            &&& all.finite()
            &&& named.finite()
            &&& named.subset_of(all)
            &&& named.contains(nodata)
            &&& p.colors.len() == 3 * p.len()
            &&& p.len() == named.len()
            &&& p.len() <= limit
            &&& all.len() <= limit ==> named =~= all
            &&& !all.subset_of(named) ==> p.len() >= limit && all.len() > limit
        }),
    decreases samples.len(),
{
    broadcast use vstd::seq_lib::seq_to_set_is_finite;

    let p = Palette::fresh(nodata).with_samples(samples, limit);
    let all = distinct_values(nodata, samples);
    if samples.len() == 0 {
        assert(samples.to_set() =~= Set::<u32>::empty());
        assert(p.indices.dom() =~= Set::<u32>::empty().insert(nodata));
        assert(all =~= Set::<u32>::empty().insert(nodata));
    } else {
        let rest = samples.drop_last();
        let v = samples.last();
        let q = Palette::fresh(nodata).with_samples(rest, limit);
        let before = distinct_values(nodata, rest);
        lemma_palette_of_samples(nodata, rest, limit);
        assert(samples =~= rest.push(v));
        rest.lemma_push_to_set_commute(v);
        assert(all =~= before.insert(v));
        let named = q.indices.dom();
        vstd::set::axiom_set_insert_len(before, v);
        if named.contains(v) {
            assert(before.contains(v));
            assert(all =~= before);
        } else if q.has_room(limit) {
            assert(before.subset_of(named));
            assert(named =~= before);
            vstd::set::axiom_set_insert_len(named, v);
            assert(p.indices.dom() =~= named.insert(v));
            assert(p.colors.len() == q.colors.len() + 3);
        } else {
            let more = named.insert(v);
            vstd::set::axiom_set_insert_len(named, v);
            assert(more.subset_of(all));
            vstd::set_lib::lemma_len_subset(more, all);
        }
    }
}

/// The palette of a tile names every value of the tile exactly when the
/// tile's distinct values, "no data" counted among them, are no more than
/// the palette takes.
pub proof fn lemma_holds_all_iff_fits(nodata: u32, samples: Seq<u32>, limit: nat)
    requires
        1 <= limit,
    ensures
        Palette::fresh(nodata).with_samples(samples, limit).holds_all(samples) <==> distinct_values(
            nodata,
            samples,
        ).len() <= limit,
{
    let p = Palette::fresh(nodata).with_samples(samples, limit);
    let named = p.indices.dom();
    let all = distinct_values(nodata, samples);
    lemma_palette_of_samples(nodata, samples, limit);
    if p.holds_all(samples) {
        assert forall|x: u32| all.contains(x) implies named.contains(x) by {
            if x != nodata {
                let i = choose|i: int| 0 <= i < samples.len() && samples[i] == x;
                assert(p.indices.contains_key(samples[i]));
            }
        }
        assert(all.subset_of(named));
        assert(named =~= all);
    }
    if all.len() <= limit {
        assert forall|i: int| 0 <= i < samples.len() implies p.indices.contains_key(
            #[trigger] samples[i],
        ) by {
            assert(samples.to_set().contains(samples[i]));
            assert(all.contains(samples[i]));
        }
    }
}

/// The most colours a palette can hold: an index is one byte.
pub const MAX_COLORS: usize = 256;

/// The number of colours that a palette made for `capacity` colours besides
/// "no data" may hold.
pub open spec fn limit_of(capacity: usize) -> nat {
    if capacity < MAX_COLORS {
        (capacity + 1) as nat
    } else {
        MAX_COLORS as nat
    }
}

/// A palette: sample values with their indices, and the colours by index.
/// Index 0 belongs to "no data", which is the one transparent colour.
#[derive(Debug)]
pub struct ColormapRgb8<T: PixelValue> {
    values: BTreeMap<u32, u8>,
    colors: Vec<u8>,
    transparency: Vec<u8>,
    nodata: T,
    limit: usize,
}

impl<T: PixelValue> View for ColormapRgb8<T> {
    type V = Palette;

    closed spec fn view(&self) -> Palette {
        Palette { indices: self.values@, colors: self.colors@ }
    }
}

impl<T: PixelValue> ColormapRgb8<T> {
    /// The sample value that stands for "no data".
    pub closed spec fn nodata(&self) -> T {
        self.nodata
    }

    /// The most colours this palette takes.
    pub closed spec fn limit(&self) -> nat {
        self.limit as nat
    }

    /// The alpha of the leading palette entries.
    pub closed spec fn transparency(&self) -> Seq<u8> {
        self.transparency@
    }

    /// Whether the palette is well formed: it is one that `new` and
    /// `add_color` can have built, and index 0 alone is transparent.
    pub open spec fn wf(&self) -> bool {
        &&& self@.wf(self.nodata().number())
        &&& 1 <= self.limit() <= MAX_COLORS
        &&& self.transparency() == seq![0u8]
    }

    /// A palette with room for `capacity` colours besides that of "no data",
    /// which it holds at index 0, and for never more than 256 in all.
    pub fn new(capacity: usize, nodata: T) -> (colormap: ColormapRgb8<T>)
        ensures
            colormap.wf(),
            colormap@ == Palette::fresh(nodata.number()),
            colormap.nodata() == nodata,
            colormap.limit() == limit_of(capacity),
    {
        let limit: usize = if capacity < MAX_COLORS {
            capacity + 1
        } else {
            MAX_COLORS
        };
        let mut values: BTreeMap<u32, u8> = BTreeMap::new();
        let mut colors: Vec<u8> = Vec::new();
        values.insert(nodata.to_u32(), 0u8);
        colors.push(0u8);
        colors.push(0u8);
        colors.push(0u8);
        let mut transparency: Vec<u8> = Vec::new();
        transparency.push(0u8);
        proof {
            assert(colors@ =~= seq![0u8, 0u8, 0u8]);
            assert(transparency@ =~= seq![0u8]);
        }
        ColormapRgb8 { values, colors, transparency, nodata, limit }
    }

    /// Empties the palette but for "no data", which keeps index 0.
    pub fn clear(&mut self)
        requires
            old(self).wf(),
        ensures
            final(self).wf(),
            final(self)@ == Palette::fresh(old(self).nodata().number()),
            final(self).nodata() == old(self).nodata(),
            final(self).limit() == old(self).limit(),
    {
        self.values.clear();
        self.colors.clear();
        self.values.insert(self.nodata.to_u32(), 0u8);
        self.colors.push(0u8);
        self.colors.push(0u8);
        self.colors.push(0u8);
        proof {
            assert(self.colors@ =~= seq![0u8, 0u8, 0u8]);
        }
    }

    /// Gives `value` the next index, with `color`, unless it has one or the
    /// palette is full. Returns whether `value` has an index afterwards.
    pub fn add_color(&mut self, value: T, color: Rgb8) -> (held: bool)
        requires
            old(self).wf(),
        ensures
            final(self).wf(),
            final(self)@ == old(self)@.with_color(value.number(), color, old(self).limit()),
            final(self).nodata() == old(self).nodata(),
            final(self).limit() == old(self).limit(),
            held == final(self)@.indices.contains_key(value.number()),
    {
        let key = value.to_u32();
        if self.values.contains_key(&key) {
            return true;
        }
        let n = self.colors.len() / 3;
        if n >= self.limit {
            return false;
        }
        proof {
            old(self)@.lemma_with_color_wf(
                self.nodata.number(),
                key,
                color,
                self.limit as nat,
            );
        }
        self.values.insert(key, n as u8);
        self.colors.push(color.r);
        self.colors.push(color.g);
        self.colors.push(color.b);
        proof {
            assert(self.colors@ =~= old(self).colors@ + seq![color.r, color.g, color.b]);
        }
        true
    }

    /// The index of `value`; 0, the index of "no data", where it has none.
    pub fn get_index(&self, value: T) -> (index: u8)
        requires
            self.wf(),
        ensures
            index == self@.index_of(value.number()),
            index < self@.len(),
    {
        let key = value.to_u32();
        match self.values.get(&key) {
            Some(v) => *v,
            None => 0u8,
        }
    }

    /// The colours in the order of their indices, three bytes each.
    pub fn get_colors(&self) -> (colors: &Vec<u8>)
        ensures
            colors@ == self@.colors,
    {
        &self.colors
    }

    /// The alpha of the leading palette entries: one byte, 0, which makes
    /// index 0 transparent.
    pub fn get_transparency(&self) -> (alpha: &[u8])
        requires
            self.wf(),
        ensures
            alpha@ == seq![0u8],
    {
        self.transparency.as_slice()
    }

    /// The number of colours.
    pub fn len(&self) -> (n: usize)
        ensures
            n == self@.len(),
    {
        self.colors.len() / 3
    }
}

impl ColormapRgb8<u8> {
    /// The palette that the text `colormap_str` writes, behind the colour of
    /// `nodata`: entries `value:#rrggbb` separated by commas, each taking
    /// the next index unless its value has one already.
    pub fn parse(colormap_str: &str, nodata: u8) -> (r: Result<ColormapRgb8<u8>, ColormapError>)
        ensures
            match r {
                Ok(colormap) => {
                    &&& entries_of(colormap_str.spec_bytes()) is Ok
                    &&& colormap.wf()
                    &&& colormap.nodata() == nodata
                    &&& colormap@ == Palette::fresh(nodata as u32).with_entries(
                        entries_of(colormap_str.spec_bytes())->Ok_0,
                        MAX_COLORS as nat,
                    )
                },
                Err(e) => entries_of(colormap_str.spec_bytes()) == Err::<
                    Seq<(u8, Rgb)>,
                    ColormapError,
                >(e),
            },
    {
        let entries = match parse_entries(colormap_str.as_bytes()) {
            Ok(entries) => entries,
            Err(e) => {
                return Err(e);
            },
        };
        let mut colormap = ColormapRgb8::<u8>::new(MAX_COLORS, nodata);
        let mut i: usize = 0;
        proof {
            assert(entries@.take(0) =~= Seq::<(u8, Rgb)>::empty());
        }
        while i < entries.len()
            invariant
                i <= entries@.len(),
                colormap.wf(),
                colormap.nodata() == nodata,
                colormap.limit() == MAX_COLORS,
                colormap@ == Palette::fresh(nodata as u32).with_entries(
                    entries@.take(i as int),
                    MAX_COLORS as nat,
                ),
            decreases entries@.len() - i,
        {
            let (value, c) = entries[i];
            proof {
                assert(entries@.take(i + 1).drop_last() =~= entries@.take(i as int));
            }
            colormap.add_color(value, Rgb8 { r: c.0, g: c.1, b: c.2 });
            i += 1;
        }
        proof {
            assert(entries@.take(i as int) =~= entries@);
        }
        Ok(colormap)
    }
}

} // verus!
