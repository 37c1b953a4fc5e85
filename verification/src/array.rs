//! Helpers on flat, row-major sample buffers.

use std::collections::BTreeMap;
use vstd::arithmetic::div_mod::lemma_fundamental_div_mod_converse;
use vstd::laws_cmp::obeys_cmp;
use vstd::prelude::*;
use vstd::std_specs::cmp::PartialEqSpec;

verus! {

/// Whether every sample of `buffer` equals `value`.
pub fn all_equals<T: PartialEq>(buffer: &[T], value: T) -> (r: bool)
    ensures
        T::obeys_eq_spec() ==> (r <==> forall|i: int|
            0 <= i < buffer@.len() ==> (#[trigger] buffer@[i]).eq_spec(&value)),
{
    let mut i: usize = 0;
    while i < buffer.len()
        invariant
            i <= buffer@.len(),
            T::obeys_eq_spec() ==> forall|j: int|
                0 <= j < i ==> (#[trigger] buffer@[j]).eq_spec(&value),
        decreases buffer@.len() - i,
    {
        if buffer[i] != value {
            return false;
        }
        i += 1;
    }
    true
}

/// Whether the two buffers have the same length and equal samples at every
/// position.
pub fn equals<T: PartialEq>(left: &[T], right: &[T]) -> (r: bool)
    ensures
        T::obeys_eq_spec() ==> (r <==> (left@.len() == right@.len() && forall|i: int|
            0 <= i < left@.len() ==> (#[trigger] left@[i]).eq_spec(&right@[i]))),
{
    if left.len() != right.len() {
        return false;
    }
    let mut i: usize = 0;
    while i < left.len()
        invariant
            i <= left@.len(),
            left@.len() == right@.len(),
            T::obeys_eq_spec() ==> forall|j: int|
                0 <= j < i ==> (#[trigger] left@[j]).eq_spec(&right@[j]),
        decreases left@.len() - i,
    {
        if left[i] != right[i] {
            return false;
        }
        i += 1;
    }
    true
}

/// Overwrites every sample of `buffer` with `value`.
pub fn set_all<T: Copy>(buffer: &mut [T], value: T)
    ensures
        final(buffer)@ == Seq::new(old(buffer)@.len(), |i: int| value),
{
    let n = buffer.len();
    let mut i: usize = 0;
    while i < n
        invariant
            i <= n,
            n == buffer@.len(),
            buffer@.len() == old(buffer)@.len(),
            forall|j: int| 0 <= j < i ==> buffer@[j] == value,
        decreases n - i,
    {
        buffer[i] = value;
        i += 1;
    }
    assert(buffer@ =~= Seq::new(old(buffer)@.len(), |i: int| value));
}

/// How often `v` occurs in `s`.
pub open spec fn occurrences<T>(s: Seq<T>, v: T) -> nat
    decreases s.len(),
{
    if s.len() == 0 {
        0
    } else {
        occurrences(s.drop_last(), v) + if s.last() == v {
            1nat
        } else {
            0nat
        }
    }
}

/// The histogram of `s`: each value that occurs, with its number of
/// occurrences.
pub open spec fn histogram_of<T>(s: Seq<T>) -> Map<T, u64> {
    Map::new(|v: T| s.contains(v), |v: T| occurrences(s, v) as u64)
}

/// The first `n` samples of `s`.
pub open spec fn head<T>(s: Seq<T>, n: usize) -> Seq<T> {
    s.take(n as int)
}

/// A value occurs at most as often as the sequence is long, and at least
/// once exactly when the sequence contains it.
pub proof fn lemma_occurrences_bounds<T>(s: Seq<T>, v: T)
    ensures
        occurrences(s, v) <= s.len(),
        occurrences(s, v) > 0 <==> s.contains(v),
    decreases s.len(),
{
    if s.len() > 0 {
        let t = s.drop_last();
        lemma_occurrences_bounds(t, v);
        if s.last() == v {
            assert(s[s.len() - 1] == v);
        } else if t.contains(v) {
            let i = choose|i: int| 0 <= i < t.len() && t[i] == v;
            assert(s[i] == v);
        } else if s.contains(v) {
            let i = choose|i: int| 0 <= i < s.len() && s[i] == v;
            assert(t[i] == v);
        }
    }
}

/// Extending a sequence by one sample updates one histogram entry.
proof fn lemma_histogram_step<T>(s: Seq<T>, n: usize)
    requires
        n < s.len(),
        s.len() <= usize::MAX,
    ensures
        histogram_of(head(s, (n + 1) as usize)) == histogram_of(head(s, n)).insert(
            s[n as int],
            (occurrences(head(s, n), s[n as int]) + 1) as u64,
        ),
{
    let a = head(s, n);
    let b = head(s, (n + 1) as usize);
    let x = s[n as int];
    assert(b.drop_last() =~= a);
    assert(b.last() == x);
    assert forall|v: T| b.contains(v) <==> (a.contains(v) || v == x) by {
        lemma_occurrences_bounds(a, v);
        lemma_occurrences_bounds(b, v);
    }
    assert(histogram_of(b) =~= histogram_of(a).insert(x, (occurrences(a, x) + 1) as u64));
}

/// Counts the occurrences of each distinct sample.
pub fn histogram<T: Copy + Eq + Ord + std::hash::Hash>(buffer: &[T]) -> (map: BTreeMap<T, u64>)
    ensures
        obeys_cmp::<T>() ==> map@ == histogram_of(buffer@),
{
    let mut map: BTreeMap<T, u64> = BTreeMap::new();
    let mut i: usize = 0;
    proof {
        assert(histogram_of(head(buffer@, 0)) =~= Map::<T, u64>::empty());
    }
    while i < buffer.len()
        invariant
            i <= buffer@.len(),
            obeys_cmp::<T>() ==> map@ == histogram_of(head(buffer@, i)),
        decreases buffer@.len() - i,
    {
        let v = buffer[i];
        let seen: u64 = match map.get(&v) {
            Some(c) => *c,
            None => 0,
        };
        proof {
            lemma_occurrences_bounds(head(buffer@, i), v);
            lemma_histogram_step(buffer@, i);
        }
        let count: u64 = if seen < u64::MAX {
            seen + 1
        } else {
            seen
        };
        map.insert(v, count);
        i += 1;
    }
    proof {
        assert(head(buffer@, i) =~= buffer@);
    }
    map
}

/// Whether a block of `size` (width, height) placed at `offset` (x, y) lies
/// inside a grid of `target_size` (width, height) that a buffer of `len`
/// samples can hold.
pub open spec fn shift_fits(
    len: nat,
    size: (usize, usize),
    target_size: (usize, usize),
    offset: (usize, usize),
) -> bool {
    &&& size.0 + offset.0 <= target_size.0
    &&& size.1 + offset.1 <= target_size.1
    &&& target_size.0 * target_size.1 <= len
}

/// The index, in the packed block at the head of the buffer, of the sample
/// that belongs at position `j` of the grid; `None` where `j` lies outside
/// the placed block.
pub open spec fn source_of(
    j: int,
    size: (usize, usize),
    target_size: (usize, usize),
    offset: (usize, usize),
) -> Option<int> {
    let row = j / (target_size.0 as int);
    let col = j % (target_size.0 as int);
    if target_size.0 > 0 && offset.1 <= row < offset.1 + size.1 && offset.0 <= col < offset.0
        + size.0 {
        Some((row - offset.1) * size.0 + (col - offset.0))
    } else {
        None
    }
}

/// The buffer after the block of `size` samples packed at its head has been
/// moved to `offset` within the grid: a position inside the placed block
/// holds the sample that belongs there, a position of the packed block that
/// the placed block does not cover holds `fill`, and every other position
/// keeps its sample.
pub open spec fn shifted<T>(
    before: Seq<T>,
    size: (usize, usize),
    target_size: (usize, usize),
    offset: (usize, usize),
    fill: T,
) -> Seq<T> {
    Seq::new(
        before.len(),
        |j: int|
            match source_of(j, size, target_size, offset) {
                Some(s) => before[s],
                None => if j < size.0 * size.1 {
                    fill
                } else {
                    before[j]
                },
            },
    )
}

/// The buffer while the move is under way: the samples of the packed block
/// from index `k` on have been moved, those before `k` are still in place.
spec fn shifted_from<T>(
    before: Seq<T>,
    size: (usize, usize),
    target_size: (usize, usize),
    offset: (usize, usize),
    fill: T,
    k: int,
) -> Seq<T> {
    Seq::new(
        before.len(),
        |j: int|
            match source_of(j, size, target_size, offset) {
                Some(s) if s >= k => before[s],
                _ => if k <= j < size.0 * size.1 {
                    fill
                } else {
                    before[j]
                },
            },
    )
}

/// A block that fits in the grid has no more samples than the grid, and the
/// grid no more than the buffer.
proof fn lemma_block_in_grid(
    len: nat,
    size: (usize, usize),
    target_size: (usize, usize),
    offset: (usize, usize),
)
    requires
        shift_fits(len, size, target_size, offset),
    ensures
        0 <= size.0 * size.1 <= target_size.0 * target_size.1 <= len,
{
    assert(0 <= size.0 * size.1 <= target_size.0 * target_size.1) by (nonlinear_arith)
        requires
            0 <= size.0 <= target_size.0,
            0 <= size.1 <= target_size.1,
    ;
}

/// Where the sample at (`row`, `col`) of the packed block goes, and that this
/// place is at or behind the place it comes from, inside the buffer, and
/// recognised by `source_of`.
proof fn lemma_shift_cell(
    len: nat,
    size: (usize, usize),
    target_size: (usize, usize),
    offset: (usize, usize),
    row: int,
    col: int,
)
    requires
        shift_fits(len, size, target_size, offset),
        0 <= row < size.1,
        0 <= col < size.0,
    ensures
        0 <= row * size.0 + col < size.0 * size.1,
        size.0 * size.1 <= target_size.0 * target_size.1,
        row * size.0 + col <= (row + offset.1) * target_size.0 + (col + offset.0),
        (row + offset.1) * target_size.0 + (col + offset.0) < target_size.0 * target_size.1,
        source_of(
            (row + offset.1) * target_size.0 + (col + offset.0),
            size,
            target_size,
            offset,
        ) == Some(row * size.0 + col),
        (row + offset.1) * target_size.0 + (col + offset.0) == row * size.0 + col ==> (offset.0
            == 0 && offset.1 == 0 && (row == 0 || size.0 == target_size.0)),
{
    let sw = size.0 as int;
    let sh = size.1 as int;
    let tw = target_size.0 as int;
    let th = target_size.1 as int;
    let ox = offset.0 as int;
    let oy = offset.1 as int;
    assert(0 <= row * sw && row * sw + sw <= sw * sh) by (nonlinear_arith)
        requires
            0 <= row < sh,
            0 <= sw,
    ;
    assert(sw * sh <= tw * th) by (nonlinear_arith)
        requires
            0 <= sw <= tw,
            0 <= sh <= th,
    ;
    assert(row * sw <= (row + oy) * tw) by (nonlinear_arith)
        requires
            0 <= row,
            0 <= oy,
            0 <= sw <= tw,
    ;
    assert((row + oy) * tw + tw <= tw * th) by (nonlinear_arith)
        requires
            0 <= row + oy < th,
            0 <= tw,
    ;
    lemma_fundamental_div_mod_converse((row + oy) * tw + (col + ox), tw, row + oy, col + ox);
    if (row + oy) * tw + (col + ox) == row * sw + col {
        assert(row * (tw - sw) + oy * tw + ox == 0) by (nonlinear_arith)
            requires
                (row + oy) * tw + (col + ox) == row * sw + col,
        ;
        assert(row * (tw - sw) >= 0 && oy * tw >= 0) by (nonlinear_arith)
            requires
                0 <= row,
                0 <= oy,
                0 <= sw <= tw,
        ;
        assert(oy == 0) by (nonlinear_arith)
            requires
                oy * tw == 0,
                tw > 0,
                oy >= 0,
        ;
        assert(row == 0 || sw == tw) by (nonlinear_arith)
            requires
                row * (tw - sw) == 0,
                row >= 0,
                sw <= tw,
        ;
    }
}

/// A position that `source_of` recognises is the destination of exactly the
/// cell it names, and that cell lies in the packed block.
proof fn lemma_source_of_cell(
    len: nat,
    size: (usize, usize),
    target_size: (usize, usize),
    offset: (usize, usize),
    j: int,
)
    requires
        shift_fits(len, size, target_size, offset),
        0 <= j,
        source_of(j, size, target_size, offset) is Some,
    ensures
        ({
            let s = source_of(j, size, target_size, offset)->0;
            let row = j / (target_size.0 as int) - offset.1;
            let col = j % (target_size.0 as int) - offset.0;
            &&& 0 <= row < size.1
            &&& 0 <= col < size.0
            &&& s == row * size.0 + col
            &&& j == (row + offset.1) * target_size.0 + (col + offset.0)
            &&& 0 <= s <= j
            &&& s < size.0 * size.1
        }),
{
    let tw = target_size.0 as int;
    let row = j / tw - offset.1;
    let col = j % tw - offset.0;
    vstd::arithmetic::div_mod::lemma_fundamental_div_mod(j, tw);
    assert(tw * (j / tw) == (row + offset.1) * tw) by (nonlinear_arith)
        requires
            row == j / tw - offset.1,
    ;
    lemma_shift_cell(len, size, target_size, offset, row, col);
}

/// The order of the cells of the packed block is the order of their
/// destinations: a cell that comes later goes to a later place.
proof fn lemma_shift_monotone(
    len: nat,
    size: (usize, usize),
    target_size: (usize, usize),
    offset: (usize, usize),
    j1: int,
    j2: int,
)
    requires
        shift_fits(len, size, target_size, offset),
        0 <= j1,
        0 <= j2,
        source_of(j1, size, target_size, offset) is Some,
        source_of(j2, size, target_size, offset) is Some,
        source_of(j1, size, target_size, offset)->0 < source_of(j2, size, target_size, offset)->0,
    ensures
        j1 < j2,
{
    lemma_source_of_cell(len, size, target_size, offset, j1);
    lemma_source_of_cell(len, size, target_size, offset, j2);
    let sw = size.0 as int;
    let tw = target_size.0 as int;
    let r1 = j1 / tw - offset.1;
    let c1 = j1 % tw - offset.0;
    let r2 = j2 / tw - offset.1;
    let c2 = j2 % tw - offset.0;
    if r1 > r2 {
        assert(r1 * sw >= r2 * sw + sw) by (nonlinear_arith)
            requires
                r1 >= r2 + 1,
                sw >= 0,
        ;
    }
    if r1 < r2 {
        assert((r1 + offset.1) * tw + tw <= (r2 + offset.1) * tw) by (nonlinear_arith)
            requires
                r1 + 1 <= r2,
                tw >= 0,
        ;
    }
}

/// No two places of the grid take their sample from the same cell.
proof fn lemma_shift_injective(
    len: nat,
    size: (usize, usize),
    target_size: (usize, usize),
    offset: (usize, usize),
    j1: int,
    j2: int,
)
    requires
        shift_fits(len, size, target_size, offset),
        0 <= j1,
        0 <= j2,
        source_of(j1, size, target_size, offset) is Some,
        source_of(j1, size, target_size, offset) == source_of(j2, size, target_size, offset),
    ensures
        j1 == j2,
{
    lemma_source_of_cell(len, size, target_size, offset, j1);
    lemma_source_of_cell(len, size, target_size, offset, j2);
    let sw = size.0 as int;
    let tw = target_size.0 as int;
    let s = source_of(j1, size, target_size, offset)->0;
    let r1 = j1 / tw - offset.1;
    let c1 = j1 % tw - offset.0;
    let r2 = j2 / tw - offset.1;
    let c2 = j2 % tw - offset.0;
    lemma_fundamental_div_mod_converse(s, sw, r1, c1);
    lemma_fundamental_div_mod_converse(s, sw, r2, c2);
}

/// Moves the block of `size` (width, height) samples that is packed at the
/// head of `buffer` to `offset` (x, y) within the grid of `target_size`
/// (width, height), and fills what it leaves behind with `fill`.
///
/// The samples are walked from the last to the first, so that a sample is
/// read before its place is written to; a sample that is already in its
/// place stays there.
pub fn shift<T: Copy>(
    buffer: &mut [T],
    size: (usize, usize),
    target_size: (usize, usize),
    offset: (usize, usize),
    fill: T,
)
    requires
        shift_fits(old(buffer)@.len(), size, target_size, offset),
    ensures
        final(buffer)@ == shifted(old(buffer)@, size, target_size, offset, fill),
{
    let n = buffer.len();
    let ghost before = buffer@;
    let ghost len = buffer@.len();
    proof {
        lemma_block_in_grid(len, size, target_size, offset);
        assert(size.1 * size.0 == size.0 * size.1) by (nonlinear_arith);
        assert(buffer@ =~= shifted_from(
            before,
            size,
            target_size,
            offset,
            fill,
            size.0 * size.1,
        )) by {
            assert forall|j: int| 0 <= j < len implies before[j] == #[trigger] shifted_from(
                before,
                size,
                target_size,
                offset,
                fill,
                size.0 * size.1,
            )[j] by {
                if source_of(j, size, target_size, offset) is Some {
                    lemma_source_of_cell(len, size, target_size, offset, j);
                }
            }
        }
    }
    let mut row: usize = size.1;
    while row > 0
        invariant
            row <= size.1,
            buffer@.len() == len,
            before.len() == len,
            len <= usize::MAX,
            size.0 * size.1 <= len,
            shift_fits(len, size, target_size, offset),
            buffer@ == shifted_from(before, size, target_size, offset, fill, row * size.0),
        decreases row,
    {
        row -= 1;
        let mut col: usize = size.0;
        proof {
            assert((row + 1) * size.0 == row * size.0 + size.0) by (nonlinear_arith);
        }
        while col > 0
            invariant
                row < size.1,
                col <= size.0,
                buffer@.len() == len,
                before.len() == len,
                len <= usize::MAX,
                size.0 * size.1 <= len,
                shift_fits(len, size, target_size, offset),
                buffer@ == shifted_from(
                    before,
                    size,
                    target_size,
                    offset,
                    fill,
                    row * size.0 + col,
                ),
            decreases col,
        {
            col -= 1;
            proof {
                lemma_shift_cell(len, size, target_size, offset, row as int, col as int);
                assert(0 <= row * size.0 && 0 <= (row + offset.1) * target_size.0)
                    by (nonlinear_arith);
            }
            let src_index = row * size.0 + col;
            let dest_index = (row + offset.1) * target_size.0 + (col + offset.0);
            let ghost mid = buffer@;
            proof {
                // The sample to move is still the one that was packed there.
                if source_of(src_index as int, size, target_size, offset) is Some {
                    lemma_source_of_cell(len, size, target_size, offset, src_index as int);
                }
                assert(mid[src_index as int] == before[src_index as int]);
            }
            if dest_index != src_index {
                let sample = buffer[src_index];
                buffer[dest_index] = sample;
                buffer[src_index] = fill;
            }
            proof {
                let k = src_index as int;
                let d = dest_index as int;
                let next = shifted_from(before, size, target_size, offset, fill, k);
                assert forall|j: int| 0 <= j < len implies buffer@[j] == #[trigger] next[j] by {
                    let sj = source_of(j, size, target_size, offset);
                    if sj is Some {
                        lemma_source_of_cell(len, size, target_size, offset, j);
                        if sj->0 > k {
                            lemma_shift_monotone(len, size, target_size, offset, d, j);
                        } else if sj->0 < k {
                            lemma_shift_monotone(len, size, target_size, offset, j, d);
                        } else {
                            lemma_shift_injective(len, size, target_size, offset, d, j);
                        }
                    }
                }
                assert(buffer@ =~= next);
            }
        }
    }
    proof {
        assert(row * size.0 == 0) by (nonlinear_arith)
            requires
                row == 0,
        ;
        assert(shifted_from(before, size, target_size, offset, fill, 0) =~= shifted(
            before,
            size,
            target_size,
            offset,
            fill,
        )) by {
            assert forall|j: int| 0 <= j < len implies shifted_from(
                before,
                size,
                target_size,
                offset,
                fill,
                0,
            )[j] == #[trigger] shifted(before, size, target_size, offset, fill)[j] by {
                if source_of(j, size, target_size, offset) is Some {
                    lemma_source_of_cell(len, size, target_size, offset, j);
                }
            }
        }
    }
}

/// Moving a block that already fills the whole grid, by no offset, changes
/// nothing.
pub proof fn lemma_shift_full_grid_is_identity<T>(before: Seq<T>, size: (usize, usize), fill: T)
    requires
        size.0 * size.1 <= before.len(),
    ensures
        shifted(before, size, size, (0usize, 0usize), fill) == before,
{
    let zero = (0usize, 0usize);
    assert forall|j: int| 0 <= j < before.len() implies #[trigger] shifted(
        before,
        size,
        size,
        zero,
        fill,
    )[j] == before[j] by {
        let w = size.0 as int;
        if source_of(j, size, size, zero) is Some {
            lemma_source_of_cell(before.len(), size, size, zero, j);
        } else if w > 0 {
            vstd::arithmetic::div_mod::lemma_fundamental_div_mod(j, w);
            vstd::arithmetic::div_mod::lemma_mod_bound(j, w);
            vstd::arithmetic::div_mod::lemma_div_pos_is_pos(j, w);
            if j < size.0 * size.1 {
                assert(j / w < size.1) by (nonlinear_arith)
                    requires
                        j == w * (j / w) + j % w,
                        0 <= j % w,
                        j < w * size.1,
                        w > 0,
                ;
            }
        } else {
            assert(size.0 * size.1 == 0) by (nonlinear_arith)
                requires
                    size.0 == 0,
            ;
        }
    }
    assert(shifted(before, size, size, zero, fill) =~= before);
}

/// Each sample of the packed block ends up at its place in the grid.
pub proof fn lemma_shift_places_block<T>(
    before: Seq<T>,
    size: (usize, usize),
    target_size: (usize, usize),
    offset: (usize, usize),
    fill: T,
    row: int,
    col: int,
)
    requires
        shift_fits(before.len(), size, target_size, offset),
        0 <= row < size.1,
        0 <= col < size.0,
    ensures
        0 <= row * size.0 + col < before.len(),
        0 <= (row + offset.1) * target_size.0 + (col + offset.0) < before.len(),
        shifted(before, size, target_size, offset, fill)[(row + offset.1) * target_size.0 + (col
            + offset.0)] == before[row * size.0 + col],
{
    lemma_shift_cell(before.len(), size, target_size, offset, row, col);
}

} // verus!
