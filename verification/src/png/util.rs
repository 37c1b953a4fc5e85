//! Packing of small palette indices into bytes, first sample in the highest
//! bits.

use vstd::prelude::*;

verus! {

/// Eight one-bit samples in one byte. A sample's bits above its width are
/// not masked: they spill into the places of the samples before it.
pub open spec fn packed_1bit(v1: u8, v2: u8, v3: u8, v4: u8, v5: u8, v6: u8, v7: u8, v8: u8) -> u8 {
    v1 << 7u8 | v2 << 6u8 | v3 << 5u8 | v4 << 4u8 | v5 << 3u8 | v6 << 2u8 | v7 << 1u8 | v8
}

/// Four two-bit samples in one byte.
pub open spec fn packed_2bit(v1: u8, v2: u8, v3: u8, v4: u8) -> u8 {
    v1 << 6u8 | v2 << 4u8 | v3 << 2u8 | v4
}

/// Two four-bit samples in one byte.
pub open spec fn packed_4bit(v1: u8, v2: u8) -> u8 {
    v1 << 4u8 | v2
}

/// How many samples of `depth` bits one byte holds.
pub open spec fn samples_per_byte(depth: u8) -> int {
    if depth == 1 {
        8
    } else if depth == 2 {
        4
    } else if depth == 4 {
        2
    } else {
        1
    }
}

/// The `i`-th sample of `depth` bits in `byte`, counted from the highest
/// bits.
pub open spec fn sample_at(byte: u8, depth: u8, i: int) -> u8 {
    if depth == 1 {
        (byte >> ((7 - i) as u8)) & 1u8
    } else if depth == 2 {
        (byte >> ((6 - 2 * i) as u8)) & 3u8
    } else if depth == 4 {
        (byte >> ((4 - 4 * i) as u8)) & 15u8
    } else {
        byte
    }
}

/// Packs eight one-bit samples.
#[inline]
pub fn pack_8u_1bit(v1: u8, v2: u8, v3: u8, v4: u8, v5: u8, v6: u8, v7: u8, v8: u8) -> (r: u8)
    ensures
        r == packed_1bit(v1, v2, v3, v4, v5, v6, v7, v8),
{
    v1 << 7u8 | v2 << 6u8 | v3 << 5u8 | v4 << 4u8 | v5 << 3u8 | v6 << 2u8 | v7 << 1u8 | v8
}

/// Packs four two-bit samples.
#[inline]
pub fn pack_8u_2bit(v1: u8, v2: u8, v3: u8, v4: u8) -> (r: u8)
    ensures
        r == packed_2bit(v1, v2, v3, v4),
{
    v1 << 6u8 | v2 << 4u8 | v3 << 2u8 | v4
}

/// Packs two four-bit samples.
#[inline]
pub fn pack_8u_4bit(v1: u8, v2: u8) -> (r: u8)
    ensures
        r == packed_4bit(v1, v2),
{
    v1 << 4u8 | v2
}

/// Eight samples below 2 can be read back from the byte they were packed in.
pub proof fn lemma_unpack_1bit(v1: u8, v2: u8, v3: u8, v4: u8, v5: u8, v6: u8, v7: u8, v8: u8)
    requires
        v1 < 2,
        v2 < 2,
        v3 < 2,
        v4 < 2,
        v5 < 2,
        v6 < 2,
        v7 < 2,
        v8 < 2,
    ensures
        sample_at(packed_1bit(v1, v2, v3, v4, v5, v6, v7, v8), 1, 0) == v1,
        sample_at(packed_1bit(v1, v2, v3, v4, v5, v6, v7, v8), 1, 1) == v2,
        sample_at(packed_1bit(v1, v2, v3, v4, v5, v6, v7, v8), 1, 2) == v3,
        sample_at(packed_1bit(v1, v2, v3, v4, v5, v6, v7, v8), 1, 3) == v4,
        sample_at(packed_1bit(v1, v2, v3, v4, v5, v6, v7, v8), 1, 4) == v5,
        sample_at(packed_1bit(v1, v2, v3, v4, v5, v6, v7, v8), 1, 5) == v6,
        sample_at(packed_1bit(v1, v2, v3, v4, v5, v6, v7, v8), 1, 6) == v7,
        sample_at(packed_1bit(v1, v2, v3, v4, v5, v6, v7, v8), 1, 7) == v8,
{
    let p = packed_1bit(v1, v2, v3, v4, v5, v6, v7, v8);
    assert(v1 < 2 && v2 < 2 && v3 < 2 && v4 < 2 && v5 < 2 && v6 < 2 && v7 < 2 && v8 < 2 && p == (v1
        << 7u8 | v2 << 6u8 | v3 << 5u8 | v4 << 4u8 | v5 << 3u8 | v6 << 2u8 | v7 << 1u8 | v8) ==> (p
        >> 7u8) & 1u8 == v1 && (p >> 6u8) & 1u8 == v2 && (p >> 5u8) & 1u8 == v3 && (p >> 4u8) & 1u8
        == v4 && (p >> 3u8) & 1u8 == v5 && (p >> 2u8) & 1u8 == v6 && (p >> 1u8) & 1u8 == v7 && (p
        >> 0u8) & 1u8 == v8) by (bit_vector);
}

/// Four samples below 4 can be read back from the byte they were packed in.
pub proof fn lemma_unpack_2bit(v1: u8, v2: u8, v3: u8, v4: u8)
    requires
        v1 < 4,
        v2 < 4,
        v3 < 4,
        v4 < 4,
    ensures
        sample_at(packed_2bit(v1, v2, v3, v4), 2, 0) == v1,
        sample_at(packed_2bit(v1, v2, v3, v4), 2, 1) == v2,
        sample_at(packed_2bit(v1, v2, v3, v4), 2, 2) == v3,
        sample_at(packed_2bit(v1, v2, v3, v4), 2, 3) == v4,
{
    let p = packed_2bit(v1, v2, v3, v4);
    assert(v1 < 4 && v2 < 4 && v3 < 4 && v4 < 4 && p == (v1 << 6u8 | v2 << 4u8 | v3 << 2u8 | v4)
        ==> (p >> 6u8) & 3u8 == v1 && (p >> 4u8) & 3u8 == v2 && (p >> 2u8) & 3u8 == v3 && (p
        >> 0u8) & 3u8 == v4) by (bit_vector);
}

/// Two samples below 16 can be read back from the byte they were packed in.
pub proof fn lemma_unpack_4bit(v1: u8, v2: u8)
    requires
        v1 < 16,
        v2 < 16,
    ensures
        sample_at(packed_4bit(v1, v2), 4, 0) == v1,
        sample_at(packed_4bit(v1, v2), 4, 1) == v2,
{
    let p = packed_4bit(v1, v2);
    assert(v1 < 16 && v2 < 16 && p == (v1 << 4u8 | v2) ==> (p >> 4u8) & 15u8 == v1 && (p >> 0u8)
        & 15u8 == v2) by (bit_vector);
}

/// Whether `depth` is a bit depth that a palette image can have.
pub open spec fn is_depth(depth: u8) -> bool {
    depth == 1 || depth == 2 || depth == 4 || depth == 8
}

/// The number of values that a sample of `depth` bits can take.
pub open spec fn values_of(depth: u8) -> int {
    if depth == 1 {
        2
    } else if depth == 2 {
        4
    } else if depth == 4 {
        16
    } else {
        256
    }
}

/// The bytes that `samples` pack into at `depth` bits each: every full group
/// of samples gives one byte, and samples behind the last full group are
/// left out.
pub open spec fn packed(samples: Seq<u8>, depth: u8) -> Seq<u8> {
    if depth == 1 {
        Seq::new(
            (samples.len() / 8) as nat,
            |k: int|
                packed_1bit(
                    samples[8 * k],
                    samples[8 * k + 1],
                    samples[8 * k + 2],
                    samples[8 * k + 3],
                    samples[8 * k + 4],
                    samples[8 * k + 5],
                    samples[8 * k + 6],
                    samples[8 * k + 7],
                ),
        )
    } else if depth == 2 {
        Seq::new(
            (samples.len() / 4) as nat,
            |k: int|
                packed_2bit(
                    samples[4 * k],
                    samples[4 * k + 1],
                    samples[4 * k + 2],
                    samples[4 * k + 3],
                ),
        )
    } else if depth == 4 {
        Seq::new(
            (samples.len() / 2) as nat,
            |k: int| packed_4bit(samples[2 * k], samples[2 * k + 1]),
        )
    } else {
        samples
    }
}

/// The samples of `depth` bits that `bytes` hold, in order.
pub open spec fn unpacked(bytes: Seq<u8>, depth: u8) -> Seq<u8> {
    Seq::new(
        (bytes.len() * samples_per_byte(depth)) as nat,
        |i: int| sample_at(bytes[i / samples_per_byte(depth)], depth, i % samples_per_byte(depth)),
    )
}

/// Packing and unpacking give the samples back: for a whole number of
/// groups of samples, each below the number of values of the depth.
pub proof fn lemma_pack_round_trip(samples: Seq<u8>, depth: u8)
    requires
        is_depth(depth),
        samples.len() % (samples_per_byte(depth) as nat) == 0,
        forall|i: int| 0 <= i < samples.len() ==> (#[trigger] samples[i]) < values_of(depth),
    ensures
        unpacked(packed(samples, depth), depth) == samples,
{
    let bytes = packed(samples, depth);
    let back = unpacked(bytes, depth);
    assert(back.len() == samples.len());
    assert forall|i: int| 0 <= i < samples.len() implies back[i] == samples[i] by {
        if depth == 1 {
            let k = i / 8;
            lemma_unpack_1bit(
                samples[8 * k],
                samples[8 * k + 1],
                samples[8 * k + 2],
                samples[8 * k + 3],
                samples[8 * k + 4],
                samples[8 * k + 5],
                samples[8 * k + 6],
                samples[8 * k + 7],
            );
        } else if depth == 2 {
            let k = i / 4;
            lemma_unpack_2bit(
                samples[4 * k],
                samples[4 * k + 1],
                samples[4 * k + 2],
                samples[4 * k + 3],
            );
        } else if depth == 4 {
            let k = i / 2;
            lemma_unpack_4bit(samples[2 * k], samples[2 * k + 1]);
        }
    }
    assert(back =~= samples);
}

} // verus!
