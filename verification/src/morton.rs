use vstd::prelude::*;

verus! {

/// Bit `k` (counted from the least significant end) of `x`.
pub open spec fn bit(x: u32, k: u32) -> bool {
    (x >> k) & 1u32 == 1u32
}

/// `r` holds the ten low bits of `v` spread out to every third position:
/// bit `k` of `v` lands on bit `3k`, every other bit of `r` is clear.
pub open spec fn spreads(r: u32, v: u32) -> bool {
    forall|k: u32| k < 32 ==> #[trigger] bit(r, k) == (k % 3 == 0 && bit(v, k / 3))
}

/// Spreads the ten low bits of `v` to every third bit position
/// (bit `k` moves to bit `3k`), leaving two zero bits between them.
/// Of the higher bits of `v`, the masks let only bits 24 and 25 through:
/// they land where bits 8 and 9 do.
pub fn expand_bits(v: u32) -> (r: u32)
    ensures
        spreads(r, (v & 0x3FFu32) | ((v >> 16u32) & 0x300u32)),
        v < 1024 ==> spreads(r, v),
        r & 0x09249249u32 == r,
{
    let x0: u64 = v as u64;
    let x1: u64 = (x0 | (x0 << 16u64)) & 0x030000FFu64;
    let x2: u64 = (x1 | (x1 << 8u64)) & 0x0300F00Fu64;
    let x3: u64 = (x2 | (x2 << 4u64)) & 0x030C30C3u64;
    let x4: u64 = (x3 | (x3 << 2u64)) & 0x09249249u64;
    let r = x4 as u32;
    let w = (v & 0x3FFu32) | ((v >> 16u32) & 0x300u32);
    assert forall|k: u32| k < 32 implies #[trigger] bit(r, k) == (k % 3 == 0 && bit(w, k / 3)) by {
        assert(((r >> k) & 1u32 == 1u32) == (k % 3 == 0 && (w >> (k / 3)) & 1u32 == 1u32))
            by (bit_vector)
            requires
                k < 32,
                w == (v & 0x3FFu32) | ((v >> 16u32) & 0x300u32),
                x0 == v as u64,
                x1 == (x0 | (x0 << 16u64)) & 0x030000FFu64,
                x2 == (x1 | (x1 << 8u64)) & 0x0300F00Fu64,
                x3 == (x2 | (x2 << 4u64)) & 0x030C30C3u64,
                x4 == (x3 | (x3 << 2u64)) & 0x09249249u64,
                r == x4 as u32,
        ;
    }
    assert(v < 1024 ==> w == v) by (bit_vector)
        requires
            w == (v & 0x3FFu32) | ((v >> 16u32) & 0x300u32),
    ;
    assert(r & 0x09249249u32 == r) by (bit_vector)
        requires
            x4 == (x3 | (x3 << 2u64)) & 0x09249249u64,
            r == x4 as u32,
    ;
    r
}

/// `r` interleaves the ten low bits of `x`, `y` and `z`: bit `k` of each
/// coordinate lands on bit `3k + 2`, `3k + 1` and `3k` of `r` respectively.
pub open spec fn interleaves(r: u32, x: u32, y: u32, z: u32) -> bool {
    forall|k: u32|
        k < 32 ==> #[trigger] bit(r, k) == (if k % 3 == 2 {
            bit(x, k / 3)
        } else if k % 3 == 1 {
            bit(y, k / 3)
        } else {
            bit(z, k / 3)
        })
}

/// The 30-bit Morton code of the grid cell `(x, y, z)` of a 1024^3 grid:
/// the bits of the three coordinates interleaved, `x` most significant.
pub fn morton_from_cell(x: u32, y: u32, z: u32) -> (r: u32)
    requires
        x < 1024,
        y < 1024,
        z < 1024,
    ensures
        interleaves(r, x, y, z),
        r < 0x4000_0000,
{
    let xx = expand_bits(x);
    let yy = expand_bits(y);
    let zz = expand_bits(z);
    assert((xx << 2u32) + (yy << 1u32) + zz < 0x4000_0000) by (bit_vector)
        requires
            xx & 0x09249249u32 == xx,
            yy & 0x09249249u32 == yy,
            zz & 0x09249249u32 == zz,
    ;
    let r = (xx << 2u32) + (yy << 1u32) + zz;
    assert forall|k: u32| k < 32 implies #[trigger] bit(r, k) == (if k % 3 == 2 {
        bit(x, k / 3)
    } else if k % 3 == 1 {
        bit(y, k / 3)
    } else {
        bit(z, k / 3)
    }) by {
        assert(((r >> k) & 1u32 == 1u32) == (if k % 3 == 2 {
            (xx >> ((k - 2) as u32)) & 1u32 == 1u32
        } else if k % 3 == 1 {
            (yy >> ((k - 1) as u32)) & 1u32 == 1u32
        } else {
            (zz >> k) & 1u32 == 1u32
        })) by (bit_vector)
            requires
                k < 32,
                xx & 0x09249249u32 == xx,
                yy & 0x09249249u32 == yy,
                zz & 0x09249249u32 == zz,
                r == (xx << 2u32) + (yy << 1u32) + zz,
        ;
        if k % 3 == 2 {
            assert(bit(xx, (k - 2) as u32) == bit(x, k / 3));
        }
        if k % 3 == 1 {
            assert(bit(yy, (k - 1) as u32) == bit(y, k / 3));
        }
        if k % 3 == 0 {
            assert(bit(zz, k) == bit(z, k / 3));
        }
    }
    r
}

/// A 32-bit word is determined by its bits.
pub proof fn lemma_bits_determine(a: u32, b: u32)
    requires
        forall|k: u32| k < 32 ==> #[trigger] bit(a, k) == bit(b, k),
    ensures
        a == b,
{
    assert(bit(a, 0u32) == bit(b, 0u32));
    assert(bit(a, 1u32) == bit(b, 1u32));
    assert(bit(a, 2u32) == bit(b, 2u32));
    assert(bit(a, 3u32) == bit(b, 3u32));
    assert(bit(a, 4u32) == bit(b, 4u32));
    assert(bit(a, 5u32) == bit(b, 5u32));
    assert(bit(a, 6u32) == bit(b, 6u32));
    assert(bit(a, 7u32) == bit(b, 7u32));
    assert(bit(a, 8u32) == bit(b, 8u32));
    assert(bit(a, 9u32) == bit(b, 9u32));
    assert(bit(a, 10u32) == bit(b, 10u32));
    assert(bit(a, 11u32) == bit(b, 11u32));
    assert(bit(a, 12u32) == bit(b, 12u32));
    assert(bit(a, 13u32) == bit(b, 13u32));
    assert(bit(a, 14u32) == bit(b, 14u32));
    assert(bit(a, 15u32) == bit(b, 15u32));
    assert(bit(a, 16u32) == bit(b, 16u32));
    assert(bit(a, 17u32) == bit(b, 17u32));
    assert(bit(a, 18u32) == bit(b, 18u32));
    assert(bit(a, 19u32) == bit(b, 19u32));
    assert(bit(a, 20u32) == bit(b, 20u32));
    assert(bit(a, 21u32) == bit(b, 21u32));
    assert(bit(a, 22u32) == bit(b, 22u32));
    assert(bit(a, 23u32) == bit(b, 23u32));
    assert(bit(a, 24u32) == bit(b, 24u32));
    assert(bit(a, 25u32) == bit(b, 25u32));
    assert(bit(a, 26u32) == bit(b, 26u32));
    assert(bit(a, 27u32) == bit(b, 27u32));
    assert(bit(a, 28u32) == bit(b, 28u32));
    assert(bit(a, 29u32) == bit(b, 29u32));
    assert(bit(a, 30u32) == bit(b, 30u32));
    assert(bit(a, 31u32) == bit(b, 31u32));
    assert(a == b) by (bit_vector)
        requires
            ((a >> 0u32) & 1u32 == 1u32) == ((b >> 0u32) & 1u32 == 1u32),
            ((a >> 1u32) & 1u32 == 1u32) == ((b >> 1u32) & 1u32 == 1u32),
            ((a >> 2u32) & 1u32 == 1u32) == ((b >> 2u32) & 1u32 == 1u32),
            ((a >> 3u32) & 1u32 == 1u32) == ((b >> 3u32) & 1u32 == 1u32),
            ((a >> 4u32) & 1u32 == 1u32) == ((b >> 4u32) & 1u32 == 1u32),
            ((a >> 5u32) & 1u32 == 1u32) == ((b >> 5u32) & 1u32 == 1u32),
            ((a >> 6u32) & 1u32 == 1u32) == ((b >> 6u32) & 1u32 == 1u32),
            ((a >> 7u32) & 1u32 == 1u32) == ((b >> 7u32) & 1u32 == 1u32),
            ((a >> 8u32) & 1u32 == 1u32) == ((b >> 8u32) & 1u32 == 1u32),
            ((a >> 9u32) & 1u32 == 1u32) == ((b >> 9u32) & 1u32 == 1u32),
            ((a >> 10u32) & 1u32 == 1u32) == ((b >> 10u32) & 1u32 == 1u32),
            ((a >> 11u32) & 1u32 == 1u32) == ((b >> 11u32) & 1u32 == 1u32),
            ((a >> 12u32) & 1u32 == 1u32) == ((b >> 12u32) & 1u32 == 1u32),
            ((a >> 13u32) & 1u32 == 1u32) == ((b >> 13u32) & 1u32 == 1u32),
            ((a >> 14u32) & 1u32 == 1u32) == ((b >> 14u32) & 1u32 == 1u32),
            ((a >> 15u32) & 1u32 == 1u32) == ((b >> 15u32) & 1u32 == 1u32),
            ((a >> 16u32) & 1u32 == 1u32) == ((b >> 16u32) & 1u32 == 1u32),
            ((a >> 17u32) & 1u32 == 1u32) == ((b >> 17u32) & 1u32 == 1u32),
            ((a >> 18u32) & 1u32 == 1u32) == ((b >> 18u32) & 1u32 == 1u32),
            ((a >> 19u32) & 1u32 == 1u32) == ((b >> 19u32) & 1u32 == 1u32),
            ((a >> 20u32) & 1u32 == 1u32) == ((b >> 20u32) & 1u32 == 1u32),
            ((a >> 21u32) & 1u32 == 1u32) == ((b >> 21u32) & 1u32 == 1u32),
            ((a >> 22u32) & 1u32 == 1u32) == ((b >> 22u32) & 1u32 == 1u32),
            ((a >> 23u32) & 1u32 == 1u32) == ((b >> 23u32) & 1u32 == 1u32),
            ((a >> 24u32) & 1u32 == 1u32) == ((b >> 24u32) & 1u32 == 1u32),
            ((a >> 25u32) & 1u32 == 1u32) == ((b >> 25u32) & 1u32 == 1u32),
            ((a >> 26u32) & 1u32 == 1u32) == ((b >> 26u32) & 1u32 == 1u32),
            ((a >> 27u32) & 1u32 == 1u32) == ((b >> 27u32) & 1u32 == 1u32),
            ((a >> 28u32) & 1u32 == 1u32) == ((b >> 28u32) & 1u32 == 1u32),
            ((a >> 29u32) & 1u32 == 1u32) == ((b >> 29u32) & 1u32 == 1u32),
            ((a >> 30u32) & 1u32 == 1u32) == ((b >> 30u32) & 1u32 == 1u32),
            ((a >> 31u32) & 1u32 == 1u32) == ((b >> 31u32) & 1u32 == 1u32),
    ;
}

/// The bits of a coordinate below 1024 above the tenth are clear.
proof fn lemma_high_bits_clear(x: u32, k: u32)
    requires
        x < 1024,
        10 <= k < 32,
    ensures
        !bit(x, k),
{
    assert((x >> k) & 1u32 != 1u32) by (bit_vector)
        requires
            x < 1024,
            10 <= k < 32,
    ;
}

/// Two coordinates below 1024 with the same ten low bits are equal.
proof fn lemma_coordinate_bits_determine(x1: u32, x2: u32)
    requires
        x1 < 1024,
        x2 < 1024,
        forall|k: u32| k < 10 ==> #[trigger] bit(x1, k) == bit(x2, k),
    ensures
        x1 == x2,
{
    assert forall|k: u32| k < 32 implies #[trigger] bit(x1, k) == bit(x2, k) by {
        if k >= 10 {
            lemma_high_bits_clear(x1, k);
            lemma_high_bits_clear(x2, k);
        }
    }
    lemma_bits_determine(x1, x2);
}

/// A Morton code identifies its grid cell: two cells of the 1024^3 grid have the
/// same code exactly when they are the same cell.
pub proof fn lemma_morton_code_identifies_cell(
    r1: u32,
    x1: u32,
    y1: u32,
    z1: u32,
    r2: u32,
    x2: u32,
    y2: u32,
    z2: u32,
)
    requires
        x1 < 1024,
        y1 < 1024,
        z1 < 1024,
        x2 < 1024,
        y2 < 1024,
        z2 < 1024,
        interleaves(r1, x1, y1, z1),
        interleaves(r2, x2, y2, z2),
    ensures
        r1 == r2 <==> (x1 == x2 && y1 == y2 && z1 == z2),
{
    if r1 == r2 {
        assert forall|k: u32| k < 10 implies #[trigger] bit(x1, k) == bit(x2, k) by {
            assert(bit(r1, (3 * k + 2) as u32) == bit(x1, k));
            assert(bit(r2, (3 * k + 2) as u32) == bit(x2, k));
        }
        assert forall|k: u32| k < 10 implies #[trigger] bit(y1, k) == bit(y2, k) by {
            assert(bit(r1, (3 * k + 1) as u32) == bit(y1, k));
            assert(bit(r2, (3 * k + 1) as u32) == bit(y2, k));
        }
        assert forall|k: u32| k < 10 implies #[trigger] bit(z1, k) == bit(z2, k) by {
            assert(bit(r1, (3 * k) as u32) == bit(z1, k));
            assert(bit(r2, (3 * k) as u32) == bit(z2, k));
        }
        lemma_coordinate_bits_determine(x1, x2);
        lemma_coordinate_bits_determine(y1, y2);
        lemma_coordinate_bits_determine(z1, z2);
    }
    if x1 == x2 && y1 == y2 && z1 == z2 {
        assert forall|k: u32| k < 32 implies #[trigger] bit(r1, k) == bit(r2, k) by {
        }
        lemma_bits_determine(r1, r2);
    }
}

} // verus!
