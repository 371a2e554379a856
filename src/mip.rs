//! Storage footprints: bytes per pixel from a flag code, and the size of a mip chain.
use vstd::prelude::*;
use vstd::arithmetic::power2::{pow2, lemma2_to64, lemma_pow2_unfold, lemma_pow2_pos};

verus! {

/// Bytes per pixel for the channel code held in the low three bits of `flags`.
pub open spec fn bpp_of(flags: u8) -> int {
    let code = (flags & 7u8) as int;
    1 + code / 2 + if code > 1 { 1int } else { 0int }
}

/// Pixel stride in bytes for the channel code in the low three bits of `flags`.
pub fn bytes_per_pixel(flags: u8) -> (r: u8)
    ensures
        r == bpp_of(flags),
        1 <= r <= 5,
{
    let x: u8 = flags & 7;
    assert(x <= 7) by (bit_vector)
        requires
            x == flags & 7u8,
    ;
    1 + (x / 2) + if x > 1 {
        1
    } else {
        0
    }
}

/// Side of the next level down: half of `n`, rounded up, and at least one.
pub open spec fn next_side(n: int) -> int {
    if (n + 1) / 2 < 1 {
        1
    } else {
        (n + 1) / 2
    }
}

/// A side counts toward termination only while it can still shrink.
pub open spec fn side_measure(n: int) -> nat {
    if n <= 1 {
        0
    } else {
        n as nat
    }
}

/// Shrinks at every step of a chain that has not reached 1×1.
pub open spec fn chain_measure(w: int, h: int) -> nat {
    side_measure(w) + side_measure(h) + if w == 1 && h == 1 {
        0nat
    } else {
        1nat
    }
}

/// Total bytes of the chain of levels from `w`×`h` down to 1×1, each level
/// halving both sides (rounded up, at least one); the 1×1 level counts once.
pub open spec fn mip_chain(w: int, h: int, bpp: int) -> int
    recommends
        w >= 0,
        h >= 0,
    decreases chain_measure(w, h),
    when w >= 0 && h >= 0
{
    if w == 1 && h == 1 {
        bpp
    } else {
        w * h * bpp + mip_chain(next_side(w), next_side(h), bpp)
    }
}

/// Bound on a chain whose sides are at most `2^k`, each level at most `2^48` bytes.
proof fn lemma_mip_chain_bound(w: int, h: int, bpp: int, k: nat)
    requires
        0 <= w <= pow2(k),
        0 <= h <= pow2(k),
        w <= 0xFFFF,
        h <= 0xFFFF,
        0 <= bpp <= 0xFFFF,
    ensures
        0 <= mip_chain(w, h, bpp) <= (k + 2) * 0x1000000000000,
    decreases k,
{
    assert(0 <= w * h * bpp <= 0xFFFF * 0xFFFF * 0xFFFF) by (nonlinear_arith)
        requires
            0 <= w <= 0xFFFF,
            0 <= h <= 0xFFFF,
            0 <= bpp <= 0xFFFF,
    ;
    if w == 1 && h == 1 {
    } else if k == 0 {
        assert(pow2(0) == 1) by {
            lemma2_to64();
        }
        assert(next_side(w) == 1 && next_side(h) == 1);
        assert(mip_chain(1, 1, bpp) == bpp);
    } else {
        lemma_pow2_unfold(k);
        lemma_pow2_pos((k - 1) as nat);
        assert(next_side(w) <= pow2((k - 1) as nat));
        assert(next_side(h) <= pow2((k - 1) as nat));
        lemma_mip_chain_bound(next_side(w), next_side(h), bpp, (k - 1) as nat);
    }
}

/// A 1×1 base level is the whole chain: its size is one pixel.
pub proof fn lemma_mip_chain_single_level(bpp: int)
    ensures
        mip_chain(1, 1, bpp) == bpp,
{
}

/// Total bytes of a full mip chain from a `init_w`×`init_h` base level at
/// `bytes_per_pixel` bytes each.
pub fn mipmaps_size(init_w: u16, init_h: u16, bytes_per_pixel: u16) -> (r: u64)
    ensures
        r == mip_chain(init_w as int, init_h as int, bytes_per_pixel as int),
{
    proof {
        lemma2_to64();
        lemma_mip_chain_bound(init_w as int, init_h as int, bytes_per_pixel as int, 16);
    }
    let mut w: u64 = init_w as u64;
    let mut h: u64 = init_h as u64;
    let bpp: u64 = bytes_per_pixel as u64;
    let mut data_len: u64 = 0;
    while !(w == 1 && h == 1)
        invariant
            w <= 0xFFFF,
            h <= 0xFFFF,
            bpp <= 0xFFFF,
            data_len + mip_chain(w as int, h as int, bpp as int) == mip_chain(
                init_w as int,
                init_h as int,
                bpp as int,
            ),
            mip_chain(init_w as int, init_h as int, bpp as int) <= 18 * 0x1000000000000,
        decreases chain_measure(w as int, h as int),
    {
        proof {
            lemma2_to64();
            lemma_mip_chain_bound(next_side(w as int), next_side(h as int), bpp as int, 16);
        }
        assert(w * h <= 0xFFFF * 0xFFFF && w * h * bpp <= 0xFFFF * 0xFFFF * 0xFFFF)
            by (nonlinear_arith)
            requires
                w <= 0xFFFF,
                h <= 0xFFFF,
                bpp <= 0xFFFF,
        ;
        data_len = data_len + w * h * bpp;
        w = if (w + 1) / 2 < 1 {
            1
        } else {
            (w + 1) / 2
        };
        h = if (h + 1) / 2 < 1 {
            1
        } else {
            (h + 1) / 2
        };
    }
    data_len = data_len + bpp;
    data_len
}

} // verus!
