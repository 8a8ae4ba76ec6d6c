//! fstool: a library for creating, reading and writing file system images.
//!
//! The verified core holds the on-disk data structures (bitmaps, Minix 3
//! superblocks, inodes and directory entries, exFAT boot sectors and
//! timestamps, mzFAT superblocks), the in-memory directory tree and the
//! path logic that walks it, the block cache, and the small parsers the tool
//! needs (sizes, octal and symbolic permission modes).
pub mod bitmap;
pub mod bytes;
pub mod error;
pub mod exfat;
pub mod filetype;
pub mod source;
pub mod stat;
pub mod terminal;
pub mod repl;
pub mod args;
pub mod cache;
mod clock;
pub mod fs;
pub mod minix;
pub mod mzfat;
pub mod path;

use vstd::arithmetic::power2::{lemma_pow2_pos, lemma_pow2_unfold, pow2};
use vstd::bits::{lemma_u64_low_bits_mask_is_mod, low_bits_mask};
use vstd::prelude::*;

verus! {

/// A 64-bit power of two is `pow2(n)` for some `n` below 64.
proof fn lemma_pow2_exponent(a: u64) -> (n: nat)
    requires
        a > 0,
        a & ((a - 1) as u64) == 0,
    ensures
        n < 64,
        a == pow2(n),
    decreases a,
{
    if a == 1 {
        vstd::arithmetic::power2::lemma2_to64();
        0
    } else {
        let h = a >> 1u64;
        assert(h > 0 && h & ((h - 1) as u64) == 0 && a == 2 * h && h < 0x8000_0000_0000_0000) by (bit_vector)
            requires
                a > 1,
                a & ((a - 1) as u64) == 0,
                h == a >> 1u64,
        ;
        let k = lemma_pow2_exponent(h);
        lemma_pow2_unfold(k + 1);
        if k == 63 {
            vstd::arithmetic::power2::lemma2_to64();
        }
        k + 1
    }
}

/// Round `value` up to the next multiple of `align`, a power of two.
pub fn align_up(value: u64, align: u64) -> (r: u64)
    requires
        align > 0,
        align & ((align - 1) as u64) == 0,
        value + align - 1 <= u64::MAX,
    ensures
        r == (value + align - 1) / align as int * align,
{
    let x = value + (align - 1);
    let m = align - 1;
    proof {
        let n = lemma_pow2_exponent(align);
        lemma_pow2_pos(n);
        assert(low_bits_mask(n) == m);
        lemma_u64_low_bits_mask_is_mod(x, n);
        assert(x & !m == x - (x & m)) by (bit_vector);
    }
    assert(x - x % align == x / align * align) by (nonlinear_arith)
        requires
            align > 0,
    ;
    x & !m
}

} // verus!
