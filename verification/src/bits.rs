//! Shifts and masks restated as division and remainder.

use vstd::prelude::*;

verus! {

/// Right shifts of a 16-bit word are divisions by powers of two.
pub proof fn lemma_shr_u16(x: u16)
    by (bit_vector)
    ensures
        x >> 1 == x / 2,
        x >> 3 == x / 8,
        x >> 4 == x / 16,
        x >> 5 == x / 32,
        x >> 6 == x / 64,
        x >> 7 == x / 128,
        x >> 8 == x / 256,
        x >> 10 == x / 1024,
        x >> 11 == x / 2048,
        x >> 12 == x / 4096,
        x >> 15 == x / 32768,
{
}

/// Low-bit masks of a 16-bit word are remainders by powers of two.
pub proof fn lemma_mask_u16(x: u16)
    by (bit_vector)
    ensures
        x & 0x1 == x % 2,
        x & 0xF == x % 16,
        x & 0x1F == x % 32,
        x & 0x3F == x % 64,
        x & 0xFF == x % 256,
        x & 0x3FF == x % 1024,
        x & 0x8000 == (x / 32768) * 32768,
        x & 0xFFC0 == (x / 64) * 64,
{
}

/// Right shifts of a 32-bit word are divisions by powers of two.
pub proof fn lemma_shr_u32(x: u32)
    by (bit_vector)
    ensures
        x >> 1 == x / 2,
        x >> 7 == x / 128,
        x >> 8 == x / 256,
        x >> 9 == x / 512,
        x >> 10 == x / 1024,
        x >> 11 == x / 2048,
        x >> 16 == x / 65536,
        x >> 18 == x / 262144,
        x >> 20 == x / 1048576,
        x >> 22 == x / 4194304,
        x >> 23 == x / 8388608,
        x >> 24 == x / 16777216,
        x >> 27 == x / 134217728,
        x >> 30 == x / 1073741824,
{
}

/// Low-bit masks of a 32-bit word are remainders by powers of two.
pub proof fn lemma_mask_u32(x: u32)
    by (bit_vector)
    ensures
        x & 0x1 == x % 2,
        x & 0x3 == x % 4,
        x & 0x7 == x % 8,
        x & 0xF == x % 16,
        x & 0x1F == x % 32,
        x & 0x3F == x % 64,
        x & 0xFF == x % 256,
        x & 0x1FF == x % 512,
        x & 0x3FF == x % 1024,
        x & 0x7FF == x % 2048,
        x & 0xFFFF == x % 65536,
        x & 0x7F_FFFF == x % 8388608,
{
}

} // verus!
