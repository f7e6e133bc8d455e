//! The cases of the exact conversion of 16-bit values: for the values of
//! every stretch, the rounded sum of the two terms is nearest to the
//! quotient by 65535. Every case is decided on the bits of its values, a
//! few thousand values at a time.

use vstd::prelude::*;
use crate::decode::convert::exact::{nearest_in_unit, rounded_by_shift};

verus! {

/// The sum of the two terms of a 16-bit value, written with shifts: the
/// second term is a product rounded with `t` bits too many.
pub open spec fn sum_of_terms(x: u64, t: u64) -> u64 {
    (x * 0x1_0000_0000 + rounded_by_shift((x * 65537) as u64, t)) as u64
}

/// The values from 1 to 1: the second term has 0 bits too many and the
/// sum 9.
#[verifier::rlimit(100)]
pub proof fn lemma_n16_from_1(x: u64)
    by (bit_vector)
    requires
        1 <= x <= 1,
    ensures
        nearest_in_unit(rounded_by_shift(sum_of_terms(x, 0), 9), 9, x, 65535, 0x1_0000_0000_0000),
{
}

/// The values from 2 to 3: the second term has 0 bits too many and the
/// sum 10.
#[verifier::rlimit(100)]
pub proof fn lemma_n16_from_2(x: u64)
    by (bit_vector)
    requires
        2 <= x <= 3,
    ensures
        nearest_in_unit(rounded_by_shift(sum_of_terms(x, 0), 10), 10, x, 65535, 0x1_0000_0000_0000),
{
}

/// The values from 4 to 7: the second term has 0 bits too many and the
/// sum 11.
#[verifier::rlimit(100)]
pub proof fn lemma_n16_from_4(x: u64)
    by (bit_vector)
    requires
        4 <= x <= 7,
    ensures
        nearest_in_unit(rounded_by_shift(sum_of_terms(x, 0), 11), 11, x, 65535, 0x1_0000_0000_0000),
{
}

/// The values from 8 to 15: the second term has 0 bits too many and the
/// sum 12.
#[verifier::rlimit(100)]
pub proof fn lemma_n16_from_8(x: u64)
    by (bit_vector)
    requires
        8 <= x <= 15,
    ensures
        nearest_in_unit(rounded_by_shift(sum_of_terms(x, 0), 12), 12, x, 65535, 0x1_0000_0000_0000),
{
}

/// The values from 16 to 31: the second term has 0 bits too many and the
/// sum 13.
#[verifier::rlimit(100)]
pub proof fn lemma_n16_from_16(x: u64)
    by (bit_vector)
    requires
        16 <= x <= 31,
    ensures
        nearest_in_unit(rounded_by_shift(sum_of_terms(x, 0), 13), 13, x, 65535, 0x1_0000_0000_0000),
{
}

/// The values from 32 to 63: the second term has 0 bits too many and the
/// sum 14.
#[verifier::rlimit(100)]
pub proof fn lemma_n16_from_32(x: u64)
    by (bit_vector)
    requires
        32 <= x <= 63,
    ensures
        nearest_in_unit(rounded_by_shift(sum_of_terms(x, 0), 14), 14, x, 65535, 0x1_0000_0000_0000),
{
}

/// The values from 64 to 127: the second term has 0 bits too many and the
/// sum 15.
#[verifier::rlimit(100)]
pub proof fn lemma_n16_from_64(x: u64)
    by (bit_vector)
    requires
        64 <= x <= 127,
    ensures
        nearest_in_unit(rounded_by_shift(sum_of_terms(x, 0), 15), 15, x, 65535, 0x1_0000_0000_0000),
{
}

/// The values from 128 to 255: the second term has 0 bits too many and the
/// sum 16.
#[verifier::rlimit(100)]
pub proof fn lemma_n16_from_128(x: u64)
    by (bit_vector)
    requires
        128 <= x <= 255,
    ensures
        nearest_in_unit(rounded_by_shift(sum_of_terms(x, 0), 16), 16, x, 65535, 0x1_0000_0000_0000),
{
}

/// The values from 256 to 511: the second term has 1 bits too many and the
/// sum 17.
#[verifier::rlimit(100)]
pub proof fn lemma_n16_from_256(x: u64)
    by (bit_vector)
    requires
        256 <= x <= 511,
    ensures
        nearest_in_unit(rounded_by_shift(sum_of_terms(x, 1), 17), 17, x, 65535, 0x1_0000_0000_0000),
{
}

/// The values from 512 to 1023: the second term has 2 bits too many and the
/// sum 18.
#[verifier::rlimit(100)]
pub proof fn lemma_n16_from_512(x: u64)
    by (bit_vector)
    requires
        512 <= x <= 1023,
    ensures
        nearest_in_unit(rounded_by_shift(sum_of_terms(x, 2), 18), 18, x, 65535, 0x1_0000_0000_0000),
{
}

/// The values from 1024 to 2047: the second term has 3 bits too many and the
/// sum 19.
#[verifier::rlimit(100)]
pub proof fn lemma_n16_from_1024(x: u64)
    by (bit_vector)
    requires
        1024 <= x <= 2047,
    ensures
        nearest_in_unit(rounded_by_shift(sum_of_terms(x, 3), 19), 19, x, 65535, 0x1_0000_0000_0000),
{
}

/// The values from 2048 to 4095: the second term has 4 bits too many and the
/// sum 20.
#[verifier::rlimit(100)]
pub proof fn lemma_n16_from_2048(x: u64)
    by (bit_vector)
    requires
        2048 <= x <= 4095,
    ensures
        nearest_in_unit(rounded_by_shift(sum_of_terms(x, 4), 20), 20, x, 65535, 0x1_0000_0000_0000),
{
}

/// The values from 4096 to 8191: the second term has 5 bits too many and the
/// sum 21.
#[verifier::rlimit(100)]
pub proof fn lemma_n16_from_4096(x: u64)
    by (bit_vector)
    requires
        4096 <= x <= 8191,
    ensures
        nearest_in_unit(rounded_by_shift(sum_of_terms(x, 5), 21), 21, x, 65535, 0x1_0000_0000_0000),
{
}

/// The values from 8192 to 12287: the second term has 6 bits too many and the
/// sum 22.
#[verifier::rlimit(100)]
pub proof fn lemma_n16_from_8192(x: u64)
    by (bit_vector)
    requires
        8192 <= x <= 12287,
    ensures
        nearest_in_unit(rounded_by_shift(sum_of_terms(x, 6), 22), 22, x, 65535, 0x1_0000_0000_0000),
{
}

/// The values from 12288 to 16383: the second term has 6 bits too many and the
/// sum 22.
#[verifier::rlimit(100)]
pub proof fn lemma_n16_from_12288(x: u64)
    by (bit_vector)
    requires
        12288 <= x <= 16383,
    ensures
        nearest_in_unit(rounded_by_shift(sum_of_terms(x, 6), 22), 22, x, 65535, 0x1_0000_0000_0000),
{
}

/// The values from 16384 to 20479: the second term has 7 bits too many and the
/// sum 23.
#[verifier::rlimit(100)]
pub proof fn lemma_n16_from_16384(x: u64)
    by (bit_vector)
    requires
        16384 <= x <= 20479,
    ensures
        nearest_in_unit(rounded_by_shift(sum_of_terms(x, 7), 23), 23, x, 65535, 0x1_0000_0000_0000),
{
}

/// The values from 20480 to 24575: the second term has 7 bits too many and the
/// sum 23.
#[verifier::rlimit(100)]
pub proof fn lemma_n16_from_20480(x: u64)
    by (bit_vector)
    requires
        20480 <= x <= 24575,
    ensures
        nearest_in_unit(rounded_by_shift(sum_of_terms(x, 7), 23), 23, x, 65535, 0x1_0000_0000_0000),
{
}

/// The values from 24576 to 28671: the second term has 7 bits too many and the
/// sum 23.
#[verifier::rlimit(100)]
pub proof fn lemma_n16_from_24576(x: u64)
    by (bit_vector)
    requires
        24576 <= x <= 28671,
    ensures
        nearest_in_unit(rounded_by_shift(sum_of_terms(x, 7), 23), 23, x, 65535, 0x1_0000_0000_0000),
{
}

/// The values from 28672 to 32767: the second term has 7 bits too many and the
/// sum 23.
#[verifier::rlimit(100)]
pub proof fn lemma_n16_from_28672(x: u64)
    by (bit_vector)
    requires
        28672 <= x <= 32767,
    ensures
        nearest_in_unit(rounded_by_shift(sum_of_terms(x, 7), 23), 23, x, 65535, 0x1_0000_0000_0000),
{
}

/// The values from 32768 to 36863: the second term has 8 bits too many and the
/// sum 24.
#[verifier::rlimit(100)]
pub proof fn lemma_n16_from_32768(x: u64)
    by (bit_vector)
    requires
        32768 <= x <= 36863,
    ensures
        nearest_in_unit(rounded_by_shift(sum_of_terms(x, 8), 24), 24, x, 65535, 0x1_0000_0000_0000),
{
}

/// The values from 36864 to 40959: the second term has 8 bits too many and the
/// sum 24.
#[verifier::rlimit(100)]
pub proof fn lemma_n16_from_36864(x: u64)
    by (bit_vector)
    requires
        36864 <= x <= 40959,
    ensures
        nearest_in_unit(rounded_by_shift(sum_of_terms(x, 8), 24), 24, x, 65535, 0x1_0000_0000_0000),
{
}

/// The values from 40960 to 45055: the second term has 8 bits too many and the
/// sum 24.
#[verifier::rlimit(100)]
pub proof fn lemma_n16_from_40960(x: u64)
    by (bit_vector)
    requires
        40960 <= x <= 45055,
    ensures
        nearest_in_unit(rounded_by_shift(sum_of_terms(x, 8), 24), 24, x, 65535, 0x1_0000_0000_0000),
{
}

/// The values from 45056 to 49151: the second term has 8 bits too many and the
/// sum 24.
#[verifier::rlimit(100)]
pub proof fn lemma_n16_from_45056(x: u64)
    by (bit_vector)
    requires
        45056 <= x <= 49151,
    ensures
        nearest_in_unit(rounded_by_shift(sum_of_terms(x, 8), 24), 24, x, 65535, 0x1_0000_0000_0000),
{
}

/// The values from 49152 to 53247: the second term has 8 bits too many and the
/// sum 24.
#[verifier::rlimit(100)]
pub proof fn lemma_n16_from_49152(x: u64)
    by (bit_vector)
    requires
        49152 <= x <= 53247,
    ensures
        nearest_in_unit(rounded_by_shift(sum_of_terms(x, 8), 24), 24, x, 65535, 0x1_0000_0000_0000),
{
}

/// The values from 53248 to 57343: the second term has 8 bits too many and the
/// sum 24.
#[verifier::rlimit(100)]
pub proof fn lemma_n16_from_53248(x: u64)
    by (bit_vector)
    requires
        53248 <= x <= 57343,
    ensures
        nearest_in_unit(rounded_by_shift(sum_of_terms(x, 8), 24), 24, x, 65535, 0x1_0000_0000_0000),
{
}

/// The values from 57344 to 61439: the second term has 8 bits too many and the
/// sum 24.
#[verifier::rlimit(100)]
pub proof fn lemma_n16_from_57344(x: u64)
    by (bit_vector)
    requires
        57344 <= x <= 61439,
    ensures
        nearest_in_unit(rounded_by_shift(sum_of_terms(x, 8), 24), 24, x, 65535, 0x1_0000_0000_0000),
{
}

/// The values from 61440 to 65534: the second term has 8 bits too many and the
/// sum 24.
#[verifier::rlimit(100)]
pub proof fn lemma_n16_from_61440(x: u64)
    by (bit_vector)
    requires
        61440 <= x <= 65534,
    ensures
        nearest_in_unit(rounded_by_shift(sum_of_terms(x, 8), 24), 24, x, 65535, 0x1_0000_0000_0000),
{
}

/// The values from 65535 to 65535: the second term has 8 bits too many and the
/// sum 25.
#[verifier::rlimit(100)]
pub proof fn lemma_n16_from_65535(x: u64)
    by (bit_vector)
    requires
        65535 <= x <= 65535,
    ensures
        nearest_in_unit(rounded_by_shift(sum_of_terms(x, 8), 25), 25, x, 65535, 0x1_0000_0000_0000),
{
}

} // verus!
