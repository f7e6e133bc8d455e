//! Small arithmetic helpers.

use vstd::prelude::*;

verus! {

/// `a / b` rounded up to the next whole number.
pub open spec fn div_ceil_spec(a: nat, b: nat) -> nat
    recommends
        b > 0,
{
    if a % b == 0 {
        a / b
    } else {
        a / b + 1
    }
}

/// `a / b` rounded up to the next whole number.
pub fn div_ceil(a: u64, b: u64) -> (r: u64)
    requires
        b > 0,
    ensures
        r as nat == div_ceil_spec(a as nat, b as nat),
        (r as nat - 1) * (b as nat) < a as nat || a == 0,
        a as nat <= (r as nat) * (b as nat),
{
    let d = a / b;
    proof {
        vstd::arithmetic::div_mod::lemma_fundamental_div_mod(a as int, b as int);
        assert((d as nat + 1) * (b as nat) == (b as nat) * (d as nat) + b) by (nonlinear_arith);
        assert((d as nat) * (b as nat) == (b as nat) * (d as nat)) by (nonlinear_arith);
        assert((d as nat - 1) * (b as nat) == (b as nat) * (d as nat) - b) by (nonlinear_arith);
        if a % b != 0 {
            assert(2 * (d as nat) <= (b as nat) * (d as nat)) by (nonlinear_arith)
                requires
                    b >= 2,
            ;
        }
    }
    if a % b != 0 {
        d + 1
    } else {
        d
    }
}

/// The largest multiple of `multiple` that is not above `value`.
pub fn round_down_to_multiple(value: u64, multiple: u64) -> (r: u64)
    requires
        multiple > 0,
    ensures
        r as nat == (value as nat / multiple as nat) * (multiple as nat),
        r <= value,
        value - r < multiple,
{
    proof {
        vstd::arithmetic::div_mod::lemma_fundamental_div_mod(value as int, multiple as int);
        assert((value as nat / multiple as nat) * (multiple as nat) == (multiple as nat) * (
        value as nat / multiple as nat)) by (nonlinear_arith);
    }
    value - (value % multiple)
}

/// The size of mipmap level `level` of a dimension whose full size is
/// `main_size`: the size halved `level` times, but never below 1.
pub open spec fn mipmap_size_spec(main_size: nat, level: nat) -> nat
    decreases level,
{
    if level == 0 {
        if main_size == 0 {
            1
        } else {
            main_size
        }
    } else {
        mipmap_size_spec(main_size / 2, (level - 1) as nat)
    }
}

/// The size of mipmap level `level` of a dimension whose full size is
/// `main_size`.
pub fn get_mipmap_size(main_size: u32, level: u8) -> (r: u32)
    ensures
        r as nat == mipmap_size_spec(main_size as nat, level as nat),
        r >= 1,
        r <= main_size || r == 1,
{
    let mut size: u32 = main_size;
    let mut done: u8 = 0;
    while done < level
        invariant
            done <= level,
            size <= main_size,
            mipmap_size_spec(main_size as nat, level as nat) == mipmap_size_spec(
                size as nat,
                (level - done) as nat,
            ),
        decreases level - done,
    {
        size = size / 2;
        done = done + 1;
    }
    if size == 0 {
        1
    } else {
        size
    }
}

/// `buf` with the two bytes of every pair exchanged.
pub open spec fn swapped_16(buf: Seq<u8>) -> Seq<u8> {
    Seq::new(buf.len(), |i: int| buf[i - i % 2 + (1 - i % 2)])
}

/// `buf` with the four bytes of every group reversed.
pub open spec fn swapped_32(buf: Seq<u8>) -> Seq<u8> {
    Seq::new(buf.len(), |i: int| buf[i - i % 4 + (3 - i % 4)])
}

/// Turns 16-bit values between little-endian and the byte order of a
/// machine. Where the machine is big-endian the bytes of every pair are
/// exchanged, else nothing changes.
pub fn le_to_native_endian_16(buf: &mut [u8], big_endian: bool)
    requires
        old(buf)@.len() % 2 == 0,
    ensures
        final(buf)@ == if big_endian { swapped_16(old(buf)@) } else { old(buf)@ },
{
    if big_endian {
        let len = buf.len();
        let mut i: usize = 0;
        while i < len
            invariant
                len == buf@.len(),
                len == old(buf)@.len(),
                len % 2 == 0,
                i % 2 == 0,
                i <= len,
                forall|j: int| 0 <= j < i ==> buf@[j] == swapped_16(old(buf)@)[j],
                forall|j: int| i <= j < len ==> buf@[j] == old(buf)@[j],
            decreases len - i,
        {
            let a = buf[i];
            let b = buf[i + 1];
            buf[i] = b;
            buf[i + 1] = a;
            i = i + 2;
        }
        assert(buf@ =~= swapped_16(old(buf)@));
    }
}

/// Turns 32-bit values between little-endian and the byte order of a
/// machine. Where the machine is big-endian the bytes of every group of
/// four are reversed, else nothing changes.
pub fn le_to_native_endian_32(buf: &mut [u8], big_endian: bool)
    requires
        old(buf)@.len() % 4 == 0,
    ensures
        final(buf)@ == if big_endian { swapped_32(old(buf)@) } else { old(buf)@ },
{
    if big_endian {
        let len = buf.len();
        let mut i: usize = 0;
        while i < len
            invariant
                len == buf@.len(),
                len == old(buf)@.len(),
                len % 4 == 0,
                i % 4 == 0,
                i <= len,
                forall|j: int| 0 <= j < i ==> buf@[j] == swapped_32(old(buf)@)[j],
                forall|j: int| i <= j < len ==> buf@[j] == old(buf)@[j],
            decreases len - i,
        {
            let a = buf[i];
            let b = buf[i + 1];
            let c = buf[i + 2];
            let d = buf[i + 3];
            buf[i] = d;
            buf[i + 1] = c;
            buf[i + 2] = b;
            buf[i + 3] = a;
            i = i + 4;
        }
        assert(buf@ =~= swapped_32(old(buf)@));
    }
}

} // verus!
