//! The 32-bit cyclic redundancy check that closes every table section
//! (polynomial `0x04C11DB7`, most significant bit first, register preset to
//! all ones, no final inversion).

use vstd::prelude::*;

verus! {

/// Generator polynomial, without its leading term.
pub const POLYNOMIAL: u32 = 0x04C1_1DB7;

/// Register value before any byte has been taken in.
pub const PRESET: u32 = 0xFFFF_FFFF;

/// Moves the register on by one bit position.
pub open spec fn shift_bit(register: u32) -> u32 {
    if register & 0x8000_0000u32 != 0 {
        (register << 1u32) ^ 0x04C1_1DB7u32
    } else {
        register << 1u32
    }
}

/// Moves the register on by `count` bit positions.
pub open spec fn shift_bits(register: u32, count: nat) -> u32
    decreases count,
{
    if count == 0 {
        register
    } else {
        shift_bit(shift_bits(register, (count - 1) as nat))
    }
}

/// Takes one byte into the register.
pub open spec fn absorb(register: u32, byte: u8) -> u32 {
    shift_bits(register ^ ((byte as u32) << 24u32), 8)
}

/// The checksum of `data`.
pub open spec fn checksum(data: Seq<u8>) -> u32
    decreases data.len(),
{
    if data.len() == 0 {
        0xFFFF_FFFFu32
    } else {
        absorb(checksum(data.drop_last()), data.last())
    }
}

fn absorb_byte(register: u32, byte: u8) -> (r: u32)
    ensures
        r == absorb(register, byte),
{
    let mut value: u32 = register ^ ((byte as u32) << 24u32);
    let mut done: u8 = 0;
    while done < 8
        invariant
            done <= 8,
            value == shift_bits(register ^ ((byte as u32) << 24u32), done as nat),
        decreases 8 - done,
    {
        value = if value & 0x8000_0000u32 != 0 {
            (value << 1u32) ^ POLYNOMIAL
        } else {
            value << 1u32
        };
        done = done + 1;
    }
    value
}

/// Computes the checksum of `data`.
pub fn crc32(data: &Vec<u8>) -> (r: u32)
    ensures
        r == checksum(data@),
{
    let mut register: u32 = PRESET;
    let mut index: usize = 0;
    while index < data.len()
        invariant
            index <= data.len(),
            register == checksum(data@.take(index as int)),
        decreases data.len() - index,
    {
        register = absorb_byte(register, data[index]);
        proof {
            let next = data@.take(index + 1);
            assert(next.drop_last() == data@.take(index as int));
            assert(next.last() == data@[index as int]);
        }
        index = index + 1;
    }
    proof {
        assert(data@.take(data.len() as int) == data@);
    }
    register
}

} // verus!
