//! Little-endian byte order, as the hardware records in this crate use it.

use vstd::prelude::*;

verus! {

/// Byte `i` of the little-endian encoding of `x`.
pub open spec fn le_byte(x: int, i: nat) -> u8
    decreases i,
{
    if i == 0 {
        (x % 0x100) as u8
    } else {
        le_byte(x / 0x100, (i - 1) as nat)
    }
}

/// The first `n` bytes of the little-endian encoding of `x`.
pub open spec fn le_bytes(x: int, n: nat) -> Seq<u8> {
    Seq::new(n, |i: int| le_byte(x, i as nat))
}

/// The number that `len` little-endian bytes of `bytes`, from `start` on,
/// encode.
pub open spec fn le_value(bytes: Seq<u8>, start: int, len: nat) -> int
    decreases len,
{
    if len == 0 {
        0
    } else {
        bytes[start] + 0x100 * le_value(bytes, start + 1, (len - 1) as nat)
    }
}

/// Shifting right by whole bytes and keeping the low byte picks a byte of
/// the little-endian encoding.
pub proof fn lemma_shift_is_le_byte(x: u64, i: u32)
    requires
        i < 8,
    ensures
        le_byte(x as int, i as nat) == ((x >> (8 * i)) % 0x100) as u8,
    decreases i,
{
    if i == 0 {
        assert(x >> 0 == x) by (bit_vector);
    } else {
        let y: u64 = x >> 8;
        assert(y == x / 0x100) by (bit_vector)
            requires
                y == x >> 8,
        ;
        lemma_shift_is_le_byte(y, (i - 1) as u32);
        let j: u32 = (i - 1) as u32;
        assert((x >> 8) >> (8 * j) == x >> (8 * (j + 1))) by (bit_vector)
            requires
                j < 7,
        ;
    }
}

/// Byte `i` of `x`, counted from the least significant.
pub fn byte_of_u64(x: u64, i: u32) -> (b: u8)
    requires
        i < 8,
    ensures
        b == le_byte(x as int, i as nat),
{
    let shifted: u64 = x >> (8 * i);
    proof {
        lemma_shift_is_le_byte(x, i);
    }
    assert(shifted & 0xff == shifted % 0x100) by (bit_vector);
    (shifted & 0xff) as u8
}

/// The `u64` whose little-endian encoding is `bytes`.
pub fn u64_from_le_bytes(bytes: &[u8; 8]) -> (x: u64)
    ensures
        le_bytes(x as int, 8) == bytes@,
        x == le_value(bytes@, 0, 8),
{
    let b0: u64 = bytes[0] as u64;
    let b1: u64 = bytes[1] as u64;
    let b2: u64 = bytes[2] as u64;
    let b3: u64 = bytes[3] as u64;
    let b4: u64 = bytes[4] as u64;
    let b5: u64 = bytes[5] as u64;
    let b6: u64 = bytes[6] as u64;
    let b7: u64 = bytes[7] as u64;
    let x: u64 = b0 | b1 << 8 | b2 << 16 | b3 << 24 | b4 << 32 | b5 << 40 | b6 << 48 | b7 << 56;
    assert({
        &&& (x >> 0) % 0x100 == b0
        &&& (x >> 8) % 0x100 == b1
        &&& (x >> 16) % 0x100 == b2
        &&& (x >> 24) % 0x100 == b3
        &&& (x >> 32) % 0x100 == b4
        &&& (x >> 40) % 0x100 == b5
        &&& (x >> 48) % 0x100 == b6
        &&& (x >> 56) % 0x100 == b7
        &&& x == b0 + 0x100 * (b1 + 0x100 * (b2 + 0x100 * (b3 + 0x100 * (b4 + 0x100 * (b5 + 0x100
            * (b6 + 0x100 * b7))))))
    }) by (bit_vector)
        requires
            x == b0 | b1 << 8 | b2 << 16 | b3 << 24 | b4 << 32 | b5 << 40 | b6 << 48 | b7 << 56,
            b0 < 0x100,
            b1 < 0x100,
            b2 < 0x100,
            b3 < 0x100,
            b4 < 0x100,
            b5 < 0x100,
            b6 < 0x100,
            b7 < 0x100,
    ;
    proof {
        lemma_shift_is_le_byte(x, 0);
        lemma_shift_is_le_byte(x, 1);
        lemma_shift_is_le_byte(x, 2);
        lemma_shift_is_le_byte(x, 3);
        lemma_shift_is_le_byte(x, 4);
        lemma_shift_is_le_byte(x, 5);
        lemma_shift_is_le_byte(x, 6);
        lemma_shift_is_le_byte(x, 7);
        assert(le_bytes(x as int, 8) =~= bytes@);
        reveal_with_fuel(le_value, 9);
    }
    x
}

/// The eight bytes of `x`, least significant first.
pub fn u64_to_le_bytes(x: u64) -> (bytes: [u8; 8])
    ensures
        bytes@ == le_bytes(x as int, 8),
{
    let bytes: [u8; 8] = [
        byte_of_u64(x, 0),
        byte_of_u64(x, 1),
        byte_of_u64(x, 2),
        byte_of_u64(x, 3),
        byte_of_u64(x, 4),
        byte_of_u64(x, 5),
        byte_of_u64(x, 6),
        byte_of_u64(x, 7),
    ];
    assert(bytes@ =~= le_bytes(x as int, 8));
    bytes
}

} // verus!
