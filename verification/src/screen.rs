//! Text for the firmware teletype.
//!
//! The functions here decide which bytes are printed and in what order; they
//! append them to a byte sink. Sending each byte to the video service is left
//! to the platform.

use vstd::prelude::*;
use vstd::string::StringSliceAdditionalSpecFns;

verus! {

/// The ASCII digit for `d`, upper case from ten on.
pub open spec fn hex_digit(d: int) -> u8 {
    if d < 10 {
        (0x30 + d) as u8
    } else {
        (0x41 + (d - 10)) as u8
    }
}

/// The hexadecimal digits of `x`, most significant first, without leading
/// zeros. Zero has no digits.
pub open spec fn hex_digits(x: nat) -> Seq<u8>
    decreases x,
{
    if x == 0 {
        Seq::empty()
    } else {
        hex_digits(x / 16).push(hex_digit((x % 16) as int))
    }
}

/// What `print_hex` prints for `x`: `0x`, then the digits of `x`.
pub open spec fn hex_text(x: nat) -> Seq<u8> {
    seq![0x30u8, 0x78u8] + hex_digits(x)
}

/// 16 to the power `n`.
pub open spec fn pow16(n: nat) -> nat
    decreases n,
{
    if n == 0 {
        1
    } else {
        16 * pow16((n - 1) as nat)
    }
}

/// A number below `16^n` has at most `n` hexadecimal digits.
pub proof fn lemma_hex_digits_len(x: nat, n: nat)
    requires
        x < pow16(n),
    ensures
        hex_digits(x).len() <= n,
    decreases n,
{
    if x > 0 {
        assert(n > 0);
        lemma_hex_digits_len(x / 16, (n - 1) as nat);
    }
}

/// Prints one character.
pub fn print_char(out: &mut Vec<u8>, c: u8)
    ensures
        final(out)@ == old(out)@.push(c),
{
    out.push(c);
}

/// Prints the bytes of `s` in order.
pub fn print(out: &mut Vec<u8>, s: &str)
    ensures
        final(out)@ == old(out)@ + s.spec_bytes(),
{
    let bytes: &[u8] = s.as_bytes();
    let mut i: usize = 0;
    while i < bytes.len()
        invariant
            i <= bytes@.len(),
            out@ == old(out)@ + bytes@.subrange(0, i as int),
        decreases bytes@.len() - i,
    {
        print_char(out, bytes[i]);
        i += 1;
        assert(out@ =~= old(out)@ + bytes@.subrange(0, i as int));
    }
    assert(bytes@.subrange(0, i as int) =~= bytes@);
}

/// Prints `x` in hexadecimal: `0x`, then its digits in upper case, most
/// significant first and without leading zeros, so that zero prints as `0x`.
pub fn print_hex(out: &mut Vec<u8>, x: u32)
    ensures
        final(out)@ == old(out)@ + hex_text(x as nat),
{
    let mut buf: [u8; 8] = [0u8; 8];
    let mut i: usize = 0;
    let mut rest: u32 = x;
    let ghost mut low: Seq<u8> = Seq::empty();
    assert(pow16(8) == 0x1_0000_0000) by {
        reveal_with_fuel(pow16, 9);
    }
    while rest > 0
        invariant
            i <= 8,
            rest < pow16((8 - i) as nat),
            low.len() == i,
            forall|j: int| 0 <= j < i ==> buf@[j] == low[i - 1 - j],
            hex_digits(x as nat) == hex_digits(rest as nat) + low,
        decreases rest,
    {
        let rem: u32 = rest % 16;
        let digit: u8 = if rem < 10 {
            0x30 + rem as u8
        } else {
            0x41 + (rem - 10) as u8
        };
        proof {
            assert(i < 8) by {
                if i == 8 {
                    assert(pow16(0) == 1);
                }
            }
            assert(pow16((8 - i) as nat) == 16 * pow16((7 - i) as nat));
            assert(digit == hex_digit((rest % 16) as int));
            assert(hex_digits(rest as nat) == hex_digits((rest / 16) as nat).push(digit));
            assert(hex_digits((rest / 16) as nat).push(digit) + low =~= hex_digits(
                (rest / 16) as nat,
            ) + (seq![digit] + low));
            low = seq![digit] + low;
        }
        buf[i] = digit;
        rest = rest / 16;
        i += 1;
    }
    assert(hex_digits(x as nat) =~= low);
    print_char(out, 0x30);
    print_char(out, 0x78);
    let mut k: usize = i;
    while k > 0
        invariant
            k <= i <= 8,
            low.len() == i,
            forall|j: int| 0 <= j < i ==> buf@[j] == low[i - 1 - j],
            out@ == old(out)@ + seq![0x30u8, 0x78u8] + low.subrange(0, i - k),
        decreases k,
    {
        k -= 1;
        print_char(out, buf[k]);
        assert(out@ =~= old(out)@ + seq![0x30u8, 0x78u8] + low.subrange(0, i - k));
    }
    assert(low.subrange(0, i as int) =~= low);
    assert(old(out)@ + seq![0x30u8, 0x78u8] + low =~= old(out)@ + hex_text(x as nat));
}

} // verus!
