//! Fixed-width lowercase hexadecimal renderings of words: how numeric and
//! hash values appear inside the structured-text document.

use crate::errors::BlockError;
use vstd::prelude::*;

verus! {

/// The lowercase hexadecimal digit of a nibble.
pub open spec fn hex_digit(n: u8) -> u8
    recommends
        n < 16,
{
    if n < 10 {
        (48 + n) as u8
    } else {
        (87 + n) as u8
    }
}

/// Whether a byte is a lowercase hexadecimal digit.
pub open spec fn is_hex_digit(c: u8) -> bool {
    (48 <= c && c <= 57) || (97 <= c && c <= 102)
}

/// The nibble a lowercase hexadecimal digit denotes.
pub open spec fn hex_val(c: u8) -> u8
    recommends
        is_hex_digit(c),
{
    if c <= 57 {
        (c - 48) as u8
    } else {
        (c - 87) as u8
    }
}

/// Whether every byte of the string is a lowercase hexadecimal digit.
pub open spec fn all_hex(s: Seq<u8>) -> bool {
    forall|i: int| 0 <= i < s.len() ==> is_hex_digit(#[trigger] s[i])
}

/// The 16 hexadecimal digits of a 64-bit word, most significant first.
pub open spec fn u64_hex(x: u64) -> Seq<u8> {
    Seq::new(16, |i: int| hex_digit(((x >> ((15 - i) * 4)) & 0xf) as u8))
}

/// The 8 hexadecimal digits of a 32-bit word, most significant first.
pub open spec fn u32_hex(x: u32) -> Seq<u8> {
    Seq::new(8, |i: int| hex_digit(((x >> ((7 - i) * 4)) & 0xf) as u8))
}

/// The 64-bit word denoted by 16 hexadecimal digits.
pub open spec fn u64_from_hex(s: Seq<u8>) -> u64
    recommends
        s.len() == 16,
        all_hex(s),
{
    ((hex_val(s[0]) as u64) << 60) | ((hex_val(s[1]) as u64) << 56) | ((hex_val(s[2]) as u64)
        << 52) | ((hex_val(s[3]) as u64) << 48) | ((hex_val(s[4]) as u64) << 44) | ((hex_val(
        s[5],
    ) as u64) << 40) | ((hex_val(s[6]) as u64) << 36) | ((hex_val(s[7]) as u64) << 32) | ((
    hex_val(s[8]) as u64) << 28) | ((hex_val(s[9]) as u64) << 24) | ((hex_val(s[10]) as u64)
        << 20) | ((hex_val(s[11]) as u64) << 16) | ((hex_val(s[12]) as u64) << 12) | ((hex_val(
        s[13],
    ) as u64) << 8) | ((hex_val(s[14]) as u64) << 4) | (hex_val(s[15]) as u64)
}

/// The 32-bit word denoted by 8 hexadecimal digits.
pub open spec fn u32_from_hex(s: Seq<u8>) -> u32
    recommends
        s.len() == 8,
        all_hex(s),
{
    ((hex_val(s[0]) as u32) << 28) | ((hex_val(s[1]) as u32) << 24) | ((hex_val(s[2]) as u32)
        << 20) | ((hex_val(s[3]) as u32) << 16) | ((hex_val(s[4]) as u32) << 12) | ((hex_val(
        s[5],
    ) as u32) << 8) | ((hex_val(s[6]) as u32) << 4) | (hex_val(s[7]) as u32)
}


/// A nibble extracted by shift and mask is below 16.
pub proof fn lemma_nibble_bound(x: u64, sh: u64)
    ensures
        ((x >> sh) & 0xf) < 16,
{
    assert(((x >> sh) & 0xf) < 16) by (bit_vector);
}

/// A nibble extracted from a 32-bit word is below 16.
pub proof fn lemma_nibble_bound_u32(x: u32, sh: u32)
    ensures
        ((x >> sh) & 0xf) < 16,
{
    assert(((x >> sh) & 0xf) < 16) by (bit_vector);
}

/// The digit of a nibble denotes the nibble back.
pub proof fn lemma_hex_digit_val(n: u8)
    requires
        n < 16,
    ensures
        is_hex_digit(hex_digit(n)),
        hex_val(hex_digit(n)) == n,
{
}

/// Reading back the hexadecimal digits of a word yields the word, and every
/// digit written is a digit.
pub proof fn lemma_u64_hex_round_trip(x: u64)
    ensures
        all_hex(u64_hex(x)),
        u64_from_hex(u64_hex(x)) == x,
{
    assert forall|i: int| 0 <= i < 16 implies is_hex_digit(#[trigger] u64_hex(x)[i]) && hex_val(
        u64_hex(x)[i],
    ) == ((x >> ((15 - i) * 4)) & 0xf) as u8 by {
        let sh = (15 - i) * 4;
        lemma_nibble_bound(x, sh as u64);
        assert((x >> sh) == (x >> (sh as u64)));
        lemma_hex_digit_val(((x >> sh) & 0xf) as u8);
    }
    assert(((((x >> 60) & 0xf) as u8 as u64) << 60) | ((((x >> 56) & 0xf) as u8 as u64) << 56) | ((
    ((x >> 52) & 0xf) as u8 as u64) << 52) | ((((x >> 48) & 0xf) as u8 as u64) << 48) | ((((x
        >> 44) & 0xf) as u8 as u64) << 44) | ((((x >> 40) & 0xf) as u8 as u64) << 40) | ((((x
        >> 36) & 0xf) as u8 as u64) << 36) | ((((x >> 32) & 0xf) as u8 as u64) << 32) | ((((x
        >> 28) & 0xf) as u8 as u64) << 28) | ((((x >> 24) & 0xf) as u8 as u64) << 24) | ((((x
        >> 20) & 0xf) as u8 as u64) << 20) | ((((x >> 16) & 0xf) as u8 as u64) << 16) | ((((x
        >> 12) & 0xf) as u8 as u64) << 12) | ((((x >> 8) & 0xf) as u8 as u64) << 8) | ((((x >> 4)
        & 0xf) as u8 as u64) << 4) | (((x >> 0) & 0xf) as u8 as u64) == x) by (bit_vector);
}

/// Reading back the hexadecimal digits of a 32-bit word yields the word.
pub proof fn lemma_u32_hex_round_trip(x: u32)
    ensures
        all_hex(u32_hex(x)),
        u32_from_hex(u32_hex(x)) == x,
{
    assert forall|i: int| 0 <= i < 8 implies is_hex_digit(#[trigger] u32_hex(x)[i]) && hex_val(
        u32_hex(x)[i],
    ) == ((x >> ((7 - i) * 4)) & 0xf) as u8 by {
        let sh = (7 - i) * 4;
        lemma_nibble_bound_u32(x, sh as u32);
        assert((x >> sh) == (x >> (sh as u32)));
        lemma_hex_digit_val(((x >> sh) & 0xf) as u8);
    }
    assert(((((x >> 28) & 0xf) as u8 as u32) << 28) | ((((x >> 24) & 0xf) as u8 as u32) << 24) | ((
    ((x >> 20) & 0xf) as u8 as u32) << 20) | ((((x >> 16) & 0xf) as u8 as u32) << 16) | ((((x
        >> 12) & 0xf) as u8 as u32) << 12) | ((((x >> 8) & 0xf) as u8 as u32) << 8) | ((((x >> 4)
        & 0xf) as u8 as u32) << 4) | (((x >> 0) & 0xf) as u8 as u32) == x) by (bit_vector);
}

/// Decides whether a byte is a lowercase hexadecimal digit.
pub fn is_hex_byte(c: u8) -> (r: bool)
    ensures
        r == is_hex_digit(c),
{
    (48 <= c && c <= 57) || (97 <= c && c <= 102)
}

/// The nibble a digit denotes.
pub fn hex_val_byte(c: u8) -> (r: u8)
    requires
        is_hex_digit(c),
    ensures
        r == hex_val(c),
{
    if c <= 57 {
        c - 48
    } else {
        c - 87
    }
}

/// Appends the 16 hexadecimal digits of `x`.
pub fn push_u64_hex(out: &mut Vec<u8>, x: u64)
    ensures
        final(out)@ == old(out)@ + u64_hex(x),
{
    let mut i: usize = 0;
    while i < 16
        invariant
            i <= 16,
            out@ == old(out)@ + u64_hex(x).take(i as int),
        decreases 16 - i,
    {
        let sh: u64 = 60 - 4 * (i as u64);
        let nib = ((x >> sh) & 0xf) as u8;
        proof {
            assert(((x >> sh) & 0xf) < 16) by (bit_vector);
        }
        let d = if nib < 10 {
            48 + nib
        } else {
            87 + nib
        };
        out.push(d);
        i = i + 1;
        proof {
            assert(u64_hex(x)[i - 1] == d);
            assert(u64_hex(x).take(i as int) =~= u64_hex(x).take(i - 1).push(u64_hex(x)[i - 1]));
        }
    }
    proof {
        assert(u64_hex(x).take(16) =~= u64_hex(x));
    }
}

/// Appends the 8 hexadecimal digits of the 32-bit word `x`.
pub fn push_u32_hex(out: &mut Vec<u8>, x: u32)
    ensures
        final(out)@ == old(out)@ + u32_hex(x),
{
    let mut i: usize = 0;
    while i < 8
        invariant
            i <= 8,
            out@ == old(out)@ + u32_hex(x).take(i as int),
        decreases 8 - i,
    {
        let sh: u32 = 28 - 4 * (i as u32);
        let nib = ((x >> sh) & 0xf) as u8;
        proof {
            assert(((x >> sh) & 0xf) < 16) by (bit_vector);
        }
        let d = if nib < 10 {
            48 + nib
        } else {
            87 + nib
        };
        out.push(d);
        i = i + 1;
        proof {
            assert(u32_hex(x)[i - 1] == d);
            assert(u32_hex(x).take(i as int) =~= u32_hex(x).take(i - 1).push(u32_hex(x)[i - 1]));
        }
    }
    proof {
        assert(u32_hex(x).take(8) =~= u32_hex(x));
    }
}

/// Reads the 64-bit word whose 16 hexadecimal digits sit at `pos`; fails
/// exactly when one of those bytes is no digit.
#[verifier::loop_isolation(false)]
pub fn parse_u64_hex(s: &Vec<u8>, pos: usize) -> (r: Result<u64, BlockError>)
    requires
        pos + 16 <= s@.len(),
    ensures
        all_hex(s@.subrange(pos as int, pos as int + 16)) ==> r == Ok::<u64, BlockError>(
            u64_from_hex(s@.subrange(pos as int, pos as int + 16)),
        ),
        !all_hex(s@.subrange(pos as int, pos as int + 16)) ==> r == Err::<u64, BlockError>(
            BlockError::MalformedDocument,
        ),
{
    let n = s.len();
    let ghost sub = s@.subrange(pos as int, pos as int + 16);
    let mut i: usize = 0;
    while i < 16
        invariant
            i <= 16,
            pos + 16 <= s@.len(),
            sub == s@.subrange(pos as int, pos as int + 16),
            forall|j: int| 0 <= j < i ==> is_hex_digit(#[trigger] sub[j]),
        decreases 16 - i,
    {
        if !is_hex_byte(s[pos + i]) {
            proof {
                assert(sub[i as int] == s@[pos + i]);
            }
            return Err(BlockError::MalformedDocument);
        }
        i = i + 1;
    }
    proof {
        assert(all_hex(sub));
        assert forall|j: int| 0 <= j < 16 implies is_hex_digit(#[trigger] s@[pos + j]) by {
            assert(sub[j] == s@[pos + j]);
        }
        assert(sub[0] == s@[pos as int]);
        assert(is_hex_digit(s@[pos as int]));
    }
    let x = ((hex_val_byte(s[pos]) as u64) << 60u64) | ((hex_val_byte(s[pos + 1]) as u64)
        << 56u64) | ((hex_val_byte(s[pos + 2]) as u64) << 52u64) | ((hex_val_byte(s[pos + 3])
        as u64) << 48u64) | ((hex_val_byte(s[pos + 4]) as u64) << 44u64) | ((hex_val_byte(
        s[pos + 5],
    ) as u64) << 40u64) | ((hex_val_byte(s[pos + 6]) as u64) << 36u64) | ((hex_val_byte(
        s[pos + 7],
    ) as u64) << 32u64) | ((hex_val_byte(s[pos + 8]) as u64) << 28u64) | ((hex_val_byte(
        s[pos + 9],
    ) as u64) << 24u64) | ((hex_val_byte(s[pos + 10]) as u64) << 20u64) | ((hex_val_byte(
        s[pos + 11],
    ) as u64) << 16u64) | ((hex_val_byte(s[pos + 12]) as u64) << 12u64) | ((hex_val_byte(
        s[pos + 13],
    ) as u64) << 8u64) | ((hex_val_byte(s[pos + 14]) as u64) << 4u64) | (hex_val_byte(s[pos + 15])
        as u64);
    Ok(x)
}

/// Reads the 32-bit word whose 8 hexadecimal digits sit at `pos`.
#[verifier::loop_isolation(false)]
pub fn parse_u32_hex(s: &Vec<u8>, pos: usize) -> (r: Result<u32, BlockError>)
    requires
        pos + 8 <= s@.len(),
    ensures
        all_hex(s@.subrange(pos as int, pos as int + 8)) ==> r == Ok::<u32, BlockError>(
            u32_from_hex(s@.subrange(pos as int, pos as int + 8)),
        ),
        !all_hex(s@.subrange(pos as int, pos as int + 8)) ==> r == Err::<u32, BlockError>(
            BlockError::MalformedDocument,
        ),
{
    let n = s.len();
    let ghost sub = s@.subrange(pos as int, pos as int + 8);
    let mut i: usize = 0;
    while i < 8
        invariant
            i <= 8,
            pos + 8 <= s@.len(),
            sub == s@.subrange(pos as int, pos as int + 8),
            forall|j: int| 0 <= j < i ==> is_hex_digit(#[trigger] sub[j]),
        decreases 8 - i,
    {
        if !is_hex_byte(s[pos + i]) {
            proof {
                assert(sub[i as int] == s@[pos + i]);
            }
            return Err(BlockError::MalformedDocument);
        }
        i = i + 1;
    }
    proof {
        assert(all_hex(sub));
        assert forall|j: int| 0 <= j < 8 implies is_hex_digit(#[trigger] s@[pos + j]) by {
            assert(sub[j] == s@[pos + j]);
        }
        assert(sub[0] == s@[pos as int]);
        assert(is_hex_digit(s@[pos as int]));
    }
    let x = ((hex_val_byte(s[pos]) as u32) << 28u32) | ((hex_val_byte(s[pos + 1]) as u32)
        << 24u32) | ((hex_val_byte(s[pos + 2]) as u32) << 20u32) | ((hex_val_byte(s[pos + 3])
        as u32) << 16u32) | ((hex_val_byte(s[pos + 4]) as u32) << 12u32) | ((hex_val_byte(
        s[pos + 5],
    ) as u32) << 8u32) | ((hex_val_byte(s[pos + 6]) as u32) << 4u32) | (hex_val_byte(s[pos + 7])
        as u32);
    Ok(x)
}


/// A valid digit denotes a nibble that renders back as the same digit.
pub proof fn lemma_hex_val_digit(c: u8)
    requires
        is_hex_digit(c),
    ensures
        hex_val(c) < 16,
        hex_digit(hex_val(c)) == c,
{
}

/// Writing back the word read from 16 valid digits yields the same digits:
/// the digit reading is injective.
pub proof fn lemma_u64_from_hex_inverse(s: Seq<u8>)
    requires
        s.len() == 16,
        all_hex(s),
    ensures
        u64_hex(u64_from_hex(s)) =~= s,
{
    let n0 = hex_val(s[0]);
    let n1 = hex_val(s[1]);
    let n2 = hex_val(s[2]);
    let n3 = hex_val(s[3]);
    let n4 = hex_val(s[4]);
    let n5 = hex_val(s[5]);
    let n6 = hex_val(s[6]);
    let n7 = hex_val(s[7]);
    let n8 = hex_val(s[8]);
    let n9 = hex_val(s[9]);
    let n10 = hex_val(s[10]);
    let n11 = hex_val(s[11]);
    let n12 = hex_val(s[12]);
    let n13 = hex_val(s[13]);
    let n14 = hex_val(s[14]);
    let n15 = hex_val(s[15]);
    assert forall|i: int| 0 <= i < 16 implies hex_val(#[trigger] s[i]) < 16 by {
        lemma_hex_val_digit(s[i]);
    }
    let x = u64_from_hex(s);
    assert(((x >> 60) & 0xf) as u8 == n0 && ((x >> 56) & 0xf) as u8 == n1 && ((x >> 52) & 0xf)
        as u8 == n2 && ((x >> 48) & 0xf) as u8 == n3 && ((x >> 44) & 0xf) as u8 == n4 && ((x
        >> 40) & 0xf) as u8 == n5 && ((x >> 36) & 0xf) as u8 == n6 && ((x >> 32) & 0xf) as u8
        == n7 && ((x >> 28) & 0xf) as u8 == n8 && ((x >> 24) & 0xf) as u8 == n9 && ((x >> 20)
        & 0xf) as u8 == n10 && ((x >> 16) & 0xf) as u8 == n11 && ((x >> 12) & 0xf) as u8 == n12
        && ((x >> 8) & 0xf) as u8 == n13 && ((x >> 4) & 0xf) as u8 == n14 && ((x >> 0) & 0xf)
        as u8 == n15) by (bit_vector)
        requires
            n0 < 16 && n1 < 16 && n2 < 16 && n3 < 16 && n4 < 16 && n5 < 16 && n6 < 16 && n7 < 16
                && n8 < 16 && n9 < 16 && n10 < 16 && n11 < 16 && n12 < 16 && n13 < 16 && n14 < 16
                && n15 < 16,
            x == ((n0 as u64) << 60) | ((n1 as u64) << 56) | ((n2 as u64) << 52) | ((n3 as u64)
                << 48) | ((n4 as u64) << 44) | ((n5 as u64) << 40) | ((n6 as u64) << 36) | ((
            n7 as u64) << 32) | ((n8 as u64) << 28) | ((n9 as u64) << 24) | ((n10 as u64) << 20)
                | ((n11 as u64) << 16) | ((n12 as u64) << 12) | ((n13 as u64) << 8) | ((n14
                as u64) << 4) | (n15 as u64),
    ;
    assert forall|i: int| 0 <= i < 16 implies u64_hex(x)[i] == s[i] by {
        let sh = (15 - i) * 4;
        assert((x >> sh) == (x >> (sh as u64)));
        lemma_hex_val_digit(s[i]);
    }
}

} // verus!
