//! What the pixel codes of DVB subtitle objects stand for, code by code
//! (EN 300 743 §7.2.5).

use vstd::arithmetic::power2::{lemma2_to64, lemma_pow2_unfold, pow2};
use vstd::prelude::*;
use crate::bits::{bit_at, field, has_bits, lemma_field_range};
use crate::ts::pixel_codes::{pixels_2bit, pixels_4bit, pixels_8bit, repeated};

verus! {

/// A line of `n` equal pixels.
pub open spec fn line_of(n: int, colour: int) -> Seq<u8> {
    Seq::new(n as nat, |i: int| colour as u8)
}

/// Bits are read from the most significant one on: eight bits from the start
/// of a byte are that byte.
pub proof fn whole_bytes_are_read(d: Seq<u8>, i: int)
    requires
        0 <= i < d.len(),
    ensures
        field(d, 8 * i, 8) == d[i],
{
    let b = d[i];
    assert forall|k: int| 0 <= k < 8 implies #[trigger] bit_at(d, 8 * i + k) == ((b >> ((7
        - k) as u8)) & 1u8) as int by {
        assert((8 * i + k) / 8 == i);
        assert((8 * i + k) % 8 == k);
    }
    reveal_with_fuel(field, 9);
    assert(bit_at(d, 8 * i + 0) == ((b >> 7u8) & 1u8) as int);
    assert(bit_at(d, 8 * i + 1) == ((b >> 6u8) & 1u8) as int);
    assert(bit_at(d, 8 * i + 2) == ((b >> 5u8) & 1u8) as int);
    assert(bit_at(d, 8 * i + 3) == ((b >> 4u8) & 1u8) as int);
    assert(bit_at(d, 8 * i + 4) == ((b >> 3u8) & 1u8) as int);
    assert(bit_at(d, 8 * i + 5) == ((b >> 2u8) & 1u8) as int);
    assert(bit_at(d, 8 * i + 6) == ((b >> 1u8) & 1u8) as int);
    assert(bit_at(d, 8 * i + 7) == ((b >> 0u8) & 1u8) as int);
    assert(b == 128 * ((b >> 7u8) & 1u8) + 64 * ((b >> 6u8) & 1u8) + 32 * ((b >> 5u8) & 1u8) + 16
        * ((b >> 4u8) & 1u8) + 8 * ((b >> 3u8) & 1u8) + 4 * ((b >> 2u8) & 1u8) + 2 * ((b >> 1u8)
        & 1u8) + ((b >> 0u8) & 1u8)) by (bit_vector);
}

/// A field is the number that its first part and its last part spell one after
/// the other.
pub proof fn fields_join(d: Seq<u8>, pos: int, first: nat, last: nat)
    ensures
        field(d, pos, first + last) == field(d, pos, first) * pow2(last) + field(
            d,
            pos + first,
            last,
        ),
    decreases last,
{
    lemma2_to64();
    if last > 0 {
        fields_join(d, pos, first, (last - 1) as nat);
        lemma_pow2_unfold(last);
        let a = field(d, pos, first);
        let p = pow2((last - 1) as nat) as int;
        assert(2 * (a * p) == a * (2 * p)) by (nonlinear_arith);
        assert(pos + first + last - 1 == (pos + first) + last - 1);
    } else {
        assert(field(d, pos, first) * 1 == field(d, pos, first)) by (nonlinear_arith);
    }
}

/// The codes of an 8-bit/pixel string at byte `p`: a byte other than zero is
/// one pixel; behind a zero, a length up to 127 is that many pixels of colour
/// 0, and one with the top bit set is that many of the colour behind it; two
/// zeros end the string.
pub proof fn eight_bit_codes(d: Seq<u8>, p: int)
    requires
        0 <= p < d.len(),
    ensures
        d[p] != 0 ==> pixels_8bit(d, p) == line_of(1, d[p] as int) + pixels_8bit(d, p + 1),
        d[p] == 0 && p + 1 < d.len() && d[p + 1] == 0 ==> pixels_8bit(d, p).len() == 0,
        d[p] == 0 && p + 1 < d.len() && 1 <= d[p + 1] <= 127 ==> pixels_8bit(d, p) == line_of(
            d[p + 1] as int,
            0,
        ) + pixels_8bit(d, p + 2),
        d[p] == 0 && p + 2 < d.len() && 128 <= d[p + 1] ==> pixels_8bit(d, p) == line_of(
            d[p + 1] - 128,
            d[p + 2] as int,
        ) + pixels_8bit(d, p + 3),
{
    assert(forall|n: int, c: int| line_of(n, c) =~= repeated(n, c));
}

/// The codes of a 4-bit/pixel string at bit `p`, by their bits: `cccc` other
/// than zero is one pixel; `0000 0LLL` is L + 2 pixels of colour 0 for L from 1
/// on, and the end for 0; `0000 10LL cccc` is L + 4 pixels; `0000 1100` is one
/// and `0000 1101` two pixels of colour 0; `0000 1110 LLLL cccc` is L + 9, and
/// `0000 1111 LLLLLLLL cccc` is L + 25 pixels.
pub proof fn four_bit_codes(d: Seq<u8>, p: int)
    requires
        0 <= p,
    ensures
        has_bits(d, p, 4) && field(d, p, 4) != 0 ==> pixels_4bit(d, p) == line_of(
            1,
            field(d, p, 4),
        ) + pixels_4bit(d, p + 4),
        has_bits(d, p, 8) && field(d, p, 8) == 0 ==> pixels_4bit(d, p).len() == 0,
        has_bits(d, p, 8) && 1 <= field(d, p, 8) <= 7 ==> pixels_4bit(d, p) == line_of(
            field(d, p, 8) + 2,
            0,
        ) + pixels_4bit(d, p + 8),
        has_bits(d, p, 12) && 8 <= field(d, p, 8) <= 11 ==> pixels_4bit(d, p) == line_of(
            field(d, p, 8) - 8 + 4,
            field(d, p + 8, 4),
        ) + pixels_4bit(d, p + 12),
        has_bits(d, p, 8) && field(d, p, 8) == 12 ==> pixels_4bit(d, p) == line_of(1, 0)
            + pixels_4bit(d, p + 8),
        has_bits(d, p, 8) && field(d, p, 8) == 13 ==> pixels_4bit(d, p) == line_of(2, 0)
            + pixels_4bit(d, p + 8),
        has_bits(d, p, 16) && field(d, p, 8) == 14 ==> pixels_4bit(d, p) == line_of(
            field(d, p + 8, 4) + 9,
            field(d, p + 12, 4),
        ) + pixels_4bit(d, p + 16),
        has_bits(d, p, 20) && field(d, p, 8) == 15 ==> pixels_4bit(d, p) == line_of(
            field(d, p + 8, 8) + 25,
            field(d, p + 16, 4),
        ) + pixels_4bit(d, p + 20),
{
    lemma2_to64();
    assert(forall|n: int, c: int| line_of(n, c) =~= repeated(n, c));
    fields_join(d, p, 4, 4);
    fields_join(d, p + 4, 1, 3);
    fields_join(d, p + 5, 1, 2);
    lemma_field_range(d, p, 4);
    lemma_field_range(d, p + 4, 4);
    lemma_field_range(d, p + 4, 1);
    lemma_field_range(d, p + 5, 3);
    lemma_field_range(d, p + 5, 1);
    lemma_field_range(d, p + 6, 2);
}

/// The codes of a 2-bit/pixel string at bit `p`, by their bits: `cc` other than
/// zero is one pixel; `00 1LLL cc` is L + 3 pixels; `00 01` is one and
/// `00 0001` two pixels of colour 0; `00 0010 LLLL cc` is L + 12, and
/// `00 0011 LLLLLLLL cc` is L + 29 pixels; `00 0000` ends the string.
pub proof fn two_bit_codes(d: Seq<u8>, p: int)
    requires
        0 <= p,
    ensures
        has_bits(d, p, 2) && field(d, p, 2) != 0 ==> pixels_2bit(d, p) == line_of(
            1,
            field(d, p, 2),
        ) + pixels_2bit(d, p + 2),
        has_bits(d, p, 8) && 8 <= field(d, p, 6) <= 15 ==> pixels_2bit(d, p) == line_of(
            field(d, p, 6) - 8 + 3,
            field(d, p + 6, 2),
        ) + pixels_2bit(d, p + 8),
        has_bits(d, p, 4) && field(d, p, 4) == 1 ==> pixels_2bit(d, p) == line_of(1, 0)
            + pixels_2bit(d, p + 4),
        has_bits(d, p, 6) && field(d, p, 6) == 1 ==> pixels_2bit(d, p) == line_of(2, 0)
            + pixels_2bit(d, p + 6),
        has_bits(d, p, 12) && field(d, p, 6) == 2 ==> pixels_2bit(d, p) == line_of(
            field(d, p + 6, 4) + 12,
            field(d, p + 10, 2),
        ) + pixels_2bit(d, p + 12),
        has_bits(d, p, 16) && field(d, p, 6) == 3 ==> pixels_2bit(d, p) == line_of(
            field(d, p + 6, 8) + 29,
            field(d, p + 14, 2),
        ) + pixels_2bit(d, p + 16),
        has_bits(d, p, 6) && field(d, p, 6) == 0 ==> pixels_2bit(d, p).len() == 0,
{
    lemma2_to64();
    assert(forall|n: int, c: int| line_of(n, c) =~= repeated(n, c));
    fields_join(d, p, 2, 4);
    fields_join(d, p, 2, 2);
    fields_join(d, p + 2, 1, 3);
    fields_join(d, p + 2, 1, 1);
    fields_join(d, p + 3, 1, 2);
    lemma_field_range(d, p, 2);
    lemma_field_range(d, p + 2, 4);
    lemma_field_range(d, p + 2, 2);
    lemma_field_range(d, p + 2, 1);
    lemma_field_range(d, p + 3, 1);
    lemma_field_range(d, p + 3, 3);
    lemma_field_range(d, p + 4, 2);
}

/// A string that stops within a code ends there, with what came before it; only
/// a single zero at the end of an 8-bit/pixel string is a pixel of colour 0.
pub proof fn cut_codes_end_the_string(d: Seq<u8>, p: int)
    requires
        0 <= p,
    ensures
        p >= d.len() ==> pixels_8bit(d, p).len() == 0,
        p == d.len() - 1 && d[p] == 0 ==> pixels_8bit(d, p) == line_of(1, 0),
        p == d.len() - 2 && d[p] == 0 && d[p + 1] >= 128 ==> pixels_8bit(d, p).len() == 0,
        !has_bits(d, p, 4) ==> pixels_4bit(d, p).len() == 0,
        has_bits(d, p, 8) && !has_bits(d, p, 12) && 8 <= field(d, p, 8) <= 11 ==> pixels_4bit(
            d,
            p,
        ).len() == 0,
        has_bits(d, p, 8) && !has_bits(d, p, 16) && field(d, p, 8) == 14 ==> pixels_4bit(d, p).len()
            == 0,
        has_bits(d, p, 8) && !has_bits(d, p, 20) && field(d, p, 8) == 15 ==> pixels_4bit(d, p).len()
            == 0,
        !has_bits(d, p, 2) ==> pixels_2bit(d, p).len() == 0,
        has_bits(d, p, 6) && !has_bits(d, p, 8) && 8 <= field(d, p, 6) <= 15 ==> pixels_2bit(
            d,
            p,
        ).len() == 0,
        has_bits(d, p, 6) && !has_bits(d, p, 12) && field(d, p, 6) == 2 ==> pixels_2bit(d, p).len()
            == 0,
        has_bits(d, p, 6) && !has_bits(d, p, 16) && field(d, p, 6) == 3 ==> pixels_2bit(d, p).len()
            == 0,
{
    lemma2_to64();
    fields_join(d, p, 4, 4);
    fields_join(d, p + 4, 1, 3);
    fields_join(d, p + 5, 1, 2);
    lemma_field_range(d, p, 4);
    lemma_field_range(d, p + 4, 4);
    lemma_field_range(d, p + 4, 1);
    lemma_field_range(d, p + 5, 3);
    lemma_field_range(d, p + 5, 1);
    lemma_field_range(d, p + 6, 2);
    fields_join(d, p, 2, 4);
    fields_join(d, p + 2, 1, 3);
    fields_join(d, p + 3, 1, 2);
    lemma_field_range(d, p, 2);
    lemma_field_range(d, p + 2, 4);
    lemma_field_range(d, p + 2, 1);
    lemma_field_range(d, p + 3, 1);
    lemma_field_range(d, p + 3, 3);
    lemma_field_range(d, p + 4, 2);
    if p == d.len() - 1 && d[p] == 0 {
        assert(pixels_8bit(d, p + 1) =~= Seq::empty());
        assert(pixels_8bit(d, p) =~= line_of(1, 0));
    }
}

} // verus!
