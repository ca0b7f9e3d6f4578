//! Reading bit fields, most significant bit first.

use vstd::arithmetic::power2::{lemma2_to64, lemma_pow2_unfold, pow2};
use vstd::prelude::*;

verus! {

/// The `i`-th bit of `data`, counted from the most significant bit of its
/// first byte.
pub open spec fn bit_at(data: Seq<u8>, i: int) -> int {
    ((data[i / 8] >> ((7 - i % 8) as u8)) & 1u8) as int
}

/// Whether `n` bits can be read from bit `pos` on.
pub open spec fn has_bits(data: Seq<u8>, pos: int, n: int) -> bool {
    pos + n <= data.len() * 8
}

/// The unsigned number that the `n` bits from `pos` on spell.
pub open spec fn field(data: Seq<u8>, pos: int, n: nat) -> int
    decreases n,
{
    if n == 0 {
        0
    } else {
        2 * field(data, pos, (n - 1) as nat) + bit_at(data, pos + n - 1)
    }
}

pub proof fn lemma_bit_range(data: Seq<u8>, i: int)
    ensures
        0 <= bit_at(data, i) <= 1,
{
    let b = data[i / 8];
    let s = (7 - i % 8) as u8;
    assert((b >> s) & 1u8 <= 1u8) by (bit_vector);
}

/// A field of `n` bits is less than two to the power of `n`.
pub proof fn lemma_field_range(data: Seq<u8>, pos: int, n: nat)
    ensures
        0 <= field(data, pos, n) < pow2(n),
    decreases n,
{
    lemma2_to64();
    if n > 0 {
        lemma_field_range(data, pos, (n - 1) as nat);
        lemma_bit_range(data, pos + n - 1);
        lemma_pow2_unfold(n);
    }
}

/// Appends one bit to the number read so far.
pub fn append_bit(v: u16, byte: u8, shift: u8) -> (out: u16)
    requires
        v < 0x8000,
        shift < 8,
    ensures
        out == 2 * v + ((byte >> shift) & 1u8),
{
    let bit: u8 = (byte >> shift) & 1;
    assert(bit <= 1) by (bit_vector)
        requires
            bit == (byte >> shift) & 1,
    ;
    2 * v + bit as u16
}

/// A position in a bit string, as a byte index and the bits used of that byte.
#[derive(Clone, Copy)]
pub struct BitCursor {
    pub byte: usize,
    pub bit: u8,
}

impl BitCursor {
    /// The number of bits before the cursor.
    pub open spec fn pos(self) -> int {
        self.byte * 8 + self.bit
    }

    /// Whether the cursor stands within `data` or at its end.
    pub open spec fn wf(self, data: Seq<u8>) -> bool {
        self.bit < 8 && self.pos() <= data.len() * 8
    }

    /// A cursor at the first bit.
    pub fn start() -> (at: Self)
        ensures
            at.pos() == 0,
            forall|data: Seq<u8>| at.wf(data),
    {
        BitCursor { byte: 0, bit: 0 }
    }

    /// Reads the next `n` bits (at most 8), or `None` when they run past the
    /// end of `data`.
    pub fn read(&mut self, data: &[u8], n: u8) -> (value: Option<u8>)
        requires
            old(self).wf(data@),
            1 <= n <= 8,
        ensures
            match value {
                Some(v) => {
                    &&& has_bits(data@, old(self).pos(), n as int)
                    &&& v == field(data@, old(self).pos(), n as nat)
                    &&& final(self).wf(data@)
                    &&& final(self).pos() == old(self).pos() + n
                },
                None => !has_bits(data@, old(self).pos(), n as int) && *final(self) == *old(self),
            },
    {
        let fits: bool = if self.bit + n <= 8 {
            self.byte < data.len()
        } else {
            self.byte < data.len() && self.byte + 1 < data.len()
        };
        if !fits {
            return None;
        }
        let ghost start = self.pos();
        let mut v: u16 = 0;
        let mut i: u8 = 0;
        while i < n
            invariant
                i <= n <= 8,
                start == old(self).pos(),
                has_bits(data@, start, n as int),
                self.wf(data@),
                self.pos() == start + i,
                v == field(data@, start, i as nat),
            decreases n - i,
        {
            proof {
                lemma_field_range(data@, start, i as nat);
                lemma_field_range(data@, start, (i + 1) as nat);
                lemma2_to64();
                assert((start + i) / 8 == self.byte && (start + i) % 8 == self.bit);
            }
            v = append_bit(v, data[self.byte], 7 - self.bit);
            if self.bit == 7 {
                self.byte = self.byte + 1;
                self.bit = 0;
            } else {
                self.bit = self.bit + 1;
            }
            i = i + 1;
        }
        proof {
            lemma_field_range(data@, start, n as nat);
            lemma2_to64();
            vstd::arithmetic::power2::lemma_pow2_strictly_increases(n as nat, 9);
        }
        Some(v as u8)
    }
}

} // verus!
