//! Bit-packed availability bitstreams.

use vstd::prelude::*;

verus! {

/// A stream of bits, held in a bit vector of bitvec that stores them in
/// bytes from the least significant bit up.
#[verifier::external_body]
pub struct BitStream {
    bits: bitvec::vec::BitVec<u8, bitvec::order::Lsb0>,
}

/// The bits that a stream holds, first pushed first.
pub uninterp spec fn bit_stream_bits(stream: BitStream) -> Seq<bool>;

/// The most bits a bit vector can hold.
pub open spec fn max_bits() -> nat {
    (usize::MAX / 8) as nat
}

/// Byte `at` of the packing of `bits`: bit `j` of the byte is bit
/// `8 * at + j` of the stream, and bits past the end of the stream are zero.
pub open spec fn packed_byte(bits: Seq<bool>, at: int) -> u8 {
    (bit_value(bits, 8 * at, 1) + bit_value(bits, 8 * at + 1, 2) + bit_value(bits, 8 * at + 2, 4)
        + bit_value(bits, 8 * at + 3, 8) + bit_value(bits, 8 * at + 4, 16) + bit_value(
        bits,
        8 * at + 5,
        32,
    ) + bit_value(bits, 8 * at + 6, 64) + bit_value(bits, 8 * at + 7, 128)) as u8
}

/// `weight` if bit `at` of the stream is set, else zero.
pub open spec fn bit_value(bits: Seq<bool>, at: int, weight: nat) -> nat {
    if 0 <= at < bits.len() && bits[at] {
        weight
    } else {
        0
    }
}

/// The stream packed into bytes, least significant bit first, the last byte
/// filled up with zero bits.
pub open spec fn pack_bits(bits: Seq<bool>) -> Seq<u8> {
    Seq::new(((bits.len() + 7) / 8) as nat, |at: int| packed_byte(bits, at))
}

/// `BitVec::new` of bitvec: a vector without bits.
#[verifier::external_body]
pub(crate) fn bit_stream_new() -> (stream: BitStream)
    ensures
        bit_stream_bits(stream) == Seq::<bool>::empty(),
{
    BitStream { bits: bitvec::vec::BitVec::new() }
}

/// `BitVec::push` of bitvec: the bit is added behind the others. The crate
/// panics where the vector is full.
#[verifier::external_body]
pub(crate) fn bit_stream_push(stream: &mut BitStream, value: bool)
    requires
        bit_stream_bits(*old(stream)).len() < max_bits(),
    ensures
        bit_stream_bits(*final(stream)) == bit_stream_bits(*old(stream)).push(value),
{
    stream.bits.push(value)
}

/// `BitVec::into_vec` of bitvec on a clone of the vector: the bytes that
/// hold the bits, eight to a byte from the least significant bit up. The
/// clone has the bits past the end cleared.
#[verifier::external_body]
pub(crate) fn bit_stream_to_bytes(stream: &BitStream) -> (bytes: Vec<u8>)
    ensures
        bytes@ == pack_bits(bit_stream_bits(*stream)),
{
    stream.bits.clone().into_vec()
}

/// Bit `at` of a stream is bit `at % 8` of byte `at / 8` of its packing,
/// counted from the least significant bit.
pub proof fn lemma_packed_bit(bits: Seq<bool>, at: int)
    requires
        0 <= at < bits.len(),
    ensures
        at / 8 < pack_bits(bits).len(),
        ((pack_bits(bits)[at / 8] >> ((at % 8) as u8)) & 1 == 1) == bits[at],
{
    let byte_at = at / 8;
    let first = 8 * byte_at;
    let b0 = bit_value(bits, first, 1) as u8;
    let b1 = bit_value(bits, first + 1, 1) as u8;
    let b2 = bit_value(bits, first + 2, 1) as u8;
    let b3 = bit_value(bits, first + 3, 1) as u8;
    let b4 = bit_value(bits, first + 4, 1) as u8;
    let b5 = bit_value(bits, first + 5, 1) as u8;
    let b6 = bit_value(bits, first + 6, 1) as u8;
    let b7 = bit_value(bits, first + 7, 1) as u8;
    let k = (at % 8) as u8;
    let byte = packed_byte(bits, byte_at);
    assert(byte == (b0 + 2 * b1 + 4 * b2 + 8 * b3 + 16 * b4 + 32 * b5 + 64 * b6 + 128 * b7) as u8);
    lemma_bit_of_byte(b0, b1, b2, b3, b4, b5, b6, b7, k);
}

/// The bits of a byte built from eight binary digits are those digits.
proof fn lemma_bit_of_byte(b0: u8, b1: u8, b2: u8, b3: u8, b4: u8, b5: u8, b6: u8, b7: u8, k: u8)
    by (bit_vector)
    requires
        b0 <= 1,
        b1 <= 1,
        b2 <= 1,
        b3 <= 1,
        b4 <= 1,
        b5 <= 1,
        b6 <= 1,
        b7 <= 1,
        k < 8,
    ensures
        (((b0 + 2 * b1 + 4 * b2 + 8 * b3 + 16 * b4 + 32 * b5 + 64 * b6 + 128 * b7) as u8 >> k) & 1)
            == (if k == 0 {
            b0
        } else if k == 1 {
            b1
        } else if k == 2 {
            b2
        } else if k == 3 {
            b3
        } else if k == 4 {
            b4
        } else if k == 5 {
            b5
        } else if k == 6 {
            b6
        } else {
            b7
        }),
{
}

} // verus!
