//! The CRC-32 checksum (reflected IEEE 802.3 polynomial), computed bit by bit.

use vstd::prelude::*;

verus! {

/// The reflected form of the IEEE 802.3 generator polynomial.
pub const CRC_POLYNOMIAL: u32 = 0xEDB88320;

/// One shift of the accumulator: the low bit leaves, and the polynomial is
/// folded in when that bit was set.
pub open spec fn shift_once(acc: u32) -> u32 {
    if acc & 1 == 1 {
        (acc >> 1) ^ CRC_POLYNOMIAL
    } else {
        acc >> 1
    }
}

/// `rounds` shifts of the accumulator in a row.
pub open spec fn shift_rounds(acc: u32, rounds: nat) -> u32
    decreases rounds,
{
    if rounds == 0 {
        acc
    } else {
        shift_once(shift_rounds(acc, (rounds - 1) as nat))
    }
}

/// The accumulator after one input byte: the byte is folded into the low
/// eight bits, then the accumulator is shifted eight times.
pub open spec fn absorb_byte(acc: u32, byte: u8) -> u32 {
    shift_rounds(acc ^ (byte as u32), 8)
}

/// The accumulator after all of `bytes`, taken in order.
pub open spec fn absorb(acc: u32, bytes: Seq<u8>) -> u32
    decreases bytes.len(),
{
    if bytes.len() == 0 {
        acc
    } else {
        absorb_byte(absorb(acc, bytes.drop_last()), bytes.last())
    }
}

/// The CRC-32 of a byte sequence: start from all ones, absorb every byte,
/// complement the result.
pub open spec fn checksum(bytes: Seq<u8>) -> u32 {
    absorb(0xFFFF_FFFF, bytes) ^ 0xFFFF_FFFF
}

/// Computes the CRC-32 of `buffer`, which is left as it was.
pub fn crc32(buffer: &mut [u8]) -> (crc: u32)
    ensures
        crc == checksum(old(buffer)@),
        final(buffer)@ == old(buffer)@,
{
    let mut crc: u32 = 0xFFFF_FFFF;
    let mut i: usize = 0;
    while i < buffer.len()
        invariant
            i <= buffer.len(),
            buffer@ == old(buffer)@,
            crc == absorb(0xFFFF_FFFF, buffer@.take(i as int)),
        decreases buffer.len() - i,
    {
        let byte: u8 = buffer[i];
        crc ^= byte as u32;
        let ghost folded: u32 = crc;
        let mut round: u8 = 0;
        while round < 8
            invariant
                round <= 8,
                crc == shift_rounds(folded, round as nat),
            decreases 8 - round,
        {
            if crc & 1 == 1 {
                crc = (crc >> 1) ^ CRC_POLYNOMIAL;
            } else {
                crc >>= 1;
            }
            round += 1;
        }
        proof {
            assert(buffer@.take(i as int + 1).drop_last() =~= buffer@.take(i as int));
        }
        i += 1;
    }
    proof {
        assert(buffer@.take(i as int) =~= buffer@);
    }
    crc ^ 0xFFFF_FFFF
}

/// The checksum is a function of the bytes alone: equal inputs give equal
/// checksums, however often and wherever it is computed.
pub proof fn lemma_checksum_deterministic(a: Seq<u8>, b: Seq<u8>)
    requires
        a =~= b,
    ensures
        checksum(a) == checksum(b),
{
}

/// The checksum of no bytes at all is zero.
pub proof fn lemma_checksum_of_nothing()
    ensures
        checksum(Seq::<u8>::empty()) == 0,
{
    assert(0xFFFF_FFFFu32 ^ 0xFFFF_FFFFu32 == 0u32) by (bit_vector);
}

/// A shift loses nothing: the bit that leaves decides whether the top bit of
/// the result is set, so two accumulators that shift to the same value are equal.
proof fn lemma_shift_once_injective(x: u32, y: u32)
    requires
        shift_once(x) == shift_once(y),
    ensures
        x == y,
{
    assert(shift_once(x) == shift_once(y) ==> x == y) by (bit_vector);
}

proof fn lemma_shift_rounds_injective(x: u32, y: u32, rounds: nat)
    requires
        shift_rounds(x, rounds) == shift_rounds(y, rounds),
    ensures
        x == y,
    decreases rounds,
{
    if rounds > 0 {
        lemma_shift_once_injective(
            shift_rounds(x, (rounds - 1) as nat),
            shift_rounds(y, (rounds - 1) as nat),
        );
        lemma_shift_rounds_injective(x, y, (rounds - 1) as nat);
    }
}

/// Absorbing one byte keeps two accumulators apart, and keeps two bytes apart.
proof fn lemma_absorb_byte_injective(x: u32, p: u8, y: u32, q: u8)
    requires
        absorb_byte(x, p) == absorb_byte(y, q),
    ensures
        p == q ==> x == y,
        x == y ==> p == q,
{
    lemma_shift_rounds_injective(x ^ (p as u32), y ^ (q as u32), 8);
    assert((x ^ (p as u32)) == (y ^ (q as u32)) ==> (p == q ==> x == y)) by (bit_vector);
    assert((x ^ (p as u32)) == (y ^ (q as u32)) ==> (x == y ==> p == q)) by (bit_vector);
}

/// Whether `a` and `b` have the same length and differ at position `at` and nowhere else.
pub open spec fn differ_only_at(a: Seq<u8>, b: Seq<u8>, at: int) -> bool {
    &&& a.len() == b.len()
    &&& 0 <= at < a.len()
    &&& a[at] != b[at]
    &&& forall|i: int| 0 <= i < a.len() && i != at ==> a[i] == b[i]
}

proof fn lemma_absorb_detects_byte_change(acc: u32, a: Seq<u8>, b: Seq<u8>, at: int)
    requires
        differ_only_at(a, b, at),
    ensures
        absorb(acc, a) != absorb(acc, b),
    decreases a.len(),
{
    let a_front = a.drop_last();
    let b_front = b.drop_last();
    if at == a.len() - 1 {
        assert(a_front =~= b_front);
    } else {
        lemma_absorb_detects_byte_change(acc, a_front, b_front, at);
    }
    if absorb(acc, a) == absorb(acc, b) {
        lemma_absorb_byte_injective(absorb(acc, a_front), a.last(), absorb(acc, b_front), b.last());
    }
}

/// Changing a single byte of the input always changes the checksum.
pub proof fn lemma_checksum_detects_byte_change(a: Seq<u8>, b: Seq<u8>, at: int)
    requires
        differ_only_at(a, b, at),
    ensures
        checksum(a) != checksum(b),
{
    lemma_absorb_detects_byte_change(0xFFFF_FFFF, a, b, at);
    let x = absorb(0xFFFF_FFFF, a);
    let y = absorb(0xFFFF_FFFF, b);
    assert((x ^ 0xFFFF_FFFFu32) == (y ^ 0xFFFF_FFFFu32) ==> x == y) by (bit_vector);
}

} // verus!
