//! How a file of a given size is cut into chunks of a given size.

use vstd::prelude::*;

verus! {

/// The number of chunks that a file of `file_size` bytes is cut into: the
/// quotient of the two sizes, rounded up.
pub open spec fn num_chunks(file_size: nat, chunk_size: nat) -> nat
    recommends
        chunk_size > 0,
{
    if file_size % chunk_size == 0 {
        file_size / chunk_size
    } else {
        file_size / chunk_size + 1
    }
}

/// Calls `num_integer::div_rem` on two `usize` values. For unsigned integers
/// that function returns the pair of `dividend / divisor` and
/// `dividend % divisor`. It panics when the divisor is zero, which the
/// precondition rules out.
#[verifier::external_body]
fn div_rem(dividend: usize, divisor: usize) -> (pair: (usize, usize))
    requires
        divisor != 0,
    ensures
        pair.0 == dividend / divisor,
        pair.1 == dividend % divisor,
{
    num_integer::div_rem(dividend, divisor)
}

/// Computes the number of chunks of `chunk_size` bytes that hold `file_size`
/// bytes. An empty file has no chunks.
pub fn calculate_num_chunks(file_size: usize, chunk_size: usize) -> (count: usize)
    requires
        chunk_size > 0,
    ensures
        count == num_chunks(file_size as nat, chunk_size as nat),
{
    let (quotient, remainder) = div_rem(file_size, chunk_size);
    if remainder > 0 {
        proof {
            lemma_quotient_below_dividend(file_size as nat, chunk_size as nat);
        }
        quotient + 1
    } else {
        quotient
    }
}

/// With a remainder left over, the quotient is strictly below the dividend.
proof fn lemma_quotient_below_dividend(dividend: nat, divisor: nat)
    requires
        divisor > 0,
        dividend % divisor > 0,
    ensures
        dividend / divisor < dividend,
{
    vstd::arithmetic::div_mod::lemma_fundamental_div_mod(dividend as int, divisor as int);
    let q = dividend as int / divisor as int;
    vstd::arithmetic::div_mod::lemma_div_pos_is_pos(dividend as int, divisor as int);
    assert(q <= divisor * q) by (nonlinear_arith)
        requires
            q >= 0,
            divisor >= 1,
    ;
}

/// The chunk count is the least number of chunks whose total capacity holds
/// the file: that many chunks are enough, and one fewer is not.
pub proof fn lemma_num_chunks_is_least_cover(file_size: nat, chunk_size: nat)
    requires
        chunk_size > 0,
    ensures
        num_chunks(file_size, chunk_size) * chunk_size >= file_size,
        forall|count: nat| #[trigger]
            (count * chunk_size) >= file_size ==> count >= num_chunks(file_size, chunk_size),
        file_size == 0 <==> num_chunks(file_size, chunk_size) == 0,
{
    let k = num_chunks(file_size, chunk_size);
    let q = file_size / chunk_size;
    let r = file_size % chunk_size;
    vstd::arithmetic::div_mod::lemma_fundamental_div_mod(file_size as int, chunk_size as int);
    vstd::arithmetic::div_mod::lemma_div_pos_is_pos(file_size as int, chunk_size as int);
    assert(k * chunk_size >= file_size) by (nonlinear_arith)
        requires
            file_size == chunk_size * q + r,
            0 <= r < chunk_size,
            k == (if r == 0 { q } else { q + 1 }),
    ;
    assert forall|count: nat| #[trigger] (count * chunk_size) >= file_size implies count >= k by {
        if count < k {
            assert(count * chunk_size < file_size) by (nonlinear_arith)
                requires
                    file_size == chunk_size * q + r,
                    0 <= r < chunk_size,
                    k == (if r == 0 { q } else { q + 1 }),
                    count < k,
                    chunk_size > 0,
            ;
        }
    }
    if file_size == 0 {
        assert(q == 0 && r == 0) by (nonlinear_arith)
            requires
                0 == chunk_size * q + r,
                q >= 0,
                0 <= r < chunk_size,
        ;
    } else if k == 0 {
        assert(file_size == 0) by (nonlinear_arith)
            requires
                file_size == chunk_size * q + r,
                q == 0,
                r == 0,
        ;
    }
}

/// The offset in the file at which chunk `index` starts.
pub open spec fn chunk_start(chunk_size: nat, index: nat) -> nat {
    index * chunk_size
}

/// The length of chunk `index` of a file of `file_size` bytes: a whole
/// chunk where the file has that much left, else what is left, and nothing
/// at or past the end of the file.
pub open spec fn chunk_len(file_size: nat, chunk_size: nat, index: nat) -> nat {
    let start = chunk_start(chunk_size, index);
    if start >= file_size {
        0
    } else if file_size - start < chunk_size {
        (file_size - start) as nat
    } else {
        chunk_size
    }
}

/// The bytes of chunk `index` of `source`.
pub open spec fn chunk_bytes(source: Seq<u8>, chunk_size: nat, index: nat) -> Seq<u8> {
    let start = chunk_start(chunk_size, index) as int;
    source.subrange(start, start + chunk_len(source.len(), chunk_size, index))
}

/// The first `count` chunks of `source`, one after the other.
pub open spec fn joined_chunks(source: Seq<u8>, chunk_size: nat, count: nat) -> Seq<u8>
    decreases count,
{
    if count == 0 {
        Seq::empty()
    } else {
        joined_chunks(source, chunk_size, (count - 1) as nat) + chunk_bytes(
            source,
            chunk_size,
            (count - 1) as nat,
        )
    }
}

/// The length of the last chunk of a file that is not empty: the remainder
/// of the file size by the chunk size, or a whole chunk where that is zero.
pub open spec fn last_chunk_len(file_size: nat, chunk_size: nat) -> nat
    recommends
        chunk_size > 0,
        file_size > 0,
{
    if file_size % chunk_size == 0 {
        chunk_size
    } else {
        file_size % chunk_size
    }
}

/// A chunk starts inside the file exactly when its index is below the chunk count.
pub proof fn lemma_chunk_starts_inside(file_size: nat, chunk_size: nat, index: nat)
    requires
        chunk_size > 0,
    ensures
        index < num_chunks(file_size, chunk_size) <==> chunk_start(chunk_size, index) < file_size,
{
    let count = num_chunks(file_size, chunk_size);
    lemma_num_chunks_is_least_cover(file_size, chunk_size);
    if index >= count {
        assert(index * chunk_size >= count * chunk_size) by (nonlinear_arith)
            requires
                index >= count,
        ;
    }
}

/// The lengths of the chunks of a file: every chunk before the last is
/// whole, the last holds the remainder of the file (or is whole, where the
/// chunk size divides the file size), and past the last there is nothing.
pub proof fn lemma_chunk_len(file_size: nat, chunk_size: nat, index: nat)
    requires
        chunk_size > 0,
    ensures
        index + 1 < num_chunks(file_size, chunk_size) ==> chunk_len(file_size, chunk_size, index)
            == chunk_size,
        index + 1 == num_chunks(file_size, chunk_size) ==> chunk_len(file_size, chunk_size, index)
            == last_chunk_len(file_size, chunk_size),
        index >= num_chunks(file_size, chunk_size) ==> chunk_len(file_size, chunk_size, index) == 0,
        index < num_chunks(file_size, chunk_size) ==> 1 <= chunk_len(file_size, chunk_size, index)
            <= chunk_size,
{
    let count = num_chunks(file_size, chunk_size);
    let q = file_size / chunk_size;
    let r = file_size % chunk_size;
    vstd::arithmetic::div_mod::lemma_fundamental_div_mod(file_size as int, chunk_size as int);
    vstd::arithmetic::div_mod::lemma_div_pos_is_pos(file_size as int, chunk_size as int);
    lemma_chunk_starts_inside(file_size, chunk_size, index);
    if index < q {
        assert(index * chunk_size + chunk_size <= chunk_size * q) by (nonlinear_arith)
            requires
                index < q,
                chunk_size > 0,
        ;
    } else if index == q {
        assert(index * chunk_size == chunk_size * q) by (nonlinear_arith)
            requires
                index == q,
        ;
    } else {
        assert(index * chunk_size >= chunk_size * q + chunk_size) by (nonlinear_arith)
            requires
                index > q,
                chunk_size > 0,
        ;
    }
}

/// A chunk of the file ends where the next one starts, or at the end of the
/// file, whichever comes first.
pub proof fn lemma_chunk_end(file_size: nat, chunk_size: nat, index: nat)
    requires
        chunk_size > 0,
        index < num_chunks(file_size, chunk_size),
    ensures
        chunk_start(chunk_size, index) < file_size,
        chunk_start(chunk_size, index) + chunk_len(file_size, chunk_size, index) == (if chunk_start(
            chunk_size,
            index + 1,
        ) <= file_size {
            chunk_start(chunk_size, index + 1)
        } else {
            file_size
        }),
{
    lemma_chunk_starts_inside(file_size, chunk_size, index);
    assert((index + 1) * chunk_size == index * chunk_size + chunk_size) by (nonlinear_arith);
}

/// The first `count` chunks, joined, are the start of the source up to the
/// end of the last of them.
proof fn lemma_joined_chunks_prefix(source: Seq<u8>, chunk_size: nat, count: nat)
    requires
        chunk_size > 0,
        count <= num_chunks(source.len(), chunk_size),
    ensures
        joined_chunks(source, chunk_size, count) == source.subrange(
            0,
            if count * chunk_size <= source.len() {
                (count * chunk_size) as int
            } else {
                source.len() as int
            },
        ),
    decreases count,
{
    if count == 0 {
        assert(count * chunk_size == 0) by (nonlinear_arith)
            requires
                count == 0,
        ;
    } else {
        let index = (count - 1) as nat;
        lemma_joined_chunks_prefix(source, chunk_size, index);
        lemma_chunk_end(source.len(), chunk_size, index);
    }
}

/// Cutting and joining loses nothing: the chunks of a source, joined in the
/// order of their indices, are the source again. There are as many of them
/// as the chunk count says.
pub proof fn lemma_chunks_rebuild_source(source: Seq<u8>, chunk_size: nat)
    requires
        chunk_size > 0,
    ensures
        joined_chunks(source, chunk_size, num_chunks(source.len(), chunk_size)) == source,
{
    lemma_joined_chunks_prefix(source, chunk_size, num_chunks(source.len(), chunk_size));
    lemma_num_chunks_is_least_cover(source.len(), chunk_size);
}

} // verus!
