//! Splitting a blob into bounded-size read-response chunks.
//!
//! A read response covers the blob's bytes in order, with no gaps or
//! overlaps: every chunk but the last carries exactly the configured
//! threshold of bytes, the last carries the remainder, and an empty blob
//! yields an immediately-completed stream of zero chunks.

use vstd::arithmetic::div_mod::lemma_basic_div;
use vstd::arithmetic::div_mod::lemma_div_plus_one;
use vstd::prelude::*;
use vstd::slice::slice_subrange;
use vstd::slice::slice_to_vec;

verus! {

/// The bytes of `b` split into consecutive chunks of `t` bytes each; the
/// final chunk keeps the remainder, and an empty blob has no chunks.
pub open spec fn chunks_of(b: Seq<u8>, t: int) -> Seq<Seq<u8>>
    decreases b.len(),
    when t >= 1
{
    if b.len() == 0 {
        Seq::empty()
    } else if b.len() <= t {
        seq![b]
    } else {
        seq![b.take(t)] + chunks_of(b.skip(t), t)
    }
}

/// Concatenating the chunks of `b` in order reproduces `b` exactly.
pub proof fn lemma_chunks_of_concat(b: Seq<u8>, t: int)
    requires
        t >= 1,
    ensures
        chunks_of(b, t).flatten() == b,
    decreases b.len(),
{
    let c = chunks_of(b, t);
    if b.len() == 0 {
        assert(c.flatten() =~= b);
    } else if b.len() <= t {
        assert(c == seq![b]);
        assert(c.first() == b);
        assert(c.drop_first() =~= Seq::<Seq<u8>>::empty());
        assert(c.drop_first().flatten() == Seq::<u8>::empty());
        assert(c.flatten() == c.first().add(c.drop_first().flatten()));
        assert(c.flatten() =~= b);
    } else {
        lemma_chunks_of_concat(b.skip(t), t);
        assert(c.first() == b.take(t));
        assert(c.drop_first() =~= chunks_of(b.skip(t), t));
        assert(c.flatten() == c.first().add(c.drop_first().flatten()));
        assert(c.flatten() == b.take(t) + chunks_of(b.skip(t), t).flatten());
        assert(c.flatten() =~= b);
    }
}

/// A blob of length `L` yields exactly `ceil(L / t)` chunks: every chunk but
/// the last has exactly `t` bytes, and the last has between 1 and `t`.
pub proof fn lemma_chunks_of_shape(b: Seq<u8>, t: int)
    requires
        t >= 1,
    ensures
        chunks_of(b, t).len() == (b.len() + t - 1) / t,
        forall|i: int|
            0 <= i < chunks_of(b, t).len() - 1 ==> #[trigger] chunks_of(b, t)[i].len() == t,
        b.len() > 0 ==> 1 <= chunks_of(b, t).last().len() <= t,
    decreases b.len(),
{
    let c = chunks_of(b, t);
    if b.len() == 0 {
        lemma_basic_div(t - 1, t);
    } else if b.len() <= t {
        lemma_basic_div(b.len() - 1, t);
        lemma_div_plus_one(b.len() - 1, t);
        assert(c.last() == b);
    } else {
        lemma_chunks_of_shape(b.skip(t), t);
        let cs = chunks_of(b.skip(t), t);
        lemma_div_plus_one(b.len() - 1, t);
        assert(b.skip(t).len() == b.len() - t);
        assert(c.len() == 1 + cs.len());
        assert forall|i: int| 0 <= i < c.len() - 1 implies #[trigger] c[i].len() == t by {
            if i == 0 {
                assert(c[0] == b.take(t));
            } else {
                assert(c[i] == cs[i - 1]);
            }
        }
        assert(cs.len() > 0);
        assert(c.last() == cs.last());
    }
}

/// Splits `bytes` into consecutive chunks of at most `chunk_size` bytes.
pub fn split_chunks(bytes: &Vec<u8>, chunk_size: usize) -> (out: Vec<Vec<u8>>)
    requires
        chunk_size >= 1,
    ensures
        out@.map_values(|c: Vec<u8>| c@) == chunks_of(bytes@, chunk_size as int),
{
    let mut out: Vec<Vec<u8>> = Vec::new();
    let n: usize = bytes.len();
    let mut i: usize = 0;
    proof {
        assert(bytes@.skip(0) =~= bytes@);
        assert(out@.map_values(|c: Vec<u8>| c@) + chunks_of(bytes@, chunk_size as int)
            =~= chunks_of(bytes@, chunk_size as int));
    }
    while i < n
        invariant
            i <= n,
            n == bytes@.len(),
            chunk_size >= 1,
            out@.map_values(|c: Vec<u8>| c@) + chunks_of(bytes@.skip(i as int), chunk_size as int)
                == chunks_of(bytes@, chunk_size as int),
        decreases n - i,
    {
        let rem: usize = n - i;
        let step: usize = if rem < chunk_size {
            rem
        } else {
            chunk_size
        };
        let end: usize = i + step;
        let chunk: Vec<u8> = slice_to_vec(slice_subrange(bytes.as_slice(), i, end));
        let ghost prev = out@.map_values(|c: Vec<u8>| c@);
        let ghost tail = bytes@.skip(i as int);
        proof {
            assert(tail.len() == n - i);
            assert(tail.take(step as int) =~= bytes@.subrange(i as int, end as int));
            assert(tail.skip(step as int) =~= bytes@.skip(end as int));
            if tail.len() <= chunk_size as int {
                assert(tail.take(step as int) =~= tail);
                assert(chunks_of(tail, chunk_size as int) == seq![tail]);
            } else {
                assert(chunks_of(tail, chunk_size as int) == seq![tail.take(chunk_size as int)]
                    + chunks_of(tail.skip(chunk_size as int), chunk_size as int));
            }
            assert(chunks_of(tail, chunk_size as int) == seq![chunk@] + chunks_of(
                bytes@.skip(end as int),
                chunk_size as int,
            ));
        }
        out.push(chunk);
        i = end;
        proof {
            assert(out@.map_values(|c: Vec<u8>| c@) =~= prev.push(chunk@));
            assert(prev.push(chunk@) + chunks_of(bytes@.skip(i as int), chunk_size as int) =~= prev
                + chunks_of(tail, chunk_size as int));
        }
    }
    proof {
        assert(bytes@.skip(n as int) =~= Seq::<u8>::empty());
        assert(out@.map_values(|c: Vec<u8>| c@) + chunks_of(
            Seq::<u8>::empty(),
            chunk_size as int,
        ) =~= out@.map_values(|c: Vec<u8>| c@));
    }
    out
}

} // verus!
