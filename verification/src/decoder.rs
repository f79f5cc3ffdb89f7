//! Self-clocked bit decoding: walking the edge sequence at recovered
//! sampling instants and packing the sampled levels into a word.
//!
//! The transmission carries `BITS` self-clocked bits.  The first bit is a
//! known leading high bit, already consumed as the synthetic edge at
//! offset 0, so decoding reconstructs the remaining `BITS - 1` bits.  Bit
//! `i` is sampled in the middle of the first half of its bit interval, at
//! `5*clock/2 + i*(2*clock)`; the line level there is the parity of the
//! number of edges at or before that instant, since the line starts low
//! and every edge toggles it.  Sampled bits are packed in transmission
//! order, the first decoded bit least significant.

use vstd::prelude::*;
use vstd::arithmetic::power2::pow2;
use vstd::arithmetic::power2::lemma_pow2_unfold;
use vstd::arithmetic::power2::lemma_pow2_strictly_increases;
use vstd::arithmetic::power2::lemma2_to64;

use crate::errors::CaptureError;
use crate::BITS;
use crate::RECORD_NS;

verus! {

/// Timestamps strictly increase along the sequence.
pub open spec fn strictly_increasing(s: Seq<u64>) -> bool {
    forall|i: int, j: int| #![trigger s[i], s[j]] 0 <= i < j < s.len() ==> s[i] < s[j]
}

/// Appending a timestamp later than every existing one keeps the
/// sequence strictly increasing.
pub proof fn lemma_push_increasing(s: Seq<u64>, v: u64)
    requires
        strictly_increasing(s),
        forall|k: int| 0 <= k < s.len() ==> #[trigger] s[k] < v,
    ensures
        strictly_increasing(s.push(v)),
{
    assert forall|i: int, j: int| 0 <= i < j < s.push(v).len() implies s.push(v)[i] < s.push(
        v,
    )[j] by {
        if j < s.len() {
            assert(s[i] < s[j]);
        } else {
            assert(s.push(v)[j] == v);
            assert(s.push(v)[i] == s[i]);
        }
    }
}

/// The instant at which decoded bit `i` is sampled: the middle of the
/// first half of its bit interval.
pub open spec fn sample_instant(clock: int, i: int) -> int {
    5 * clock / 2 + i * (2 * clock)
}

/// How many edges lie at or before instant `t`.
pub open spec fn count_le(s: Seq<u64>, t: int) -> int
    decreases s.len(),
{
    if s.len() == 0 {
        0
    } else {
        count_le(s.drop_last(), t) + if s.last() <= t {
            1int
        } else {
            0int
        }
    }
}

/// The line level at instant `t`: the line starts low and every edge
/// toggles it, so the level is the parity of the edges seen so far.
pub open spec fn level_at(s: Seq<u64>, t: int) -> bool {
    count_le(s, t) % 2 == 1
}

/// The sequence of levels the decoder samples.
pub open spec fn decoded_bits_spec(edges: Seq<u64>, clock: int) -> Seq<bool> {
    Seq::new((BITS - 1) as nat, |i: int| level_at(edges, sample_instant(clock, i)))
}

/// The word a sequence of bits packs into, first bit least significant.
pub open spec fn word_of(bits: Seq<bool>) -> int
    decreases bits.len(),
{
    if bits.len() == 0 {
        0
    } else {
        (if bits[0] {
            1int
        } else {
            0int
        }) + 2 * word_of(bits.skip(1))
    }
}

/// The word the decoder reconstructs from an edge sequence.
pub open spec fn decoded_word_spec(edges: Seq<u64>, clock: int) -> int {
    word_of(decoded_bits_spec(edges, clock))
}

/// A packed word fits in as many bits as went into it.
pub proof fn lemma_word_of_bound(bits: Seq<bool>)
    ensures
        0 <= word_of(bits) < pow2(bits.len()),
    decreases bits.len(),
{
    if bits.len() == 0 {
        lemma2_to64();
    } else {
        lemma_word_of_bound(bits.skip(1));
        lemma_pow2_unfold(bits.len());
    }
}

/// Decoding is a function of the edge sequence and the recovered clock
/// alone: identical inputs always yield the identical word.
pub proof fn lemma_decoder_deterministic(e1: Seq<u64>, c1: int, e2: Seq<u64>, c2: int)
    requires
        e1 == e2,
        c1 == c2,
    ensures
        decoded_word_spec(e1, c1) == decoded_word_spec(e2, c2),
{
}

/// In a sorted sequence split at `k` by the instant `t`, exactly the
/// first `k` edges lie at or before `t`.
pub proof fn lemma_count_le_split(s: Seq<u64>, t: int, k: int)
    requires
        0 <= k <= s.len(),
        forall|j: int| 0 <= j < k ==> s[j] <= t,
        forall|j: int| k <= j < s.len() ==> s[j] > t,
    ensures
        count_le(s, t) == k,
    decreases s.len(),
{
    if s.len() > 0 {
        if k == s.len() {
            lemma_count_le_split(s.drop_last(), t, k - 1);
        } else {
            lemma_count_le_split(s.drop_last(), t, k);
        }
    }
}

/// Edges later than `t` do not change how many lie at or before `t`.
pub proof fn lemma_count_le_push_later(s: Seq<u64>, v: u64, t: int)
    requires
        v > t,
    ensures
        count_le(s.push(v), t) == count_le(s, t),
{
    assert(s.push(v).drop_last() =~= s);
}

/// Pack an ordered sequence of decoded bits into a word, the first bit
/// ending up least significant.
pub fn pack_bits(bits: &Vec<bool>) -> (r: u16)
    requires
        bits@.len() == BITS - 1,
    ensures
        r == word_of(bits@),
{
    let mut val: u16 = 0;
    let mut i: usize = bits.len();
    proof {
        assert(bits@.skip(i as int) =~= Seq::<bool>::empty());
    }
    while i > 0
        invariant
            i <= bits@.len(),
            bits@.len() == BITS - 1,
            val == word_of(bits@.skip(i as int)),
        decreases i,
    {
        i = i - 1;
        proof {
            lemma_word_of_bound(bits@.skip(i as int + 1));
            if bits@.len() - i - 1 < 15 {
                lemma_pow2_strictly_increases((bits@.len() - i - 1) as nat, 15);
            }
            lemma2_to64();
            assert(bits@.skip(i as int).skip(1) =~= bits@.skip(i as int + 1));
            assert(bits@.skip(i as int)[0] == bits@[i as int]);
        }
        val = 2 * val + if bits[i] {
            1
        } else {
            0
        };
    }
    proof {
        assert(bits@.skip(0) =~= bits@);
    }
    val
}

/// Walk the edge sequence at the clock-recovered sampling instants and
/// collect the level at each.  The walk succeeds exactly when the last
/// edge lies beyond the final sampling instant; otherwise the sequence is
/// exhausted early and the capture fails with `PrematureEnd`.
pub fn decode_bits(edges: &Vec<u64>, clock: u64) -> (r: Result<Vec<bool>, CaptureError>)
    requires
        strictly_increasing(edges@),
        edges@.len() >= 1,
        1 <= clock < RECORD_NS,
    ensures
        (r matches Ok(_)) <==> edges@.last() > sample_instant(clock as int, BITS - 2),
        r matches Ok(bits) ==> bits@ == decoded_bits_spec(edges@, clock as int),
        r matches Err(e) ==> e == CaptureError::PrematureEnd,
{
    let nbits: usize = (BITS as usize) - 1;
    let mut bits: Vec<bool> = Vec::new();
    let mut level = false;
    let mut cur: usize = 0;
    let mut t: u64 = 5 * clock / 2;
    let mut i: usize = 0;
    proof {
        assert(bits@ =~= decoded_bits_spec(edges@, clock as int).take(0));
    }
    while i < nbits
        invariant
            strictly_increasing(edges@),
            edges@.len() >= 1,
            1 <= clock < RECORD_NS,
            nbits == BITS - 1,
            i <= nbits,
            bits@.len() == i,
            t == sample_instant(clock as int, i as int),
            t <= 5 * (clock as int) / 2 + 32 * (clock as int),
            cur <= edges@.len(),
            forall|j: int| 0 <= j < cur ==> edges@[j] <= t,
            level == (cur % 2 == 1),
            bits@ == decoded_bits_spec(edges@, clock as int).take(i as int),
            i > 0 ==> edges@.last() > sample_instant(clock as int, i - 1),
        decreases nbits - i,
    {
        while cur < edges.len() && edges[cur] <= t
            invariant
                strictly_increasing(edges@),
                cur <= edges@.len(),
                forall|j: int| 0 <= j < cur ==> edges@[j] <= t,
                level == (cur % 2 == 1),
            decreases edges@.len() - cur,
        {
            level = !level;
            cur = cur + 1;
        }
        if cur == edges.len() {
            // Every edge lies at or before this sampling instant, so the
            // final instant cannot be reached either.
            proof {
                assert((i as int) * (2 * (clock as int)) <= (BITS - 2) * (2 * (clock as int)))
                    by (nonlinear_arith)
                    requires
                        0 <= i as int <= BITS - 2,
                        clock >= 1,
                ;
                assert(sample_instant(clock as int, i as int) <= sample_instant(
                    clock as int,
                    BITS - 2,
                ));
                assert(edges@.last() <= t);
            }
            return Err(CaptureError::PrematureEnd);
        }
        proof {
            assert forall|j: int| cur <= j < edges@.len() implies edges@[j] > t by {
                if j > cur {
                    assert(edges@[cur as int] < edges@[j]);
                }
            }
            lemma_count_le_split(edges@, t as int, cur as int);
            assert(level == level_at(edges@, sample_instant(clock as int, i as int)));
        }
        bits.push(level);
        proof {
            assert(bits@ =~= decoded_bits_spec(edges@, clock as int).take(i + 1));
            if (cur as int) < edges@.len() - 1 {
                assert(edges@[cur as int] < edges@[edges@.len() - 1]);
            }
            assert(edges@.last() >= edges@[cur as int]);
        }
        i = i + 1;
        proof {
            assert((i as int) * (2 * (clock as int)) == (i as int - 1) * (2 * (clock as int)) + 2
                * (clock as int)) by (nonlinear_arith);
            assert((i as int - 1) * (2 * (clock as int)) <= 30 * (clock as int))
                by (nonlinear_arith)
                requires
                    i as int - 1 <= 15,
                    clock >= 1,
            ;
            assert(5 * (clock as int) / 2 <= 5 * (clock as int)) by (nonlinear_arith)
                requires
                    clock >= 1,
            ;
        }
        t = t + 2 * clock;
    }
    proof {
        assert(bits@ =~= decoded_bits_spec(edges@, clock as int));
    }
    Ok(bits)
}

/// Decode the transmitted word from an edge sequence at a recovered
/// clock.  Succeeds exactly when the edge sequence reaches past the final
/// sampling instant, and then returns the packed word.
pub fn decode_word(edges: &Vec<u64>, clock: u64) -> (r: Result<u16, CaptureError>)
    requires
        strictly_increasing(edges@),
        edges@.len() >= 1,
        1 <= clock < RECORD_NS,
    ensures
        (r matches Ok(_)) <==> edges@.last() > sample_instant(clock as int, BITS - 2),
        r matches Ok(w) ==> w == decoded_word_spec(edges@, clock as int),
        r matches Err(e) ==> e == CaptureError::PrematureEnd,
{
    match decode_bits(edges, clock) {
        Ok(bits) => Ok(pack_bits(&bits)),
        Err(e) => Err(e),
    }
}

} // verus!
