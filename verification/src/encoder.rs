//! Synthesis of the edge sequence a given word would produce on the
//! wire, and the proof that decoding it recovers the word.
//!
//! Each transmitted bit occupies two clock units; the line carries the
//! bit's value in the first half of its interval and the complement in
//! the second, so every bit has a mid-interval transition and two equal
//! neighbouring bits share a boundary transition.  Inter-edge deltas are
//! therefore one or two clock units — the self-clocking shape that clock
//! recovery relies on.  The leading frame bit is the known high start
//! bit; the decoded bits follow it in transmission order.

use vstd::prelude::*;
use vstd::arithmetic::div_mod::lemma_hoist_over_denominator;
use vstd::arithmetic::div_mod::lemma_div_is_strictly_smaller;

use crate::decoder::decoded_bits_spec;
use crate::decoder::decoded_word_spec;
use crate::decoder::lemma_count_le_push_later;
use crate::decoder::lemma_count_le_split;
use crate::decoder::lemma_push_increasing;
use crate::decoder::level_at;
use crate::decoder::sample_instant;
use crate::decoder::strictly_increasing;
use crate::decoder::word_of;
use crate::pipeline::capture_wf;
use crate::BITS;

verus! {

/// Bit `i` of a word, bit 0 least significant.
pub open spec fn word_bit(w: u16, i: u16) -> bool {
    (w >> i) & 1 == 1
}

/// Frame bit `k` of a transmission of `w`: the leading bit is the fixed
/// high start bit, the remaining bits are the word's, least significant
/// transmitted first.
pub open spec fn frame_bit(w: u16, k: int) -> bool {
    if k == 0 {
        true
    } else {
        word_bit(w, (k - 1) as u16)
    }
}

/// The word's bits in transmission order, as the decoder samples them.
pub open spec fn bits_of_word(w: u16) -> Seq<bool> {
    Seq::new((BITS - 1) as nat, |i: int| word_bit(w, i as u16))
}

/// Packing the bits of a word from bit `k` up gives the word shifted
/// right by `k`.
pub proof fn lemma_word_of_bits_from(w: u16, k: u16)
    requires
        k <= 16,
    ensures
        word_of(Seq::new((16 - k) as nat, |i: int| word_bit(w, (i + k) as u16))) == w >> k,
    decreases 16 - k,
{
    let s = Seq::new((16 - k) as nat, |i: int| word_bit(w, (i + k) as u16));
    if k == 16 {
        assert(w >> 16u16 == 0) by (bit_vector);
    } else {
        lemma_word_of_bits_from(w, (k + 1) as u16);
        assert(s.skip(1) =~= Seq::new((16 - (k + 1)) as nat, |i: int|
            word_bit(w, (i + (k + 1)) as u16)));
        assert(s[0] == word_bit(w, k));
        assert(w >> k == ((w >> k) & 1) + 2 * (w >> ((k + 1) as u16))) by (bit_vector)
            requires
                k < 16,
        ;
        assert((w >> k) & 1 == 1 || (w >> k) & 1 == 0) by (bit_vector);
    }
}

/// Packing a word's bits in transmission order gives the word back.
pub proof fn lemma_word_of_bits(w: u16)
    ensures
        word_of(bits_of_word(w)) == w,
{
    lemma_word_of_bits_from(w, 0);
    assert(w >> 0u16 == w) by (bit_vector);
    assert(bits_of_word(w) =~= Seq::new(16nat, |i: int| word_bit(w, (i + 0) as u16)));
}

/// Bit `i` of a word, computed.
fn word_bit_exec(w: u16, i: u16) -> (r: bool)
    requires
        i < 16,
    ensures
        r == word_bit(w, i),
{
    (w >> i) & 1 == 1
}

/// Emit the edge sequence a transmission of `word` produces at a given
/// clock: a transition at every bit midpoint and at every boundary
/// between equal bits.  The result is a well-formed capture that decodes
/// back to `word` — the round-trip law, carried in the final clauses.
pub fn encode_word(word: u16, clock: u64) -> (r: Vec<u64>)
    requires
        1 <= clock <= 1_000_000,
    ensures
        capture_wf(r@),
        r@.len() >= BITS,
        r@.last() > sample_instant(clock as int, BITS - 2),
        decoded_bits_spec(r@, clock as int) == bits_of_word(word),
        decoded_word_spec(r@, clock as int) == word,
{
    let mut edges: Vec<u64> = Vec::new();
    edges.push(0);
    // Frame bit 0: the start edge at 0 is its opening transition; its
    // mid-interval transition follows at one clock unit.
    edges.push(clock);
    proof {
        assert forall|i: int, j: int| 0 <= i < j < edges@.len() implies edges@[i] < edges@[j] by {
            assert(edges@[0] == 0 && edges@[1] == clock);
        }
    }
    let mut base: u64 = 2 * clock;
    let mut k: u64 = 1;
    while k < BITS
        invariant
            1 <= clock <= 1_000_000,
            1 <= k <= BITS,
            base == 2 * (clock as int) * (k as int),
            base <= 34_000_000,
            edges@.len() >= k + 1,
            edges@.len() <= 2 * k,
            edges@[0] == 0,
            strictly_increasing(edges@),
            edges@.last() == base - clock,
            (edges@.len() % 2 == 1) == !frame_bit(word, k - 1),
            forall|i: int|
                0 <= i < k - 1 ==> level_at(edges@, #[trigger] sample_instant(clock as int, i))
                    == frame_bit(word, i + 1),
        decreases BITS - k,
    {
        proof {
            assert(2 * (clock as int) * (k as int + 1) == 2 * (clock as int) * (k as int) + 2 * (
            clock as int)) by (nonlinear_arith);
            assert(2 * (clock as int) * (k as int + 1) <= 34_000_000) by (nonlinear_arith)
                requires
                    1 <= clock <= 1_000_000,
                    k as int + 1 <= 17,
            ;
        }
        // The frame bit now being transmitted, and the one before it.
        let bit_cur = word_bit_exec(word, (k - 1) as u16);
        let bit_prev = if k == 1 {
            true
        } else {
            word_bit_exec(word, (k - 2) as u16)
        };
        let ghost pre = edges@;
        // A boundary transition separates equal neighbouring bits.
        if bit_cur == bit_prev {
            proof {
                assert forall|j: int| 0 <= j < pre.len() implies #[trigger] pre[j] < base by {
                    if j < pre.len() - 1 {
                        assert(pre[j] < pre[pre.len() - 1]);
                    }
                }
                lemma_push_increasing(pre, base);
            }
            edges.push(base);
        }
        let ghost mid_pre = edges@;
        proof {
            assert forall|j: int| 0 <= j < mid_pre.len() implies #[trigger] mid_pre[j] < base
                + clock by {
                if j < mid_pre.len() - 1 {
                    assert(mid_pre[j] < mid_pre[mid_pre.len() - 1]);
                }
            }
            lemma_push_increasing(mid_pre, (base + clock) as u64);
        }
        edges.push(base + clock);
        proof {
            let c = clock as int;
            let t = sample_instant(c, k - 1);
            // The sampling instant of the newly fixed bit lies in the
            // first half of its interval: base <= t < base + clock.
            lemma_hoist_over_denominator(c, 2 * c, 2);
            assert((k as int - 1) * (2 * c) == 2 * c * (k as int) - 2 * c) by (nonlinear_arith);
            assert(t == base + c / 2);
            lemma_div_is_strictly_smaller(c, 2);
            // Older edges all precede the instant; the mid edge follows it.
            assert forall|j: int| 0 <= j < edges@.len() - 1 implies #[trigger] edges@[j] <= t by {
                if j < edges@.len() - 2 {
                    assert(edges@[j] < edges@[edges@.len() - 2]);
                }
                assert(edges@[edges@.len() - 2] == mid_pre[mid_pre.len() - 1]);
            }
            assert(edges@.last() == base + clock);
            lemma_count_le_split(edges@, t, edges@.len() - 1);
            // The parity of the count below the instant is the bit value.
            assert(bit_cur == frame_bit(word, k as int));
            assert(bit_prev == frame_bit(word, k - 1));
            assert(level_at(edges@, t) == frame_bit(word, k as int));
            // Earlier sampling instants precede both new edges, so their
            // levels are untouched.
            assert forall|i: int| 0 <= i < k - 1 implies level_at(
                edges@,
                #[trigger] sample_instant(c, i),
            ) == frame_bit(word, i + 1) by {
                assert(i * (2 * c) <= (k as int - 2) * (2 * c)) by (nonlinear_arith)
                    requires
                        0 <= i <= k as int - 2,
                        c >= 1,
                ;
                assert((k as int - 2) * (2 * c) == 2 * c * (k as int) - 4 * c)
                    by (nonlinear_arith);
                assert(sample_instant(c, i) < base);
                if bit_cur == bit_prev {
                    lemma_count_le_push_later(pre, base, sample_instant(c, i));
                }
                lemma_count_le_push_later(mid_pre, (base + clock) as u64, sample_instant(c, i));
            }
        }
        base = base + 2 * clock;
        k = k + 1;
    }
    proof {
        let c = clock as int;
        // The final mid edge lies past the last sampling instant:
        // the last edge is at 33 clock units, the instant before it.
        lemma_hoist_over_denominator(c, 2 * c, 2);
        lemma_div_is_strictly_smaller(c, 2);
        assert(base == 34 * c) by (nonlinear_arith)
            requires
                base == 2 * c * 17,
        ;
        assert(sample_instant(c, BITS - 2) == 32 * c + c / 2);
        assert(edges@.last() > sample_instant(c, BITS - 2));
        // Every edge fits in the recording window.
        assert forall|j: int| 0 <= j < edges@.len() implies #[trigger] edges@[j] < crate::RECORD_NS
            by {
            if j < edges@.len() - 1 {
                assert(edges@[j] < edges@[edges@.len() - 1]);
            }
        }
        // The decoded bits are the word's bits.
        assert(decoded_bits_spec(edges@, c) =~= bits_of_word(word));
        lemma_word_of_bits(word);
    }
    edges
}

} // verus!
