//! The full decode pipeline for one captured edge sequence: minimum edge
//! count, clock recovery, bit decoding, signature validation.

use vstd::prelude::*;
use vstd::arithmetic::power2::lemma2_to64;

use crate::clock::clock_degenerate;
use crate::clock::clock_recovery;
use crate::clock::delta_seq;
use crate::clock::lemma_max_is_member;
use crate::clock::recovered_clock;
use crate::clock::seq_max;
use crate::decoder::decode_word;
use crate::decoder::decoded_bits_spec;
use crate::decoder::decoded_word_spec;
use crate::decoder::lemma_word_of_bound;
use crate::decoder::sample_instant;
use crate::decoder::strictly_increasing;
use crate::errors::CaptureError;
use crate::signature::payload_of;
use crate::signature::signature_ok;
use crate::signature::validate_signature;
use crate::BITS;
use crate::MAX_EDGES;
use crate::PAYLOAD_MASK;
use crate::RECORD_NS;

verus! {

/// A well-formed captured edge sequence: it opens with the synthetic
/// transmission-start edge at offset 0, its timestamps strictly increase,
/// every edge falls inside the recording window, and the recorder's edge
/// bound was respected.
pub open spec fn capture_wf(edges: Seq<u64>) -> bool {
    &&& edges.len() >= 1
    &&& edges[0] == 0
    &&& strictly_increasing(edges)
    &&& (forall|k: int| 0 <= k < edges.len() ==> #[trigger] edges[k] < RECORD_NS)
    &&& edges.len() <= MAX_EDGES
}

/// What one captured edge sequence decodes to: too few edges are rejected
/// outright; otherwise the word sampled at the recovered clock is checked
/// against the signature and its payload returned.
pub open spec fn capture_outcome(edges: Seq<u64>) -> Result<u16, CaptureError> {
    if edges.len() < BITS {
        Err(CaptureError::TooFewEdges)
    } else {
        let c = recovered_clock(edges);
        if edges.last() > sample_instant(c, BITS - 2) {
            let w = decoded_word_spec(edges, c) as u16;
            if signature_ok(w) {
                Ok(payload_of(w))
            } else {
                Err(CaptureError::BadSignature)
            }
        } else {
            Err(CaptureError::PrematureEnd)
        }
    }
}

/// Decode one captured edge sequence into a validated payload.
///
/// Sequences shorter than `BITS` fail with `TooFewEdges`; a sequence that
/// runs out before the final sampling instant fails with `PrematureEnd`;
/// a decoded word whose tag field is wrong fails with `BadSignature`; any
/// other sequence yields its payload.  A sequence long enough to decode
/// must not be degenerate (all deltas within one unit of each other), for
/// then no short-interval population exists to average.
pub fn decode_capture(edges: &Vec<u64>) -> (r: Result<u16, CaptureError>)
    requires
        capture_wf(edges@),
        edges@.len() >= BITS ==> !clock_degenerate(edges@),
    ensures
        r == capture_outcome(edges@),
        r matches Ok(p) ==> p <= PAYLOAD_MASK,
{
    if edges.len() < BITS as usize {
        return Err(CaptureError::TooFewEdges);
    }
    let clk = clock_recovery(edges);
    proof {
        // The recovered clock is below the largest delta, which is itself
        // inside the recording window.
        lemma_max_is_member(delta_seq(edges@));
        let i = choose|i: int|
            0 <= i < delta_seq(edges@).len() && delta_seq(edges@)[i] == seq_max(
                delta_seq(edges@),
            );
        assert(delta_seq(edges@)[i] == edges@[i + 1] - edges@[i]);
        assert(clk < RECORD_NS);
    }
    let word = match decode_word(edges, clk) {
        Ok(w) => w,
        Err(e) => {
            return Err(e);
        },
    };
    proof {
        lemma_word_of_bound(decoded_bits_spec(edges@, clk as int));
        lemma2_to64();
    }
    validate_signature(word)
}

} // verus!
