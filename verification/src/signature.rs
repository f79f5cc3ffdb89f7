//! Validation of the fixed tag field carried by every decoded word.

use vstd::prelude::*;

use crate::errors::CaptureError;
use crate::PAYLOAD_MASK;
use crate::SIGNATURE;
use crate::SIGNATURE_MASK;

verus! {

/// Whether the tag bits of a decoded word equal the expected constant.
pub open spec fn signature_ok(word: u16) -> bool {
    word & SIGNATURE_MASK == SIGNATURE
}

/// The payload field of a decoded word: the tag bits cleared.
pub open spec fn payload_of(word: u16) -> u16 {
    word & PAYLOAD_MASK
}

/// Check the tag field of a decoded word and strip it.  Exactly the words
/// whose tag bits equal `SIGNATURE` are accepted, whatever their payload
/// bits hold; every other word is rejected as `BadSignature`.
pub fn validate_signature(word: u16) -> (r: Result<u16, CaptureError>)
    ensures
        r == (if signature_ok(word) {
            Ok::<u16, CaptureError>(payload_of(word))
        } else {
            Err::<u16, CaptureError>(CaptureError::BadSignature)
        }),
        r matches Ok(p) ==> p <= PAYLOAD_MASK,
{
    proof {
        assert(word & 0x03FF <= 0x03FF) by (bit_vector);
    }
    if word & SIGNATURE_MASK != SIGNATURE {
        Err(CaptureError::BadSignature)
    } else {
        Ok(word & PAYLOAD_MASK)
    }
}

} // verus!
