//! The closed set of ways one capture attempt can fail.

use vstd::prelude::*;

verus! {

/// Failure of a single capture-and-decode attempt.  All variants are
/// non-fatal at the sampling-loop level: each is counted as one bad sample
/// and the capture is retried, up to a bound.
#[derive(Clone, Copy, Debug, PartialEq, Eq, Structural)]
pub enum CaptureError {
    /// The bus never settled to idle within the idle-wait timeout.
    TimeoutIdle,
    /// No start-of-transmission edge was seen within the wait timeout.
    TimeoutWait,
    /// More transitions were recorded than the configured bound allows.
    TooManyEdges,
    /// Fewer edges were captured than decoding needs.
    TooFewEdges,
    /// The edge sequence ran out before every bit could be sampled.
    PrematureEnd,
    /// The decoded tag field does not match the expected constant.
    BadSignature,
}

} // verus!
