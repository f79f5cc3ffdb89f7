//! Decoder for a one-wire, self-clocking battery-voltage sensor.
//!
//! A remote sensor transmits a fixed-width word as timed transitions on a
//! single digital line.  This crate holds the verified acquisition and
//! decode pipeline: the edge-capture state machine, clock recovery from
//! edge spacing, self-clocked bit decoding, signature validation, the
//! linear resistor-divider voltage model (in exact fixed-point form), and
//! the retry/averaging sampling discipline.  Polling the line, reading the
//! monotonic clock and elevating scheduler priority are left to the caller,
//! which feeds plain timestamped observations into the state machines here.

use vstd::prelude::*;

pub mod clock;
pub mod decoder;
pub mod encoder;
pub mod errors;
pub mod pipeline;
pub mod recorder;
pub mod sampler;
pub mod signature;
pub mod voltage;

verus! {

/// Give up on any single wait phase after this long (nanoseconds).
pub const TIMEOUT_NS: u64 = 1_000_000_000;

/// The bus is idle once the line has stayed low this long (nanoseconds).
pub const IDLE_NS: u64 = 10_000_000;

/// Number of bits per transmission, the fixed leading high bit included.
pub const BITS: u64 = 17;

/// Nominal transmission speed, bits per second.
pub const BITRATE: u64 = 1000;

/// Length of the recording window for one transmission (nanoseconds):
/// double the ideal transmission time, to tolerate clock drift.
pub const RECORD_NS: u64 = 2 * (1_000_000_000 / BITRATE) * BITS;

/// A recording with more transitions than this is treated as noise.
pub const MAX_EDGES: u64 = 3 * BITS;

/// Tag value a well-formed decoded word must carry.
pub const SIGNATURE: u16 = 0xB400;

/// Bits of the decoded word that hold the tag.
pub const SIGNATURE_MASK: u16 = 0xFC00;

/// Bits of the decoded word that hold the measurement; the complement of
/// `SIGNATURE_MASK`.
pub const PAYLOAD_MASK: u16 = 0x03FF;

/// First divider resistor, battery to input (ohms).
pub const R1_OHMS: u64 = 477_000;

/// Second divider resistor, input to ground (ohms).
pub const R2_OHMS: u64 = 118_400;

/// Supply voltage of the sensor, the top of its ADC range (centivolts).
pub const VCC_CENTIVOLTS: u64 = 330;

/// Full-scale ADC reading; equals `PAYLOAD_MASK`.
pub const MAX_ADC: u64 = 1023;

/// Number of good samples to average.
pub const SAMPLES: u64 = 10;

/// Give up after this many failed capture attempts.
pub const MAX_BAD_SAMPLES: u64 = 20;

} // verus!
