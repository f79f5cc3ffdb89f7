//! Linear resistor-divider voltage model, in exact fixed-point form.
//!
//! The physical voltage is `(payload / MAX_ADC) * ((R1 + R2) / R2) * Vcc`
//! volts.  To keep the model exact (and free of floating point) the crate
//! represents a voltage as the integer `payload * VOLT_NUM`, a rational
//! number over the fixed denominator `VOLT_DEN`:
//!
//! `volts == (payload * VOLT_NUM) / VOLT_DEN`
//!
//! Scaling is linear in the payload by construction, so the conversion can
//! be stated and proved without any rounding caveats; a caller that wants
//! volts performs the one final division itself.

use vstd::prelude::*;

use crate::MAX_ADC;
use crate::R1_OHMS;
use crate::R2_OHMS;
use crate::VCC_CENTIVOLTS;

verus! {

/// Numerator weight of one payload count: `(R1 + R2) * Vcc` in centivolts.
pub const VOLT_NUM: u64 = (R1_OHMS + R2_OHMS) * VCC_CENTIVOLTS;

/// Fixed denominator of the representation: `R2 * MAX_ADC * 100`.
/// The factor 100 cancels the centivolt scaling of `VOLT_NUM`.
pub const VOLT_DEN: u64 = R2_OHMS * MAX_ADC * 100;

/// The scaled voltage a payload converts to: `payload * VOLT_NUM`,
/// understood as a rational over `VOLT_DEN`.
pub open spec fn voltage_scaled_spec(payload: u16) -> int {
    payload * VOLT_NUM
}

/// Convert a decoded payload to its scaled voltage.
pub fn voltage_scaled(payload: u16) -> (r: u64)
    ensures
        r == voltage_scaled_spec(payload),
{
    proof {
        assert(payload * VOLT_NUM <= 0xFFFF * VOLT_NUM) by (nonlinear_arith)
            requires
                payload <= 0xFFFF,
        ;
    }
    (payload as u64) * VOLT_NUM
}

/// A zero payload converts to exactly zero volts.
pub proof fn lemma_voltage_zero()
    ensures
        voltage_scaled_spec(0) == 0,
{
}

/// The conversion is linear: scaling the payload by any factor scales the
/// voltage by the same factor (doubling is the case `k == 2`).
pub proof fn lemma_voltage_linear(p: u16, k: u16)
    requires
        k * p <= u16::MAX,
    ensures
        voltage_scaled_spec((k * p) as u16) == k * voltage_scaled_spec(p),
{
    assert((k * p) as u16 as int == k * p) by (bit_vector)
        requires
            k * p <= u16::MAX,
    ;
    assert(((k * p) as int) * (VOLT_NUM as int) == (k as int) * ((p as int) * (VOLT_NUM as int)))
        by (nonlinear_arith);
}

/// The conversion is strictly monotonic in the payload.
pub proof fn lemma_voltage_monotonic(p: u16, q: u16)
    requires
        p < q,
    ensures
        voltage_scaled_spec(p) < voltage_scaled_spec(q),
{
    assert((p as int) * (VOLT_NUM as int) < (q as int) * (VOLT_NUM as int)) by (nonlinear_arith)
        requires
            p < q,
            VOLT_NUM >= 1,
    ;
}

/// A full-scale payload converts to exactly `Vcc * (R1 + R2) / R2` volts:
/// both sides below are that voltage multiplied by `100 * R2 * VOLT_DEN`.
pub proof fn lemma_voltage_full_scale()
    ensures
        voltage_scaled_spec(MAX_ADC as u16) * (100 * R2_OHMS) == (VCC_CENTIVOLTS * (R1_OHMS
            + R2_OHMS)) * VOLT_DEN,
{
    assert((1023 * ((477_000 + 118_400) * 330)) * (100 * 118_400) == (330 * (477_000 + 118_400))
        * ((118_400 * 1023) * 100)) by (nonlinear_arith);
}

} // verus!
