//! The sampling loop's accounting: retry on failure, accumulate valid
//! readings, stop at the target count or give up past the failure bound.

use vstd::prelude::*;

use crate::errors::CaptureError;
use crate::voltage::voltage_scaled;
use crate::voltage::voltage_scaled_spec;
use crate::voltage::VOLT_NUM;
use crate::MAX_BAD_SAMPLES;
use crate::PAYLOAD_MASK;
use crate::SAMPLES;

verus! {

/// What the sampling loop should do after one pipeline attempt.
#[derive(Clone, Copy, Debug, PartialEq, Eq, Structural)]
pub enum SampleDecision {
    /// Run the pipeline again.
    KeepSampling,
    /// The target count of good samples is reached: report the average.
    Finished,
    /// The failure bound is exceeded: the environment is broken, give up.
    TooManyFailures,
}

/// Running accounts of one sampling session: the sum of the scaled
/// voltages of the good samples, and the good, bad and total attempt
/// counts.
pub struct SampleAccumulator {
    pub sum_scaled: u64,
    pub good: u64,
    pub bad: u64,
    pub attempts: u64,
}

impl SampleAccumulator {
    /// The accumulator's invariant: every attempt was either good or
    /// bad, the counts respect their bounds, and the sum holds at most
    /// `good` full-scale readings.
    pub open spec fn wf(self) -> bool {
        &&& self.good + self.bad == self.attempts
        &&& self.good <= SAMPLES
        &&& self.bad <= MAX_BAD_SAMPLES + 1
        &&& self.sum_scaled <= self.good * ((PAYLOAD_MASK as int) * (VOLT_NUM as int))
    }

    /// Begin a sampling session with all accounts empty.
    pub fn new() -> (r: SampleAccumulator)
        ensures
            r.wf(),
            r.sum_scaled == 0,
            r.good == 0,
            r.bad == 0,
            r.attempts == 0,
    {
        SampleAccumulator { sum_scaled: 0, good: 0, bad: 0, attempts: 0 }
    }

    /// Account for one pipeline attempt.  A good sample adds its scaled
    /// voltage to the sum and finishes the session exactly when the
    /// target count is reached; a failure counts against the failure
    /// bound and aborts the session exactly when it exceeds it.  Every
    /// attempt is counted, so `good + bad == attempts` always holds.
    pub fn observe(&mut self, outcome: Result<u16, CaptureError>) -> (d: SampleDecision)
        requires
            old(self).wf(),
            old(self).good < SAMPLES,
            old(self).bad <= MAX_BAD_SAMPLES,
            outcome matches Ok(p) ==> p <= PAYLOAD_MASK,
        ensures
            final(self).wf(),
            final(self).attempts == old(self).attempts + 1,
            (match outcome {
                Ok(p) => {
                    &&& final(self).good == old(self).good + 1
                    &&& final(self).bad == old(self).bad
                    &&& final(self).sum_scaled == old(self).sum_scaled + voltage_scaled_spec(p)
                    &&& d == (if final(self).good == SAMPLES {
                        SampleDecision::Finished
                    } else {
                        SampleDecision::KeepSampling
                    })
                },
                Err(_) => {
                    &&& final(self).good == old(self).good
                    &&& final(self).bad == old(self).bad + 1
                    &&& final(self).sum_scaled == old(self).sum_scaled
                    &&& d == (if final(self).bad > MAX_BAD_SAMPLES {
                        SampleDecision::TooManyFailures
                    } else {
                        SampleDecision::KeepSampling
                    })
                },
            }),
    {
        match outcome {
            Ok(p) => {
                let v = voltage_scaled(p);
                proof {
                    let m = (PAYLOAD_MASK as int) * (VOLT_NUM as int);
                    assert((p as int) * (VOLT_NUM as int) <= m) by (nonlinear_arith)
                        requires
                            0 <= p <= PAYLOAD_MASK,
                            VOLT_NUM >= 1,
                            m == (PAYLOAD_MASK as int) * (VOLT_NUM as int),
                    ;
                    assert((self.good as int) * m + m == (self.good as int + 1) * m)
                        by (nonlinear_arith);
                    assert((self.good as int) * m <= 9 * m) by (nonlinear_arith)
                        requires
                            0 <= self.good as int <= 9,
                            m >= 0,
                    ;
                }
                self.sum_scaled = self.sum_scaled + v;
                self.good = self.good + 1;
                self.attempts = self.attempts + 1;
                if self.good >= SAMPLES {
                    SampleDecision::Finished
                } else {
                    SampleDecision::KeepSampling
                }
            },
            Err(_) => {
                self.bad = self.bad + 1;
                self.attempts = self.attempts + 1;
                if self.bad > MAX_BAD_SAMPLES {
                    SampleDecision::TooManyFailures
                } else {
                    SampleDecision::KeepSampling
                }
            },
        }
    }

    /// The arithmetic mean (rounded down) of the good samples' scaled
    /// voltages.
    pub fn average_scaled(&self) -> (r: u64)
        requires
            self.good >= 1,
        ensures
            r == self.sum_scaled as int / self.good as int,
    {
        self.sum_scaled / self.good
    }
}

/// Every pipeline attempt is accounted exactly once: the good and bad
/// counts always sum to the number of attempts.
pub proof fn lemma_sampling_accounting(acc: SampleAccumulator)
    requires
        acc.wf(),
    ensures
        acc.good + acc.bad == acc.attempts,
{
}

} // verus!
