//! The edge-capture state machine.
//!
//! Capturing a transmission is a tight busy-polling loop: read the
//! monotonic clock, read the line, decide.  The reads are the caller's
//! (they are raw hardware access); every decision is made here.  The
//! caller feeds each observation — a timestamp and a line level — into
//! `step`, which walks three phases, each under its own timeout:
//!
//! 1. idle-wait: the bus must stay low for the idle threshold;
//! 2. start-detect: the first high level is transmission start;
//! 3. record: every level change is timestamped relative to start, until
//!    the recording window has elapsed.
//!
//! Timestamps must come from a monotonic clock, polled fast; the caller
//! passes each poll with a timestamp strictly later than the one before.

use vstd::prelude::*;

use crate::decoder::lemma_push_increasing;
use crate::decoder::strictly_increasing;
use crate::errors::CaptureError;
use crate::pipeline::capture_wf;
use crate::IDLE_NS;
use crate::MAX_EDGES;
use crate::RECORD_NS;
use crate::TIMEOUT_NS;

verus! {

/// Which phase of a capture the recorder is in, with the per-phase state.
#[derive(Clone, Copy, Debug, PartialEq, Eq, Structural)]
pub enum Phase {
    /// Waiting for the bus to stay low for the idle threshold.
    IdleWait { phase_start: u64, last_high: u64 },
    /// Waiting for the line to go high: transmission start.
    StartDetect { phase_start: u64 },
    /// Recording edges, `t0` the transmission-start timestamp and `level`
    /// the line level seen most recently.
    Record { t0: u64, level: bool },
}

/// What one polling step decided.
#[derive(Clone, Copy, Debug, PartialEq, Eq, Structural)]
pub enum StepStatus {
    /// Keep polling.
    Pending,
    /// The recording window has elapsed: the capture is complete.
    Done,
    /// The capture failed; stop polling.
    Failed(CaptureError),
}

/// The edge-capture state machine: phase, edges recorded so far, and the
/// timestamp of the latest poll.
pub struct EdgeRecorder {
    pub phase: Phase,
    pub edges: Vec<u64>,
    pub last_poll: u64,
}

impl EdgeRecorder {
    /// The recorder's invariant: the edge list always opens with the
    /// synthetic start edge and strictly increases within the recording
    /// window, and in the record phase the tracked level is the parity
    /// of the edge count (the line is known high right after start).
    pub open spec fn wf(self) -> bool {
        &&& self.edges@.len() >= 1
        &&& self.edges@[0] == 0
        &&& strictly_increasing(self.edges@)
        &&& self.edges@.len() <= MAX_EDGES
        &&& (forall|k: int| 0 <= k < self.edges@.len() ==> #[trigger] self.edges@[k] < RECORD_NS)
        &&& match self.phase {
            Phase::IdleWait { phase_start, last_high } => {
                &&& self.edges@.len() == 1
                &&& phase_start <= self.last_poll
                &&& last_high <= self.last_poll
            },
            Phase::StartDetect { phase_start } => {
                &&& self.edges@.len() == 1
                &&& phase_start <= self.last_poll
            },
            Phase::Record { t0, level } => {
                &&& t0 <= self.last_poll
                &&& level == (self.edges@.len() % 2 == 1)
                &&& (forall|k: int|
                    0 <= k < self.edges@.len() ==> #[trigger] self.edges@[k] <= self.last_poll
                        - t0)
            },
        }
    }

    /// Start a capture at timestamp `t`: enter the idle-wait phase with
    /// only the synthetic start edge recorded.
    pub fn new(t: u64) -> (r: EdgeRecorder)
        ensures
            r.wf(),
            r.phase == (Phase::IdleWait { phase_start: t, last_high: t }),
            r.edges@.len() == 1 && r.edges@[0] == 0,
            r.last_poll == t,
    {
        let mut edges: Vec<u64> = Vec::new();
        edges.push(0);
        EdgeRecorder { phase: Phase::IdleWait { phase_start: t, last_high: t }, edges, last_poll: t }
    }

    /// Feed one observation — the current timestamp and line level —
    /// into the capture.  Each phase times out on its own bound; in the
    /// record phase every level change is appended as an edge relative
    /// to transmission start, and one change too many fails the capture
    /// as noise.  The timestamp must be strictly later than the previous
    /// poll's (the clock is monotonic and polled faster than once per
    /// nanosecond step).
    pub fn step(&mut self, t: u64, line: bool) -> (r: StepStatus)
        requires
            old(self).wf(),
            t > old(self).last_poll,
        ensures
            final(self).wf(),
            final(self).last_poll == t,
            r == StepStatus::Done ==> capture_wf(final(self).edges@),
            (match old(self).phase {
                Phase::IdleWait { phase_start, last_high } => {
                    if t - phase_start >= TIMEOUT_NS {
                        &&& r == StepStatus::Failed(CaptureError::TimeoutIdle)
                        &&& final(self).phase == old(self).phase
                        &&& final(self).edges@ == old(self).edges@
                    } else if line {
                        &&& r == StepStatus::Pending
                        &&& final(self).phase == (Phase::IdleWait { phase_start, last_high: t })
                        &&& final(self).edges@ == old(self).edges@
                    } else if t - last_high >= IDLE_NS {
                        &&& r == StepStatus::Pending
                        &&& final(self).phase == (Phase::StartDetect { phase_start: t })
                        &&& final(self).edges@ == old(self).edges@
                    } else {
                        &&& r == StepStatus::Pending
                        &&& final(self).phase == old(self).phase
                        &&& final(self).edges@ == old(self).edges@
                    }
                },
                Phase::StartDetect { phase_start } => {
                    if t - phase_start >= TIMEOUT_NS {
                        &&& r == StepStatus::Failed(CaptureError::TimeoutWait)
                        &&& final(self).phase == old(self).phase
                        &&& final(self).edges@ == old(self).edges@
                    } else if line {
                        &&& r == StepStatus::Pending
                        &&& final(self).phase == (Phase::Record { t0: t, level: true })
                        &&& final(self).edges@ == old(self).edges@
                    } else {
                        &&& r == StepStatus::Pending
                        &&& final(self).phase == old(self).phase
                        &&& final(self).edges@ == old(self).edges@
                    }
                },
                Phase::Record { t0, level } => {
                    if t - t0 >= RECORD_NS {
                        &&& r == StepStatus::Done
                        &&& final(self).phase == old(self).phase
                        &&& final(self).edges@ == old(self).edges@
                    } else if line != level {
                        if old(self).edges@.len() == MAX_EDGES {
                            &&& r == StepStatus::Failed(CaptureError::TooManyEdges)
                            &&& final(self).phase == old(self).phase
                            &&& final(self).edges@ == old(self).edges@
                        } else {
                            &&& r == StepStatus::Pending
                            &&& final(self).phase == (Phase::Record { t0, level: !level })
                            &&& final(self).edges@ == old(self).edges@.push((t - t0) as u64)
                        }
                    } else {
                        &&& r == StepStatus::Pending
                        &&& final(self).phase == old(self).phase
                        &&& final(self).edges@ == old(self).edges@
                    }
                },
            }),
    {
        let res: StepStatus;
        match self.phase {
            Phase::IdleWait { phase_start, last_high } => {
                if t - phase_start >= TIMEOUT_NS {
                    res = StepStatus::Failed(CaptureError::TimeoutIdle);
                } else if line {
                    self.phase = Phase::IdleWait { phase_start, last_high: t };
                    res = StepStatus::Pending;
                } else if t - last_high >= IDLE_NS {
                    self.phase = Phase::StartDetect { phase_start: t };
                    res = StepStatus::Pending;
                } else {
                    res = StepStatus::Pending;
                }
            },
            Phase::StartDetect { phase_start } => {
                if t - phase_start >= TIMEOUT_NS {
                    res = StepStatus::Failed(CaptureError::TimeoutWait);
                } else if line {
                    self.phase = Phase::Record { t0: t, level: true };
                    res = StepStatus::Pending;
                } else {
                    res = StepStatus::Pending;
                }
            },
            Phase::Record { t0, level } => {
                if t - t0 >= RECORD_NS {
                    res = StepStatus::Done;
                } else if line != level {
                    if self.edges.len() == MAX_EDGES as usize {
                        res = StepStatus::Failed(CaptureError::TooManyEdges);
                    } else {
                        proof {
                            assert(forall|k: int|
                                0 <= k < self.edges@.len() ==> #[trigger] self.edges@[k] < t - t0);
                            lemma_push_increasing(self.edges@, (t - t0) as u64);
                        }
                        self.edges.push(t - t0);
                        self.phase = Phase::Record { t0, level: !level };
                        res = StepStatus::Pending;
                    }
                } else {
                    res = StepStatus::Pending;
                }
            },
        }
        self.last_poll = t;
        res
    }
}

} // verus!
