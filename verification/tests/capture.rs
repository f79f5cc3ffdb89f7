//! Tests for the capture side: the edge-recorder state machine, the
//! sampling-loop accounting, and the voltage conversion.

use battmeter::encoder::encode_word;
use battmeter::pipeline::decode_capture;
use battmeter::recorder::EdgeRecorder;
use battmeter::recorder::StepStatus;
use battmeter::errors::CaptureError;
use battmeter::sampler::SampleAccumulator;
use battmeter::sampler::SampleDecision;
use battmeter::voltage::voltage_scaled;
use battmeter::voltage::VOLT_DEN;
use battmeter::IDLE_NS;
use battmeter::MAX_BAD_SAMPLES;
use battmeter::MAX_EDGES;
use battmeter::RECORD_NS;
use battmeter::SAMPLES;
use battmeter::SIGNATURE;
use battmeter::TIMEOUT_NS;

/// Drive a fresh recorder through idle-wait and start-detect, returning
/// it in the record phase with the given transmission-start timestamp.
fn recorder_in_record_phase(t0: u64) -> EdgeRecorder {
    let mut rec = EdgeRecorder::new(0);
    // The line stays low long enough for the bus to count as idle.
    assert_eq!(rec.step(1, false), StepStatus::Pending);
    assert_eq!(rec.step(IDLE_NS + 1, false), StepStatus::Pending);
    // The first high level is transmission start.
    assert_eq!(rec.step(t0, true), StepStatus::Pending);
    rec
}

#[test]
fn idle_wait_times_out() {
    let mut rec = EdgeRecorder::new(0);
    // The line keeps pulsing high, so the bus never settles to idle.
    assert_eq!(rec.step(1, true), StepStatus::Pending);
    assert_eq!(rec.step(TIMEOUT_NS, false), StepStatus::Failed(CaptureError::TimeoutIdle));
}

#[test]
fn start_detect_times_out() {
    let mut rec = EdgeRecorder::new(0);
    assert_eq!(rec.step(1, false), StepStatus::Pending);
    assert_eq!(rec.step(IDLE_NS + 1, false), StepStatus::Pending);
    // The line never goes high after the bus went idle.
    let wait_start = IDLE_NS + 1;
    assert_eq!(rec.step(wait_start + 1, false), StepStatus::Pending);
    assert_eq!(
        rec.step(wait_start + TIMEOUT_NS, false),
        StepStatus::Failed(CaptureError::TimeoutWait)
    );
}

#[test]
fn record_captures_timestamped_edges() {
    let t0 = IDLE_NS + 10;
    let mut rec = recorder_in_record_phase(t0);
    // Two level changes, then the window elapses.
    assert_eq!(rec.step(t0 + 1_000, false), StepStatus::Pending);
    assert_eq!(rec.step(t0 + 2_500, true), StepStatus::Pending);
    assert_eq!(rec.step(t0 + 3_000, true), StepStatus::Pending);
    assert_eq!(rec.step(t0 + RECORD_NS, true), StepStatus::Done);
    assert_eq!(rec.edges, vec![0, 1_000, 2_500]);
}

#[test]
fn record_window_ends_on_time_not_edges() {
    let t0 = IDLE_NS + 10;
    let mut rec = recorder_in_record_phase(t0);
    // Trailing silence after a single edge is harmless.
    assert_eq!(rec.step(t0 + 700, false), StepStatus::Pending);
    assert_eq!(rec.step(t0 + RECORD_NS + 5, false), StepStatus::Done);
    assert_eq!(rec.edges, vec![0, 700]);
}

#[test]
fn spurious_edges_beyond_bound_fail_as_noise() {
    // One level change too many mid-recording fails with TooManyEdges
    // before any decoding is attempted.
    let t0 = IDLE_NS + 10;
    let mut rec = recorder_in_record_phase(t0);
    let mut level = true;
    let mut t = t0;
    // Fill the recorder up to its edge bound.
    for _ in 0..(MAX_EDGES - 1) {
        t += 1_000;
        level = !level;
        assert_eq!(rec.step(t, level), StepStatus::Pending);
    }
    assert_eq!(rec.edges.len() as u64, MAX_EDGES);
    // The next, spurious transition exceeds the bound.
    t += 1_000;
    level = !level;
    assert_eq!(rec.step(t, level), StepStatus::Failed(CaptureError::TooManyEdges));
}

/// The simulated line level at offset `tau` from transmission start:
/// low before the start edge, toggled by every transition since.
fn line_level(edges: &[u64], tau: u64) -> bool {
    edges.iter().filter(|&&e| e <= tau).count() % 2 == 1
}

#[test]
fn recorded_transmission_decodes_end_to_end() {
    let word: u16 = SIGNATURE | 0x0123;
    let clock: u64 = 500_000;
    let mut tx = encode_word(word, clock);
    // After its last transition the simulated line may rest high; a real
    // sensor releases the bus, so append the return-to-idle transition.
    if tx.len() % 2 == 1 {
        tx.push(34 * clock);
    }

    let mut rec = EdgeRecorder::new(0);
    assert_eq!(rec.step(1, false), StepStatus::Pending);
    assert_eq!(rec.step(IDLE_NS + 1, false), StepStatus::Pending);
    // Transmission starts: the leading edge takes the line high.
    let t0: u64 = 20_000_000;
    assert_eq!(rec.step(t0, true), StepStatus::Pending);
    // Poll the simulated line on a fine grid until the window elapses.
    let mut t = t0;
    loop {
        t += 2_000;
        match rec.step(t, line_level(&tx, t - t0)) {
            StepStatus::Pending => {},
            StepStatus::Done => break,
            StepStatus::Failed(e) => panic!("capture failed: {:?}", e),
        }
    }
    assert_eq!(rec.edges.len(), tx.len());
    assert_eq!(decode_capture(&rec.edges), Ok(word & 0x03FF));
}

#[test]
fn accumulator_counts_every_attempt() {
    let mut acc = SampleAccumulator::new();
    assert_eq!(acc.observe(Ok(100)), SampleDecision::KeepSampling);
    assert_eq!(acc.observe(Err(CaptureError::TimeoutIdle)), SampleDecision::KeepSampling);
    assert_eq!(acc.observe(Err(CaptureError::BadSignature)), SampleDecision::KeepSampling);
    assert_eq!(acc.observe(Ok(200)), SampleDecision::KeepSampling);
    assert_eq!(acc.good, 2);
    assert_eq!(acc.bad, 2);
    assert_eq!(acc.attempts, 4);
    assert_eq!(acc.good + acc.bad, acc.attempts);
    assert_eq!(acc.sum_scaled, voltage_scaled(100) + voltage_scaled(200));
}

#[test]
fn sampling_finishes_exactly_at_target_count() {
    let mut acc = SampleAccumulator::new();
    for i in 0..SAMPLES {
        let d = acc.observe(Ok(500));
        if i + 1 == SAMPLES {
            assert_eq!(d, SampleDecision::Finished);
        } else {
            assert_eq!(d, SampleDecision::KeepSampling);
        }
    }
    assert_eq!(acc.good, SAMPLES);
    assert_eq!(acc.attempts, SAMPLES);
    assert_eq!(acc.average_scaled(), voltage_scaled(500));
}

#[test]
fn sampling_aborts_just_past_failure_bound() {
    let mut acc = SampleAccumulator::new();
    for i in 0..=MAX_BAD_SAMPLES {
        let d = acc.observe(Err(CaptureError::PrematureEnd));
        if i == MAX_BAD_SAMPLES {
            assert_eq!(d, SampleDecision::TooManyFailures);
        } else {
            assert_eq!(d, SampleDecision::KeepSampling);
        }
    }
    assert_eq!(acc.bad, MAX_BAD_SAMPLES + 1);
    assert_eq!(acc.good, 0);
    assert_eq!(acc.good + acc.bad, acc.attempts);
}

#[test]
fn average_is_mean_of_good_samples() {
    let mut acc = SampleAccumulator::new();
    acc.observe(Ok(100));
    acc.observe(Err(CaptureError::TooFewEdges));
    acc.observe(Ok(300));
    let expected = (voltage_scaled(100) + voltage_scaled(300)) / 2;
    assert_eq!(acc.average_scaled(), expected);
}

#[test]
fn voltage_zero_and_full_scale() {
    assert_eq!(voltage_scaled(0), 0);
    // Full scale is Vcc * (R1 + R2) / R2 volts.
    let full = voltage_scaled(1023) as f64 / VOLT_DEN as f64;
    let expected = 3.30 * (477_000.0 + 118_400.0) / 118_400.0;
    assert!((full - expected).abs() < 1e-9);
}

#[test]
fn voltage_is_linear_in_payload() {
    // Doubling the payload doubles the voltage, exactly.
    for p in [1u16, 5, 100, 511] {
        assert_eq!(voltage_scaled(2 * p), 2 * voltage_scaled(p));
    }
    // And an exact spot value: one count of payload.
    assert_eq!(voltage_scaled(1), (477_000 + 118_400) * 330);
}
