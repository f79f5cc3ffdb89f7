//! Tests for the decode side: clock recovery, bit decoding, signature
//! validation, the full pipeline, and the encode/decode round trip.

use battmeter::clock::clock_recoverable;
use battmeter::clock::clock_recovery;
use battmeter::decoder::decode_word;
use battmeter::decoder::pack_bits;
use battmeter::encoder::encode_word;
use battmeter::errors::CaptureError;
use battmeter::pipeline::decode_capture;
use battmeter::signature::validate_signature;
use battmeter::BITS;
use battmeter::MAX_EDGES;
use battmeter::RECORD_NS;
use battmeter::SIGNATURE;

const CLOCK: u64 = 500_000;

#[test]
fn single_edge_gives_too_few_edges() {
    // A capture holding only the synthetic start edge cannot be decoded.
    let edges: Vec<u64> = vec![0];
    assert_eq!(decode_capture(&edges), Err(CaptureError::TooFewEdges));
}

#[test]
fn short_capture_gives_too_few_edges() {
    // One edge fewer than BITS is still rejected.
    let mut edges: Vec<u64> = Vec::new();
    for i in 0..(BITS - 1) {
        edges.push(i * 2 * CLOCK);
    }
    assert_eq!(edges.len() as u64, BITS - 1);
    assert_eq!(decode_capture(&edges), Err(CaptureError::TooFewEdges));
}

#[test]
fn clock_recovery_averages_short_intervals() {
    // Deltas 2, 2, 2 and 94: threshold 48, short average exactly 2.
    let edges: Vec<u64> = vec![0, 2, 4, 6, 100];
    let clk = clock_recovery(&edges);
    assert_eq!(clk, 2);
    // Strictly positive and strictly below the largest delta.
    assert!(clk >= 1);
    assert!(clk < 94);
}

#[test]
fn clock_recovery_ignores_trailing_gap() {
    // A long trailing idle gap falls above the threshold and is excluded.
    let edges: Vec<u64> = vec![0, 10, 20, 30, 40, 33_000_000];
    assert_eq!(clock_recovery(&edges), 10);
}

#[test]
fn clock_recoverable_detects_degenerate_spacing() {
    // All deltas equal: no short population below the midpoint threshold.
    let flat: Vec<u64> = vec![0, 5, 10, 15];
    assert!(!clock_recoverable(&flat));
    // Deltas spread two units apart recover fine.
    let spread: Vec<u64> = vec![0, 2, 4, 8];
    assert!(clock_recoverable(&spread));
}

#[test]
fn pack_bits_packs_first_bit_least_significant() {
    let mut bits = vec![false; 16];
    bits[0] = true;
    bits[4] = true;
    bits[15] = true;
    assert_eq!(pack_bits(&bits), 0x8011);
}

#[test]
fn pack_bits_all_ones() {
    let bits = vec![true; 16];
    assert_eq!(pack_bits(&bits), 0xFFFF);
}

#[test]
fn validate_signature_accepts_exact_tag() {
    assert_eq!(validate_signature(SIGNATURE | 0x0001), Ok(0x0001));
    assert_eq!(validate_signature(SIGNATURE | 0x03FF), Ok(0x03FF));
    assert_eq!(validate_signature(SIGNATURE), Ok(0));
}

#[test]
fn validate_signature_rejects_wrong_tag() {
    // A wrong tag is rejected whatever the payload bits hold.
    assert_eq!(validate_signature(0x0123), Err(CaptureError::BadSignature));
    assert_eq!(validate_signature(0x7C00 | 0x03FF), Err(CaptureError::BadSignature));
    assert_eq!(validate_signature(!SIGNATURE), Err(CaptureError::BadSignature));
}

#[test]
fn round_trip_recovers_word_and_payload() {
    // A word carrying the expected tag survives encode, clock recovery,
    // decode and validation, and yields its payload.
    let word: u16 = SIGNATURE | 0x0155;
    let edges = encode_word(word, CLOCK);
    assert_eq!(edges[0], 0);
    assert!(edges.len() as u64 >= BITS);
    assert!(edges.len() as u64 <= MAX_EDGES);
    assert!(edges.windows(2).all(|w| w[0] < w[1]));
    assert!(edges.iter().all(|&e| e < RECORD_NS));
    assert_eq!(decode_word(&edges, CLOCK), Ok(word));
    assert_eq!(decode_capture(&edges), Ok(0x0155));
}

#[test]
fn round_trip_holds_for_many_payloads() {
    for payload in [0u16, 1, 2, 0x0AA, 0x155, 0x200, 0x3FE, 0x3FF] {
        let word = SIGNATURE | payload;
        let edges = encode_word(word, CLOCK);
        assert_eq!(decode_word(&edges, CLOCK), Ok(word));
        assert_eq!(decode_capture(&edges), Ok(payload));
    }
}

#[test]
fn round_trip_with_other_clocks() {
    for clock in [2u64, 17, 1000, 999_999] {
        let word = SIGNATURE | 0x02A7;
        let edges = encode_word(word, clock);
        assert_eq!(decode_word(&edges, clock), Ok(word));
    }
}

#[test]
fn decoder_is_deterministic() {
    let word: u16 = SIGNATURE | 0x01C3;
    let edges = encode_word(word, CLOCK);
    let first = decode_word(&edges, CLOCK);
    let second = decode_word(&edges, CLOCK);
    assert_eq!(first, second);
    assert_eq!(decode_capture(&edges), decode_capture(&edges));
}

#[test]
fn wrong_tag_fails_signature_whatever_the_payload() {
    // A well-formed transmission whose tag bits are wrong is rejected as
    // BadSignature, for every payload tried.
    for payload in [0u16, 0x001, 0x155, 0x3FF] {
        let word = 0x7C00 | payload;
        let edges = encode_word(word, CLOCK);
        assert_eq!(decode_word(&edges, CLOCK), Ok(word));
        assert_eq!(decode_capture(&edges), Err(CaptureError::BadSignature));
    }
}

#[test]
fn exhausted_sequence_gives_premature_end() {
    // Seventeen edges one clock apart, the last delta doubled: the clock
    // recovers, but the final sampling instant lies past the last edge.
    let mut edges: Vec<u64> = Vec::new();
    for i in 0..16u64 {
        edges.push(i * CLOCK);
    }
    edges.push(17 * CLOCK);
    assert_eq!(edges.len() as u64, BITS);
    assert_eq!(decode_capture(&edges), Err(CaptureError::PrematureEnd));
}
