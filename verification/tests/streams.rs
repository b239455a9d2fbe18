//! Decoding, first-token readings and the stand-in's paints.
use bridge_probes::firsttoken::FirstTokenClock;
use bridge_probes::standin::banner_line;
use bridge_probes::utf8::{InvalidUtf8, Reassembler};

const MS: u64 = 1_000_000;

#[test]
fn utf8_survives_mid_codepoint_chunk_split() {
    // "héllo 🌍" split inside both the 2-byte 'é' and the 4-byte '🌍'.
    let full = "héllo 🌍".as_bytes();
    let mut reassembler = Reassembler::new();
    for chunk in [&full[..2], &full[2..9], &full[9..]] {
        reassembler.push(chunk).unwrap();
    }
    assert_eq!(reassembler.decoded(), "héllo 🌍");
    assert_eq!(reassembler.pending(), 0);
}

#[test]
fn genuinely_invalid_utf8_is_detected_not_dropped() {
    let mut reassembler = Reassembler::new();
    reassembler.push(b"ok ").unwrap();
    assert_eq!(reassembler.push(&[0xFF, 0xFE]), Err(InvalidUtf8));
}

#[test]
fn error_path_does_not_duplicate_the_decoded_prefix_on_retry() {
    let mut reassembler = Reassembler::new();
    assert_eq!(reassembler.push(b"ok \xFF"), Err(InvalidUtf8));
    assert_eq!(reassembler.decoded(), "ok ");
    assert_eq!(reassembler.push(b"more"), Err(InvalidUtf8));
    assert_eq!(reassembler.decoded(), "ok ", "prefix must not re-decode");
}

#[test]
fn taking_the_decoded_text_leaves_the_carried_codepoint_alone() {
    let full = "é".as_bytes();
    let mut reassembler = Reassembler::new();
    reassembler.push(b"ok").unwrap();
    reassembler.push(&full[..1]).unwrap();
    assert_eq!(reassembler.take_decoded(), "ok");
    assert_eq!(reassembler.decoded(), "");
    assert_eq!(reassembler.pending(), 1);
    reassembler.push(&full[1..]).unwrap();
    assert_eq!(reassembler.decoded(), "é");
}

#[test]
fn truncated_final_codepoint_is_left_pending_not_dropped() {
    let full = "héllo 🌍".as_bytes();
    let mut reassembler = Reassembler::new();
    reassembler.push(&full[..2]).unwrap();
    reassembler.push(&full[2..full.len() - 1]).unwrap();
    assert!(
        reassembler.pending() > 0,
        "a truncated final codepoint must stay observable as pending bytes"
    );
}

#[test]
fn every_cut_of_a_stream_decodes_alike() {
    let full = "aé🌍z".as_bytes();
    for cut in 0..=full.len() {
        let mut reassembler = Reassembler::new();
        reassembler.push(&full[..cut]).unwrap();
        reassembler.push(&full[cut..]).unwrap();
        assert_eq!(reassembler.decoded(), "aé🌍z");
        assert_eq!(reassembler.pending(), 0);
    }
}

#[test]
fn launch_latency_is_spawn_to_first_chunk_only() {
    let t0 = 5_000 * MS;
    let mut clock = FirstTokenClock::new(t0);
    assert_eq!(clock.launch_latency(), None);
    clock.note_chunk(t0 + 120 * MS);
    clock.note_chunk(t0 + 900 * MS);
    assert_eq!(clock.launch_latency(), Some(120 * MS));
}

#[test]
fn first_output_after_submit_ignores_pre_submit_chunks() {
    let t0 = 5_000 * MS;
    let mut clock = FirstTokenClock::new(t0);
    clock.note_chunk(t0 + 100 * MS);
    clock.note_submit(t0 + 500 * MS);
    assert_eq!(clock.first_output_after_submit(), None);
    clock.note_chunk(t0 + 650 * MS);
    clock.note_chunk(t0 + 700 * MS);
    assert_eq!(clock.first_output_after_submit(), Some(150 * MS));
}

#[test]
fn only_the_first_submit_is_measured() {
    let t0 = 5_000 * MS;
    let mut clock = FirstTokenClock::new(t0);
    clock.note_submit(t0 + 100 * MS);
    clock.note_submit(t0 + 400 * MS);
    clock.note_chunk(t0 + 500 * MS);
    assert_eq!(clock.first_output_after_submit(), Some(400 * MS));
}

#[test]
fn turn_duration_is_measured_from_the_submit() {
    let t0 = 5_000 * MS;
    let mut clock = FirstTokenClock::new(t0);
    assert_eq!(clock.since_submit(t0 + 1_000 * MS), None);
    clock.note_submit(t0 + 500 * MS);
    assert_eq!(clock.since_submit(t0 + 4_500 * MS), Some(4_000 * MS));
}

#[test]
fn banner_carries_paint_count_and_dimensions() {
    assert_eq!(
        banner_line(3, "80", "24"),
        "AGENT-BRIDGE-STANDIN paint=3 cols=80 rows=24"
    );
}

#[test]
fn successive_paints_are_distinguishable() {
    // The repaint assertion relies on paint=1 never matching paint=2.
    assert!(!banner_line(2, "80", "24").contains(&banner_line(1, "80", "24")));
}
