//! Replaying captures into terminal emulators.
use bridge_probes::capture::CaptureChunk;
use bridge_probes::vt_eval::{
    alacritty_run, capture_detail, count_rows_shown, replay_alacritty, replay_avt, report_run,
};

fn chunks(list: &[&[u8]]) -> Vec<CaptureChunk> {
    list.iter()
        .enumerate()
        .map(|(i, bytes)| CaptureChunk { t_ns: 1_500_000_000 * i as u64, bytes: bytes.to_vec() })
        .collect()
}

#[test]
fn both_libraries_replay_a_valid_stream() {
    let stream = chunks(&[b"\x1b[2J\x1b[1;1Hhello ", "wörld 🌍".as_bytes()]);
    let run = replay_alacritty(&stream, 80, 24).finish(5);
    assert_eq!(run.library, "alacritty_terminal");
    assert_eq!(run.feed_micros, 5);
    assert_eq!((run.non_blank_lines, run.non_blank_lines_after_resize), (1, 1));
    let avt = replay_avt(&stream, 80, 24).expect("a valid stream must replay").finish(9);
    assert_eq!(avt.non_blank_lines, 1);
    assert_eq!(avt.library, "avt");
    assert_eq!(avt.feed_micros, 9);
    assert_eq!(avt.non_blank_lines_after_resize, 1);
    assert!(avt.damage_events >= 1);
}

#[test]
fn a_utf8_split_across_chunks_is_reassembled_not_rejected() {
    let full = "héllo".as_bytes();
    assert!(replay_avt(&chunks(&[&full[..2], &full[2..]]), 80, 24).is_ok());
}

#[test]
fn undecodable_bytes_abort_the_avt_replay_instead_of_shortening_it() {
    let stream = chunks(&[b"fine so far", &[0xFF, 0xFE], b"never reached"]);
    let err = match replay_avt(&stream, 80, 24) {
        Err(err) => err,
        Ok(_) => panic!("undecodable bytes must abort the replay"),
    };
    assert!(err.contains("chunk 2 of 3"), "must say how far it got: {err}");
    assert!(err.contains("(11 bytes replayed)"), "{err}");
    assert!(
        err.contains("nothing comparable"),
        "must say why the numbers cannot be compared: {err}"
    );
}

#[test]
fn a_screen_wraps_and_reflows() {
    let wide = "x".repeat(100);
    let run = replay_avt(&chunks(&[wide.as_bytes(), b"\r\nsecond"]), 80, 24).unwrap().finish(0);
    assert_eq!(run.non_blank_lines, 2);
    assert_eq!(run.non_blank_lines_after_resize, 2);
    assert!(run.resize_behavior.starts_with("Vt::resize returns the "));
    assert!(report_run(&run).starts_with("feed=0us damage_events="));
}

#[test]
fn sampled_damage_counts_a_full_screen_as_its_rows() {
    // A new terminal is damaged as a whole; what comes after damages its lines.
    let first = replay_alacritty(&chunks(&[b"a"]), 80, 24).finish(0);
    assert_eq!(first.damage_events, 24);
    let both = replay_alacritty(&chunks(&[b"a", b"\r\nb"]), 80, 24).finish(0);
    assert_eq!(both.damage_events, 24 + 2);
    assert_eq!(both.non_blank_lines, 2);
    assert_eq!(replay_alacritty(&vec![], 80, 24).finish(0).damage_events, 0);
}

#[test]
fn raw_bytes_are_never_refused_by_the_byte_terminal() {
    let run = replay_alacritty(&chunks(&[b"fine", &[0xFF, 0xFE], b" still here"]), 80, 24).finish(0);
    assert_eq!(run.non_blank_lines, 1);
    assert_eq!(
        run.resize_behavior,
        "Term::resize(Dimensions) in place; scrollback retained, grid reflowed to 120x40 (1 non-blank lines)"
    );
}

#[test]
fn a_grid_reflows_into_a_wider_terminal() {
    let run = replay_alacritty(&chunks(&["x".repeat(100).as_bytes()]), 80, 24).finish(0);
    assert_eq!((run.non_blank_lines, run.non_blank_lines_after_resize), (2, 1));
}

#[test]
fn rows_of_cells_show_what_is_no_space() {
    let rows = vec!["   ".to_string(), " x ".to_string(), String::new(), "\t".to_string()];
    assert_eq!(count_rows_shown(&rows), 2);
    let run = alacritty_run(1, 50, &rows, &vec!["a".to_string()]);
    assert!(run.resize_behavior.ends_with("120x40 (1 non-blank lines)"));
    assert_eq!((run.non_blank_lines, run.non_blank_lines_after_resize), (2, 1));
}

#[test]
fn a_capture_is_described_before_it_is_replayed() {
    assert_eq!(
        capture_detail("/c", &chunks(&[b"abc", b"de"])),
        "/c \u{2014} 2 chunks, 5 bytes, 1.5s of recorded session"
    );
    assert_eq!(
        capture_detail("/c", &vec![]),
        "/c \u{2014} 0 chunks, 0 bytes, 0.0s of recorded session"
    );
}
