//! Behavioural tests for the ring buffer, the blend arithmetic, the event
//! decoding and the full note lifecycle of the freeze engine.
use zamerzika::blend::{avg_samples, mix_samples};
use zamerzika::engine::FreezeEngine;
use zamerzika::midi::{decode_note_event, NoteEvent};
use zamerzika::ring::RingBuffer;
use zamerzika::{MAX_WINDOW_SIZE, XFADE_FRAMES};

/// One period of pitch 69 (A4, 440 Hz) at 48 kHz: round(48000 / 440).
const WINDOW_A4_48K: usize = 109;

fn filled_ring(len: usize, values: &[i64]) -> RingBuffer {
    let mut rb = RingBuffer::new(MAX_WINDOW_SIZE);
    rb.resize(len, 0);
    for &v in values {
        rb.write(v);
    }
    rb
}

#[test]
fn ring_write_read_roundtrip() {
    // A full buffer of writes reads back in order, then repeats cyclically.
    let values: [i64; 5] = [3, 1, 4, 1, 5];
    let mut rb = filled_ring(5, &values);
    let out = rb.read_block(10);
    for j in 0..10 {
        assert_eq!(out[j], values[j % 5]);
    }
}

#[test]
fn ring_partial_roundtrip() {
    // Fewer writes than the length still read back in order.
    let values: [i64; 3] = [7, -2, 9];
    let mut rb = filled_ring(8, &values);
    let out = rb.read_block(3);
    assert_eq!(out, vec![7, -2, 9]);
}

#[test]
fn ring_open_window_recent() {
    // After nine writes into a six-slot ring, a four-sample window replays
    // exactly the last four values written.
    let mut rb = filled_ring(6, &[1, 2, 3, 4, 5, 6, 7, 8, 9]);
    rb.open_window(4);
    let out = rb.read_block(4);
    assert_eq!(out, vec![6, 7, 8, 9]);
}

#[test]
fn ring_resize_fills_exposed() {
    let mut rb = RingBuffer::new(6);
    rb.resize(4, 9);
    let out = rb.read_block(4);
    assert_eq!(out, vec![9, 9, 9, 9]);
}

#[test]
fn smooth_depth_zero_is_noop() {
    let mut rb = filled_ring(4, &[10, 20, 30, 40]);
    rb.smooth(0);
    let out = rb.read_block(4);
    assert_eq!(out, vec![10, 20, 30, 40]);
}

#[test]
fn smooth_blends_with_predecessor() {
    // Write cursor wraps back to 0, read cursor sits at 0; smoothing depth 2
    // blends position 0 with position 3, then position 1 with the fresh
    // position 0.
    let mut rb = filled_ring(4, &[8, 2, 6, 4]);
    rb.smooth(2);
    let out = rb.read_block(4);
    assert_eq!(out, vec![6, 4, 6, 4]);
}

#[test]
fn smooth_halves_seam_gap() {
    // The seam between the last and first sample carries a gap of 96; one
    // smoothing step cuts it to 48.
    let mut rb = filled_ring(6, &[0, 0, 0, 0, 0, 96]);
    rb.smooth(1);
    let out = rb.read_block(6);
    assert_eq!(out, vec![48, 0, 0, 0, 0, 96]);
}

#[test]
fn blend_formulas_exact() {
    assert_eq!(avg_samples(3, 5), 4);
    assert_eq!(avg_samples(-3, -4), -3);
    assert_eq!(avg_samples(0, 0), 0);
    // Full countdown: pure looped content.
    assert_eq!(mix_samples(XFADE_FRAMES, 12345, -999), 12345);
    // Half way: equal weights.
    assert_eq!(mix_samples(32, 100, 200), 150);
    // Last armed step: one sixty-fourth of the loop remains.
    assert_eq!(mix_samples(1, 64, 0), 1);
}

#[test]
fn decode_note_events() {
    assert_eq!(decode_note_event(0x90, 69), Some(NoteEvent::On(69)));
    assert_eq!(decode_note_event(0x80, 69), Some(NoteEvent::Off(69)));
    assert_eq!(decode_note_event(0x91, 69), None);
    assert_eq!(decode_note_event(0xB0, 1), None);
    assert_eq!(decode_note_event(0x00, 0), None);
}

#[test]
fn fresh_engine_passes_through() {
    let mut engine = FreezeEngine::new();
    for ch in 0..2 {
        for s in [-5i64, 0, 17] {
            assert_eq!(engine.process_sample(ch, s), s);
        }
    }
    assert_eq!(engine.held_note(), None);
    assert_eq!(engine.window_size(), 0);
}

#[test]
fn freeze_replays_captured_period() {
    // Record a recognisable ramp, freeze at A4, and check that the frozen
    // output replays the last window of input with period 109; outside the
    // seam-smoothed region it equals the input recorded one window earlier.
    let mut engine = FreezeEngine::new();
    let mut recorded: Vec<i64> = Vec::new();
    for i in 0..300i64 {
        let s = i * 7 + 1;
        recorded.push(s);
        engine.process_sample(0, s);
        engine.process_sample(1, s);
    }
    engine.note_on(69, WINDOW_A4_48K);
    assert_eq!(engine.held_note(), Some(69));
    assert_eq!(engine.window_size(), WINDOW_A4_48K);

    let mut out: Vec<i64> = Vec::new();
    for _ in 0..300 {
        out.push(engine.process_sample(0, 0));
        engine.process_sample(1, 0);
    }
    // Periodicity over the whole window, smoothed seam included.
    for j in 0..(300 - WINDOW_A4_48K) {
        assert_eq!(out[j], out[j + WINDOW_A4_48K]);
    }
    // Away from the smoothed seam the loop is the raw recent history: the
    // sample recorded one window before the freeze point.
    for j in 0..300 {
        let p = j % WINDOW_A4_48K;
        if p >= XFADE_FRAMES {
            assert_eq!(out[j], recorded[300 - WINDOW_A4_48K + p]);
        }
    }
}

#[test]
fn mismatched_note_off_is_ignored() {
    let mut engine = FreezeEngine::new();
    for i in 0..200i64 {
        engine.process_sample(0, i);
        engine.process_sample(1, i);
    }
    engine.note_on(69, WINDOW_A4_48K);
    let frozen_out = engine.process_sample(0, -1);
    engine.note_off(70);
    // Still frozen: held pitch unchanged, no countdown armed.
    assert_eq!(engine.held_note(), Some(69));
    assert_eq!(engine.xfade_remaining(0), 0);
    assert_eq!(engine.xfade_remaining(1), 0);
    // And the output continues the loop rather than passing live input.
    let next_out = engine.process_sample(1, -1);
    assert_eq!(frozen_out, next_out);
}

#[test]
fn release_counts_down_and_crossfades() {
    // Freeze a constant signal (smoothing keeps it constant), then release:
    // sample 1 is pure loop, sample 64 is one sixty-fourth loop, sample 65
    // is pure live input.
    let looped = 6400i64;
    let live = 0i64;
    let mut engine = FreezeEngine::new();
    for _ in 0..200 {
        engine.process_sample(0, looped);
        engine.process_sample(1, looped);
    }
    engine.note_on(69, WINDOW_A4_48K);
    engine.note_off(69);
    assert_eq!(engine.held_note(), None);
    assert_eq!(engine.xfade_remaining(0), XFADE_FRAMES);
    assert_eq!(engine.xfade_remaining(1), XFADE_FRAMES);
    for k in 1..=XFADE_FRAMES {
        let remaining = (XFADE_FRAMES - k + 1) as i64;
        let expected = remaining * looped / XFADE_FRAMES as i64;
        assert_eq!(engine.process_sample(0, live), expected);
    }
    assert_eq!(engine.xfade_remaining(0), 0);
    // Channel 1 was never ticked: its countdown is still fully armed.
    assert_eq!(engine.xfade_remaining(1), XFADE_FRAMES);
    // Past the countdown the channel is live again.
    assert_eq!(engine.process_sample(0, 1234), 1234);
}

#[test]
fn note_on_during_release_resets_countdown() {
    let mut engine = FreezeEngine::new();
    for i in 0..200i64 {
        engine.process_sample(0, i);
        engine.process_sample(1, i);
    }
    engine.note_on(60, 200);
    engine.note_off(60);
    engine.process_sample(0, 5);
    assert!(engine.xfade_remaining(0) > 0);
    // A new note-on supersedes the in-progress release.
    engine.note_on(72, 100);
    assert_eq!(engine.held_note(), Some(72));
    assert_eq!(engine.xfade_remaining(0), 0);
    assert_eq!(engine.xfade_remaining(1), 0);
}

#[test]
fn no_state_holds_note_and_countdown() {
    // Walk the whole lifecycle and check the exclusivity invariant after
    // every step: a held note and an active countdown never coexist.
    let mut engine = FreezeEngine::new();
    let consistent = |e: &FreezeEngine| {
        !(e.held_note().is_some() && (e.xfade_remaining(0) > 0 || e.xfade_remaining(1) > 0))
    };
    assert!(consistent(&engine));
    for i in 0..150i64 {
        engine.process_sample(0, i);
        engine.process_sample(1, i);
        assert!(consistent(&engine));
    }
    engine.note_on(69, WINDOW_A4_48K);
    assert!(consistent(&engine));
    engine.note_off(69);
    assert!(consistent(&engine));
    for i in 0..40i64 {
        engine.process_sample(0, i);
        assert!(consistent(&engine));
    }
    engine.note_on(57, 218);
    assert!(consistent(&engine));
    engine.note_off(57);
    for i in 0..100i64 {
        engine.process_sample(0, i);
        engine.process_sample(1, i);
        assert!(consistent(&engine));
    }
}
