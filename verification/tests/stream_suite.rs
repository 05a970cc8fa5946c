use novelcore::dedup::append_chunk_with_overlap;
use novelcore::gate::{action_prefix_state, LiveEmitGate};
use novelcore::sse::{is_done_sentinel, sse_drain_lines, sse_payload, sse_take_line};

#[test]
fn dedup_reports_largest_overlap() {
    // the chunk's first three characters equal the transcript's last three
    let mut full = String::from("Hello, wor");
    let (overlap, unique) = append_chunk_with_overlap(&mut full, "world!");
    assert_eq!(overlap, 3);
    assert_eq!(unique, "ld!");
    assert_eq!(full, "Hello, world!");
}

#[test]
fn dedup_prefers_the_longest_overlap() {
    // both "aba" and "a" overlap; the longest must win
    let mut full = String::from("xaba");
    let (overlap, unique) = append_chunk_with_overlap(&mut full, "abab");
    assert_eq!(overlap, 3);
    assert_eq!(unique, "b");
    assert_eq!(full, "xabab");
}

#[test]
fn dedup_without_overlap_appends_everything() {
    let mut full = String::from("abc");
    let (overlap, unique) = append_chunk_with_overlap(&mut full, "def");
    assert_eq!(overlap, 0);
    assert_eq!(unique, "def");
    assert_eq!(full, "abcdef");
}

#[test]
fn dedup_never_splits_a_multibyte_glyph() {
    let mut full = String::from("你好");
    let (overlap, unique) = append_chunk_with_overlap(&mut full, "好吗？");
    assert_eq!(overlap, 1);
    assert_eq!(unique, "吗？");
    assert_eq!(full, "你好吗？");
}

#[test]
fn dedup_empty_chunk_changes_nothing() {
    let mut full = String::from("abc");
    let (overlap, unique) = append_chunk_with_overlap(&mut full, "");
    assert_eq!(overlap, 0);
    assert_eq!(unique, "");
    assert_eq!(full, "abc");
}

#[test]
fn gate_suppresses_the_marker_fed_piecewise() {
    let mut gate = LiveEmitGate::new();
    let mut emitted = String::new();
    emitted.push_str(&gate.push("AC"));
    emitted.push_str(&gate.push("TIO"));
    emitted.push_str(&gate.push("N:"));
    emitted.push_str(&gate.push(" run the step"));
    emitted.push_str(&gate.finalize());
    assert_eq!(emitted, "");
}

#[test]
fn gate_is_case_insensitive() {
    let mut gate = LiveEmitGate::new();
    let mut emitted = String::new();
    emitted.push_str(&gate.push("ac"));
    emitted.push_str(&gate.push("tIon:"));
    emitted.push_str(&gate.push("hidden"));
    emitted.push_str(&gate.finalize());
    assert_eq!(emitted, "");
}

#[test]
fn gate_flushes_everything_on_deviation() {
    let mut gate = LiveEmitGate::new();
    let mut emitted = String::new();
    emitted.push_str(&gate.push("ACT"));
    assert_eq!(emitted, "");
    emitted.push_str(&gate.push("UALLY fine"));
    assert_eq!(emitted, "ACTUALLY fine");
    emitted.push_str(&gate.push(" and more"));
    emitted.push_str(&gate.finalize());
    assert_eq!(emitted, "ACTUALLY fine and more");
}

#[test]
fn gate_passes_ordinary_prose_verbatim_across_splits() {
    let input = "Once upon a time, something happened.";
    for split in 0..input.len() {
        if !input.is_char_boundary(split) {
            continue;
        }
        let mut gate = LiveEmitGate::new();
        let mut emitted = String::new();
        emitted.push_str(&gate.push(&input[..split]));
        emitted.push_str(&gate.push(&input[split..]));
        emitted.push_str(&gate.finalize());
        assert_eq!(emitted, input);
    }
}

#[test]
fn gate_finalize_flushes_an_ambiguous_probe() {
    let mut gate = LiveEmitGate::new();
    let first = gate.push("ACTIO");
    assert_eq!(first, "");
    let flushed = gate.finalize();
    assert_eq!(flushed, "ACTIO");
}

#[test]
fn action_prefix_state_reports_both_flags() {
    assert_eq!(action_prefix_state("AcTiOn: go"), (true, true));
    assert_eq!(action_prefix_state("act"), (true, false));
    assert_eq!(action_prefix_state("Hello"), (false, false));
    assert_eq!(action_prefix_state("ACTION:"), (true, true));
    assert_eq!(action_prefix_state("ACTOR"), (false, false));
    // the comparison is literal: whitespace is not part of the marker
    assert_eq!(action_prefix_state("  action: x"), (false, false));
    assert_eq!(action_prefix_state("   "), (false, false));
    // the empty text is a proper prefix of the marker
    assert_eq!(action_prefix_state(""), (true, false));
}

#[test]
fn gate_flushes_a_whitespace_only_chunk_at_once() {
    let mut gate = LiveEmitGate::new();
    // eight spaces are no marker prefix: shown immediately, nothing buffered
    assert_eq!(gate.push("        "), "        ");
    assert_eq!(gate.push("later text"), "later text");
    assert_eq!(gate.finalize(), "");
}

#[test]
fn a_whitespace_led_reply_is_shown_however_split() {
    // whitespace is not a marker prefix, so a whitespace-led reply is
    // ordinary prose; the outcome is the same for any split
    let mut gate = LiveEmitGate::new();
    let mut emitted = String::new();
    emitted.push_str(&gate.push("  "));
    emitted.push_str(&gate.push("ACTION: shown"));
    emitted.push_str(&gate.finalize());
    assert_eq!(emitted, "  ACTION: shown");
    let mut whole = LiveEmitGate::new();
    let mut emitted_whole = String::new();
    emitted_whole.push_str(&whole.push("  ACTION: shown"));
    emitted_whole.push_str(&whole.finalize());
    assert_eq!(emitted_whole, "  ACTION: shown");
}

#[test]
fn the_probe_never_reaches_the_marker_length() {
    // the longest text a fresh gate can hold back is a six-character
    // ambiguous head; the seventh character decides
    let mut gate = LiveEmitGate::new();
    assert_eq!(gate.push("ACTION"), "");
    assert_eq!(gate.push(":"), "");
    let mut other = LiveEmitGate::new();
    assert_eq!(other.push("ACTION"), "");
    assert_eq!(other.push("S"), "ACTIONS");
}

#[test]
fn take_line_trims_carriage_return_and_keeps_the_partial_tail() {
    let mut buf = String::from("first\r\nsecond\npartial");
    assert_eq!(sse_take_line(&mut buf), Some("first".to_string()));
    assert_eq!(sse_take_line(&mut buf), Some("second".to_string()));
    assert_eq!(sse_take_line(&mut buf), None);
    assert_eq!(buf, "partial");
}

#[test]
fn drain_lines_takes_every_complete_line() {
    let mut buf = String::from("a\nb\nc");
    let lines = sse_drain_lines(&mut buf);
    assert_eq!(lines, vec!["a".to_string(), "b".to_string()]);
    assert_eq!(buf, "c");
}

#[test]
fn payload_requires_the_data_prefix() {
    assert_eq!(sse_payload("data: {\"x\":1}"), Some("{\"x\":1}".to_string()));
    assert_eq!(sse_payload("data:[DONE]"), Some("[DONE]".to_string()));
    assert_eq!(sse_payload("event: ping"), None);
    assert_eq!(sse_payload("dat"), None);
}

#[test]
fn the_end_sentinel_is_recognized_exactly() {
    assert!(is_done_sentinel("[DONE]"));
    assert!(!is_done_sentinel("[DONE] "));
    assert!(!is_done_sentinel("[done]"));
}
