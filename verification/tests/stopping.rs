//! Scanning for stop sequences.
use seeker::server::stop::{scan_stop, StopScan};

fn emit(pending: &str, stops: &[&str]) -> usize {
    let stops: Vec<String> = stops.iter().map(|s| s.to_string()).collect();
    match scan_stop(pending, &stops) {
        StopScan::Emit(n) => n,
        StopScan::Hit { .. } => panic!("unexpected hit"),
    }
}

fn hit(pending: &str, stops: &[&str]) -> (usize, String) {
    let stops: Vec<String> = stops.iter().map(|s| s.to_string()).collect();
    match scan_stop(pending, &stops) {
        StopScan::Hit { upto, seq } => (upto, seq),
        StopScan::Emit(_) => panic!("expected hit"),
    }
}

#[test]
fn no_stops_emits_everything() {
    assert_eq!(emit("hello world", &[]), 11);
}

#[test]
fn holds_partial_stop_suffix() {
    // "abc</th" with stop "</think>" must hold back "</th" (4 bytes).
    assert_eq!(emit("abc</th", &["</think>"]), 3);
    // A bare tail that isn't a stop prefix is fully emitted.
    assert_eq!(emit("abcdef", &["</think>"]), 6);
}

#[test]
fn detects_full_stop_across_pieces() {
    let (upto, seq) = hit("answer</think>", &["</think>"]);
    assert_eq!(upto, 6);
    assert_eq!(seq, "</think>");
}

#[test]
fn earliest_match_wins() {
    let (upto, seq) = hit("aXbYc", &["Y", "X"]);
    assert_eq!(upto, 1);
    assert_eq!(seq, "X");
}

#[test]
fn multibyte_tail_is_not_split() {
    // A held-back boundary must stay on a char boundary (é = 2 bytes).
    let n = emit("café", &["éxit"]);
    assert!("café".is_char_boundary(n), "cut at {n} is a char boundary");
}

#[test]
fn held_tail_is_the_longest_start_of_a_stop() {
    assert_eq!(emit("café", &["éxit"]), 3);
    assert_eq!(emit("xaba", &["abac", "ac"]), 1);
    // An empty stop never matches.
    assert_eq!(emit("abc", &[""]), 3);
    assert_eq!(emit("", &["a"]), 0);
}
