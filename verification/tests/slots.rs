//! Slot selection and the prefix cache.
use seeker::server::prefix_cache::{PrefixCache, PrefixEntry};
use seeker::server::slots::{choose_slot, lcp};

#[test]
fn choose_slot_prefers_longest_pure_extension() {
    let s0: &[u32] = &[1, 2];
    let s1: &[u32] = &[1, 2, 3, 4];
    let slots = [(s0, 9), (s1, 1)];
    assert_eq!(choose_slot(&slots, &[1, 2, 3, 4, 5], None), 1);
}

#[test]
fn choose_slot_skips_non_prefix_match() {
    let s0: &[u32] = &[1, 2, 9];
    let s1: &[u32] = &[];
    let slots = [(s0, 5), (s1, 0)];
    assert_eq!(choose_slot(&slots, &[1, 2, 3], None), 1);
}

#[test]
fn choose_slot_evicts_lru_when_no_match() {
    let a: &[u32] = &[5, 5];
    let b: &[u32] = &[6, 6];
    let slots = [(a, 7), (b, 2)];
    assert_eq!(choose_slot(&slots, &[9, 9], None), 1);
}

#[test]
fn choose_slot_cold_slot_first() {
    let warm: &[u32] = &[1, 2, 3];
    let cold: &[u32] = &[];
    let slots = [(warm, 4), (cold, 0)];
    assert_eq!(choose_slot(&slots, &[7, 8], None), 1);
}

#[test]
fn choose_slot_honors_valid_id_slot() {
    let a: &[u32] = &[1, 2];
    let b: &[u32] = &[];
    let slots = [(a, 1), (b, 0)];
    // In-range pin wins over prefix matching.
    assert_eq!(choose_slot(&slots, &[1, 2, 3], Some(1)), 1);
    // Out-of-range pin falls back to auto-select (slot 0 is a pure ext).
    assert_eq!(choose_slot(&slots, &[1, 2, 3], Some(9)), 0);
}

#[test]
fn common_prefix_length() {
    assert_eq!(lcp(&[1, 2, 3], &[1, 2, 4, 5]), 2);
    assert_eq!(lcp(&[], &[1]), 0);
    assert_eq!(lcp(&[1, 2], &[1, 2, 3]), 2);
}

fn entry(tokens: &[u32], last_used: u64, pinned: bool) -> Option<PrefixEntry> {
    Some(PrefixEntry {
        tokens: tokens.to_vec(),
        p: tokens.len() as u32,
        last_used,
        pinned,
    })
}

fn pc(entries: Vec<Option<PrefixEntry>>, p_min: u32) -> PrefixCache {
    PrefixCache {
        entries,
        max_cached_len: 4096,
        ckpt_stride: 512,
        p_min,
        clock: 0,
    }
}

#[test]
fn prefix_lookup_picks_longest_leading_prefix() {
    let c = pc(
        vec![entry(&[1, 2], 0, false), entry(&[1, 2, 3, 4], 0, false)],
        1,
    );
    assert_eq!(c.lookup(&[1, 2, 3, 4, 5]), Some(1));
}

#[test]
fn prefix_lookup_requires_full_leading_prefix() {
    let c = pc(vec![entry(&[1, 2, 9], 0, false)], 1);
    assert_eq!(c.lookup(&[1, 2, 3]), None);
    // An entry LONGER than the request can't be a prefix of it.
    let c = pc(vec![entry(&[1, 2, 3], 0, false)], 1);
    assert_eq!(c.lookup(&[1, 2]), None);
}

#[test]
fn prefix_reserve_victim_prefers_free_then_lru_unpinned() {
    // A free (None) slot is taken first.
    let c = pc(vec![entry(&[1], 7, false), None], 1);
    assert_eq!(c.reserve_victim(), Some(1));
    // No free slot: the least-recently-used UNPINNED entry goes.
    let c = pc(
        vec![
            entry(&[1], 1, true),
            entry(&[2], 5, false),
            entry(&[3], 3, false),
        ],
        1,
    );
    assert_eq!(c.reserve_victim(), Some(2));
    // Every slot pinned: nothing to evict.
    let c = pc(vec![entry(&[1], 1, true), entry(&[2], 2, true)], 1);
    assert_eq!(c.reserve_victim(), None);
}

#[test]
fn prefix_has_at_least_checks_length_and_match() {
    let c = pc(vec![entry(&[1, 2, 3, 4], 0, false)], 1);
    assert!(c.has_at_least(&[1, 2, 3, 4, 5], 3));
    assert!(c.has_at_least(&[1, 2, 3, 4, 5], 4));
    assert!(!c.has_at_least(&[1, 2, 3, 4, 5], 5));
    assert!(!c.has_at_least(&[1, 2, 9], 3));
}

#[test]
fn captured_prefix_is_found_and_seeds() {
    let mut c = PrefixCache::new(2, 4096, 512, 2);
    let prompt = [1, 2, 3, 4];
    let at = c.capture_plan(&prompt, 3).unwrap();
    assert_eq!(at, 0);
    c.captured(at, &prompt, 3, false);
    assert_eq!(c.clock, 1);
    assert_eq!(c.lookup(&[1, 2, 3, 9]), Some(0));
    assert_eq!(c.seed_plan(&[1, 2, 3, 9], 4), Some((0, 3)));
    // The last prompt token is always computed anew.
    assert_eq!(c.seed_plan(&[1, 2, 3], 3), Some((0, 2)));
    // Already covered: no second snapshot.
    assert_eq!(c.capture_plan(&prompt, 3), None);
    // Too short to keep.
    assert_eq!(c.capture_plan(&prompt, 1), None);
    c.touch(0);
    assert_eq!(c.clock, 2);
    c.clear();
    assert_eq!(c.clock, 0);
    assert_eq!(c.lookup(&[1, 2, 3, 9]), None);
}
