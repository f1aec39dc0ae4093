use vosk_commands::swap::{SwapPolicy, UpdateAction};

fn w(items: &[&str]) -> Vec<String> {
    items.iter().map(|s| s.to_string()).collect()
}

#[test]
fn idle_update_swaps_now() {
    let mut p = SwapPolicy::new();
    assert_eq!(
        p.on_vocabulary_update(w(&["a", "b"]), true),
        UpdateAction::SwapNow(w(&["a", "b"])),
    );
}

#[test]
fn busy_update_defers_and_boundary_pops_once() {
    let mut p = SwapPolicy::new();
    assert_eq!(p.on_vocabulary_update(w(&["a"]), false), UpdateAction::Deferred);
    assert_eq!(p.take_pending(), Some(w(&["a"])));
    assert_eq!(p.take_pending(), None);
}

#[test]
fn unchanged_set_is_tweak_only() {
    let mut p = SwapPolicy::new();
    p.note_applied(w(&["a", "b"]));
    assert_eq!(p.on_vocabulary_update(w(&["a", "b"]), false), UpdateAction::TweakOnly);
    assert!(!p.has_pending());
}

#[test]
fn update_matching_live_set_cancels_pending() {
    // live=A, pending=B, update=A: the change was undone before any boundary;
    // swapping to B later would apply a stale vocabulary.
    let mut p = SwapPolicy::new();
    p.note_applied(w(&["a"]));
    assert_eq!(p.on_vocabulary_update(w(&["b"]), false), UpdateAction::Deferred);
    assert_eq!(p.on_vocabulary_update(w(&["a"]), false), UpdateAction::TweakOnly);
    assert_eq!(p.take_pending(), None);
}

#[test]
fn update_matching_pending_set_is_tweak_only_and_keeps_pending() {
    let mut p = SwapPolicy::new();
    p.note_applied(w(&["a"]));
    assert_eq!(p.on_vocabulary_update(w(&["b"]), false), UpdateAction::Deferred);
    assert_eq!(p.on_vocabulary_update(w(&["b"]), false), UpdateAction::TweakOnly);
    assert_eq!(p.take_pending(), Some(w(&["b"])));
}

#[test]
fn newer_pending_replaces_older() {
    let mut p = SwapPolicy::new();
    p.note_applied(w(&["a"]));
    assert_eq!(p.on_vocabulary_update(w(&["b"]), false), UpdateAction::Deferred);
    assert_eq!(p.on_vocabulary_update(w(&["c"]), false), UpdateAction::Deferred);
    assert_eq!(p.take_pending(), Some(w(&["c"])));
    assert_eq!(p.take_pending(), None);
}

#[test]
fn failed_build_can_repark_for_retry() {
    let mut p = SwapPolicy::new();
    assert_eq!(p.on_vocabulary_update(w(&["b"]), false), UpdateAction::Deferred);
    let taken = p.take_pending().unwrap();
    p.restore_pending(taken);
    assert_eq!(p.take_pending(), Some(w(&["b"])));
}

#[test]
fn idle_update_does_not_linger_as_pending() {
    let mut p = SwapPolicy::new();
    let action = p.on_vocabulary_update(w(&["a"]), true);
    assert!(matches!(action, UpdateAction::SwapNow(_)));
    assert!(!p.has_pending());
}

#[test]
fn applied_list_is_reported() {
    let mut p = SwapPolicy::default();
    assert!(p.applied().is_none());
    p.note_applied(w(&["a", "b"]));
    assert_eq!(p.applied(), Some(w(&["a", "b"]).as_slice()));
}

#[test]
fn reset_forgets_both_lists() {
    let mut p = SwapPolicy::new();
    p.note_applied(w(&["a"]));
    assert_eq!(p.on_vocabulary_update(w(&["b"]), false), UpdateAction::Deferred);
    p.on_reset();
    assert!(p.applied().is_none());
    assert!(!p.has_pending());
    // With the startup recognizer live, no list counts as unchanged.
    assert_eq!(
        p.on_vocabulary_update(w(&["a"]), true),
        UpdateAction::SwapNow(w(&["a"])),
    );
}

#[test]
fn repeated_update_is_tweak_only_after_the_swap() {
    let mut p = SwapPolicy::new();
    match p.on_vocabulary_update(w(&["a"]), true) {
        UpdateAction::SwapNow(words) => p.note_applied(words),
        other => panic!("unexpected {:?}", other),
    }
    assert_eq!(p.on_vocabulary_update(w(&["a"]), true), UpdateAction::TweakOnly);
    assert_eq!(p.on_vocabulary_update(w(&["a"]), false), UpdateAction::TweakOnly);
}

#[test]
fn idle_update_overtakes_a_parked_list() {
    let mut p = SwapPolicy::new();
    p.restore_pending(w(&["old"]));
    assert_eq!(
        p.on_vocabulary_update(w(&["new"]), true),
        UpdateAction::SwapNow(w(&["new"])),
    );
    // The parked list still follows at the boundary.
    assert_eq!(p.take_pending(), Some(w(&["old"])));
}
