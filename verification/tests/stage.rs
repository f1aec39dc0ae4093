use vosk_commands::args::LifecycleMode;
use vosk_commands::json::Json;
use vosk_commands::machine::{Action, Boundary, Decoding, Input, SwapReport};
use vosk_commands::recognition::{Recognition, Transcript, TranscriptAlternative};
use vosk_commands::stage::{initial_frames, Stage};

fn w(items: &[&str]) -> Vec<String> {
    items.iter().map(|s| s.to_string()).collect()
}

fn update(words: &[&str]) -> Input {
    let items = words.iter().map(|s| Json::Text(s.to_string())).collect();
    Input::VocabularyUpdate(Json::Object(vec![("words".to_string(), Json::Array(items))]))
}

fn start(session: &str) -> Input {
    Input::AudioStart(Json::Object(vec![(
        "session_id".to_string(),
        Json::Text(session.to_string()),
    )]))
}

fn chunk(samples: usize) -> Input {
    Input::AudioChunk { session_id: "chunk".to_string(), payload: vec![0; 2 * samples] }
}

fn heard(text: &str) -> Input {
    Input::Recognized(Recognition::Multiple(vec![TranscriptAlternative {
        text: text.to_string(),
        confidence: 5,
    }]))
}

fn take(stage: &mut Stage, input: Input) -> Vec<Action> {
    assert!(stage.is_accepted(&input), "{:?}", input);
    stage.handle(input)
}

fn built(actions: &[Action]) -> (Vec<String>, Boundary) {
    match actions.last() {
        Some(Action::Build { words, boundary }) => (words.clone(), *boundary),
        other => panic!("no build: {:?}", other),
    }
}

fn sent(actions: &[Action]) -> &Transcript {
    match actions.first() {
        Some(Action::Send(t)) => t,
        other => panic!("nothing sent: {:?}", other),
    }
}

fn report(actions: &[Action]) -> &SwapReport {
    match actions.first() {
        Some(Action::Swapped(r)) => r,
        other => panic!("no report: {:?}", other),
    }
}

/// Feeds a chunk that the decoder runs on with, hearing `partial`.
fn run_on(stage: &mut Stage, samples: usize, partial: &str) -> Vec<Action> {
    let fed = take(stage, chunk(samples));
    assert!(matches!(fed.as_slice(), [Action::Feed(s)] if s.len() == samples));
    let asked = take(stage, Input::Accepted(Decoding::Running));
    assert!(matches!(asked.as_slice(), [Action::TakePartial]), "{:?}", asked);
    take(stage, Input::Partial(partial.to_string()))
}

#[test]
fn initial_credit_depends_on_the_mode() {
    assert_eq!(initial_frames(LifecycleMode::Session), 16);
    assert_eq!(initial_frames(LifecycleMode::Continuous), 64);
}

#[test]
fn idle_update_builds_at_once_and_is_live() {
    let mut s = Stage::new(LifecycleMode::Session);
    assert!(!s.is_dynamic());
    let (words, boundary) = built(&take(&mut s, update(&["b", "a", "b"])));
    assert_eq!(words, w(&["[unk]", "a", "b"]));
    assert_eq!(boundary, Boundary::Idle);
    let done = take(&mut s, Input::Built(true));
    assert_eq!(report(&done).count, 3);
    assert!(report(&done).delta.is_none());
    assert_eq!(done.len(), 1);
    assert!(s.is_ready());
    assert!(s.is_dynamic());
    // The same set again, in another order and with repetition: nothing to do.
    assert!(take(&mut s, update(&["a", "b", "a"])).is_empty());
}

#[test]
fn fresh_recognizer_is_not_reset_by_the_next_session() {
    let mut s = Stage::new(LifecycleMode::Session);
    take(&mut s, update(&["a"]));
    take(&mut s, Input::Built(true));
    let first = take(&mut s, start("one"));
    assert!(matches!(
        first.as_slice(),
        [Action::Prepare { reset: false }, Action::Grant { frames: 16, session_id }]
            if session_id.is_empty()
    ));
    let second = take(&mut s, start("two"));
    assert!(matches!(second[0], Action::Prepare { reset: true }));
}

#[test]
fn failed_idle_build_drops_the_list() {
    let mut s = Stage::new(LifecycleMode::Session);
    take(&mut s, update(&["a"]));
    let done = take(&mut s, Input::Built(false));
    assert!(matches!(
        done.as_slice(),
        [Action::BuildFailed { boundary: Boundary::Idle, count: 2 }]
    ));
    assert!(!s.is_dynamic());
    // Nothing was parked: the session starts without a build.
    assert!(matches!(take(&mut s, start("one"))[0], Action::Prepare { reset: true }));
}

#[test]
fn update_in_a_session_waits_for_the_result() {
    let mut s = Stage::new(LifecycleMode::Session);
    take(&mut s, start("one"));
    let parked = take(&mut s, update(&["a"]));
    assert!(matches!(parked.as_slice(), [Action::Parked]));
    run_on(&mut s, 100, "a");
    take(&mut s, chunk(100));
    let asked = take(&mut s, Input::Accepted(Decoding::Finalized));
    assert!(matches!(asked.as_slice(), [Action::TakeResult]));
    let actions = take(&mut s, heard("go"));
    assert_eq!(sent(&actions).session_id, "one");
    assert_eq!(sent(&actions).text, "go");
    assert!(!sent(&actions).is_final);
    assert_eq!(built(&actions), (w(&["[unk]", "a"]), Boundary::Finalized));
    let done = take(&mut s, Input::Built(true));
    assert_eq!(done.len(), 1);
    assert!(s.is_ready() && s.is_dynamic());
    // Audio flows on: the next session resets as usual.
    assert!(matches!(take(&mut s, start("two"))[0], Action::Prepare { reset: true }));
}

#[test]
fn failed_build_is_retried_at_the_next_boundary() {
    let mut s = Stage::new(LifecycleMode::Session);
    take(&mut s, start("one"));
    take(&mut s, update(&["a"]));
    let asked = take(&mut s, Input::AudioStop);
    assert!(matches!(asked.as_slice(), [Action::TakeFinalResult]));
    let actions = take(&mut s, heard("go"));
    assert!(sent(&actions).is_final);
    assert_eq!(built(&actions), (w(&["[unk]", "a"]), Boundary::AudioStop));
    let failed = take(&mut s, Input::Built(false));
    assert!(matches!(failed[0], Action::BuildFailed { boundary: Boundary::AudioStop, .. }));
    let again = take(&mut s, start("two"));
    assert_eq!(built(&again), (w(&["[unk]", "a"]), Boundary::AudioStart));
    let done = take(&mut s, Input::Built(true));
    assert!(matches!(
        done.as_slice(),
        [Action::Swapped(_), Action::Prepare { reset: false }, Action::Grant { frames: 16, .. }]
    ));
}

#[test]
fn swap_reports_the_difference() {
    let mut s = Stage::new(LifecycleMode::Session);
    take(&mut s, update(&["a", "b"]));
    take(&mut s, Input::Built(true));
    take(&mut s, update(&["b", "c", "d"]));
    let done = take(&mut s, Input::Built(true));
    let r = report(&done);
    assert_eq!(r.count, 4);
    assert_eq!(r.delta, Some((w(&["c", "d"]), w(&["a"]))));
}

#[test]
fn build_and_swap_hands_the_words_back_on_failure() {
    let mut s = Stage::new(LifecycleMode::Session);
    assert_eq!(s.build_and_swap(w(&["x"]), false).unwrap_err(), w(&["x"]));
    assert!(!s.is_dynamic());
    assert_eq!(s.build_and_swap(w(&["x"]), true).unwrap().count, 1);
    assert!(s.is_dynamic());
}

#[test]
fn update_back_to_the_live_list_cancels_the_parked_one() {
    let mut s = Stage::new(LifecycleMode::Session);
    take(&mut s, update(&["a"]));
    take(&mut s, Input::Built(true));
    take(&mut s, start("one"));
    assert!(matches!(take(&mut s, update(&["b"])).as_slice(), [Action::Parked]));
    assert!(take(&mut s, update(&["a"])).is_empty());
    take(&mut s, Input::AudioStop);
    let actions = take(&mut s, heard(""));
    assert_eq!(actions.len(), 1);
}

#[test]
fn threshold_counts_from_receipt() {
    let mut s = Stage::new(LifecycleMode::Session);
    take(&mut s, start("one"));
    assert_eq!(s.force_finalize_samples(), 12800);
    take(
        &mut s,
        Input::VocabularyUpdate(Json::Object(vec![
            ("force_finalize_ms".to_string(), Json::Unsigned(10)),
            ("words".to_string(), Json::Array(vec![])),
        ])),
    );
    assert_eq!(s.force_finalize_samples(), 160);
    run_on(&mut s, 159, "x");
    take(&mut s, chunk(1));
    let forced = take(&mut s, Input::Accepted(Decoding::Running));
    assert!(matches!(forced.as_slice(), [Action::TakeFinalResult]));
    let actions = take(&mut s, heard("go"));
    assert_eq!(built(&actions).1, Boundary::ForceFinalized);
}

#[test]
fn threshold_zero_never_forces() {
    let mut s = Stage::new(LifecycleMode::Session);
    take(
        &mut s,
        Input::VocabularyUpdate(Json::Object(vec![
            ("force_finalize".to_string(), Json::Bool(false)),
            ("words".to_string(), Json::Array(vec![])),
        ])),
    );
    take(&mut s, Input::Built(false));
    take(&mut s, start("one"));
    for _ in 0..20 {
        run_on(&mut s, 16000, "");
    }
    assert_eq!(s.force_finalize_samples(), 0);
}

#[test]
fn update_without_words_changes_nothing() {
    let mut s = Stage::new(LifecycleMode::Session);
    let data = Json::Object(vec![("force_finalize_ms".to_string(), Json::Unsigned(10))]);
    assert!(take(&mut s, Input::VocabularyUpdate(data)).is_empty());
    assert_eq!(s.force_finalize_samples(), 12800);
}

#[test]
fn reset_goes_back_to_the_startup_grammar() {
    let mut s = Stage::new(LifecycleMode::Session);
    take(
        &mut s,
        Input::VocabularyUpdate(Json::Object(vec![
            ("force_finalize_ms".to_string(), Json::Unsigned(10)),
            ("words".to_string(), Json::Array(vec![])),
        ])),
    );
    take(&mut s, Input::Built(true));
    take(&mut s, start("one"));
    take(&mut s, update(&["late"]));
    let actions = take(&mut s, Input::RecognizerReset);
    assert!(matches!(actions.as_slice(), [Action::ResetToStartup]));
    assert!(!s.is_dynamic());
    assert_eq!(s.force_finalize_samples(), 12800);
    take(&mut s, Input::AudioStop);
    assert_eq!(take(&mut s, heard("")).len(), 1);
    // The list that was live before counts as new again.
    assert_eq!(built(&take(&mut s, update(&[]))).0, w(&["[unk]"]));
}

#[test]
fn partial_text_is_the_hint_of_an_empty_result() {
    let mut s = Stage::new(LifecycleMode::Session);
    take(&mut s, start("one"));
    run_on(&mut s, 10, " open [unk] bro ");
    run_on(&mut s, 10, "  ");
    take(&mut s, Input::AudioStop);
    let actions = take(&mut s, heard("[unk]"));
    let t = sent(&actions);
    assert_eq!(t.session_id, "one");
    assert!(t.is_final);
    assert_eq!(t.text, "");
    assert_eq!(t.confidence, Some(5));
    assert_eq!(t.last_partial, Some("open bro".to_string()));
    // The hint is used up, and the session is closed.
    take(&mut s, Input::AudioStop);
    let actions = take(&mut s, heard(""));
    assert_eq!(sent(&actions).last_partial, None);
    assert_eq!(sent(&actions).session_id, "");
}

#[test]
fn chunk_session_stands_in_where_none_is_open() {
    let mut s = Stage::new(LifecycleMode::Continuous);
    take(&mut s, chunk(5));
    take(&mut s, Input::Accepted(Decoding::Finalized));
    assert_eq!(sent(&take(&mut s, heard("go"))).session_id, "chunk");
}

#[test]
fn every_fourth_chunk_earns_credit() {
    for (mode, frames) in [(LifecycleMode::Session, 4), (LifecycleMode::Continuous, 8)] {
        let mut s = Stage::new(mode);
        for round in 1..=8 {
            let actions = run_on(&mut s, 1, "");
            if round % 4 == 0 {
                assert!(matches!(
                    actions.as_slice(),
                    [Action::Grant { frames: f, session_id }]
                        if *f == frames && session_id == "chunk"
                ));
            } else {
                assert!(actions.is_empty());
            }
        }
    }
}

#[test]
fn failed_and_refused_chunks_still_count() {
    let mut s = Stage::new(LifecycleMode::Session);
    for decoding in [Decoding::Failed, Decoding::Refused, Decoding::Failed] {
        take(&mut s, chunk(1));
        assert!(take(&mut s, Input::Accepted(decoding)).is_empty());
    }
    take(&mut s, chunk(1));
    let actions = take(&mut s, Input::Accepted(Decoding::Refused));
    assert!(matches!(actions.as_slice(), [Action::Grant { frames: 4, .. }]));
}

#[test]
fn credit_follows_the_swap_at_a_result() {
    let mut s = Stage::new(LifecycleMode::Continuous);
    assert!(matches!(take(&mut s, update(&["a"])).as_slice(), [Action::Parked]));
    for _ in 0..3 {
        run_on(&mut s, 1, "");
    }
    take(&mut s, chunk(1));
    take(&mut s, Input::Accepted(Decoding::Finalized));
    let actions = take(&mut s, heard("go"));
    assert_eq!(actions.len(), 2);
    let done = take(&mut s, Input::Built(true));
    assert!(matches!(
        done.as_slice(),
        [Action::Swapped(_), Action::Grant { frames: 8, session_id }] if session_id == "chunk"
    ));
}

#[test]
fn continuous_mode_ignores_sessions_and_parks_every_update() {
    let mut s = Stage::new(LifecycleMode::Continuous);
    assert!(take(&mut s, start("one")).is_empty());
    assert!(take(&mut s, Input::AudioStop).is_empty());
    assert!(matches!(take(&mut s, update(&["a"])).as_slice(), [Action::Parked]));
    assert!(take(&mut s, start("two")).is_empty());
}

#[test]
fn other_events_are_ignored() {
    let mut s = Stage::new(LifecycleMode::Session);
    assert!(take(&mut s, Input::Other).is_empty());
    assert!(s.is_ready());
}

#[test]
fn replies_are_accepted_only_when_asked_for() {
    let mut s = Stage::new(LifecycleMode::Session);
    assert!(!s.is_accepted(&Input::Built(true)));
    assert!(!s.is_accepted(&heard("go")));
    take(&mut s, chunk(1));
    assert!(!s.is_accepted(&chunk(1)));
    assert!(!s.is_accepted(&Input::Partial("go".to_string())));
    assert!(s.is_accepted(&Input::Accepted(Decoding::Running)));
    assert!(!s.is_ready());
}

#[test]
fn session_start_without_a_name_keeps_the_open_one() {
    let mut s = Stage::new(LifecycleMode::Session);
    take(&mut s, start("one"));
    take(&mut s, Input::AudioStart(Json::Null));
    take(&mut s, Input::AudioStop);
    assert_eq!(sent(&take(&mut s, heard("go"))).session_id, "one");
}

fn asks(action: &Action) -> bool {
    matches!(
        action,
        Action::Build { .. }
            | Action::Feed(_)
            | Action::TakePartial
            | Action::TakeResult
            | Action::TakeFinalResult
    )
}

#[test]
fn random_runs_keep_the_protocol() {
    let mut seed: u64 = 12345;
    let mut draw = |n: u64| {
        seed = seed.wrapping_mul(6364136223846793005).wrapping_add(1442695040888963407);
        (seed >> 33) % n
    };
    let lists: [&[&str]; 4] = [&["a"], &["b", "a"], &["c"], &["a", "a"]];
    for mode in [LifecycleMode::Session, LifecycleMode::Continuous] {
        let mut s = Stage::new(mode);
        let mut open = false;
        for _ in 0..3000 {
            let event = match draw(10) {
                0 => update(lists[draw(4) as usize]),
                1 => Input::RecognizerReset,
                2 => start("one"),
                3 => Input::AudioStop,
                4 => Input::Other,
                _ => chunk(draw(4000) as usize),
            };
            let was_open = open;
            let is_update = matches!(event, Input::VocabularyUpdate(_));
            match event {
                Input::AudioStart(_) => open = true,
                Input::AudioStop => open = false,
                _ => {}
            }
            let mut next = Some(event);
            let mut replies = 0;
            let mut result_sent = false;
            while let Some(input) = next.take() {
                let had_result = matches!(input, Input::Recognized(_));
                let actions = take(&mut s, input);
                assert!(!had_result || matches!(actions[0], Action::Send(_)));
                for (i, action) in actions.iter().enumerate() {
                    assert!(!asks(action) || i + 1 == actions.len());
                    match action {
                        Action::Send(_) => {
                            assert!(had_result && i == 0);
                            result_sent = true;
                        }
                        Action::Build { boundary, words } => {
                            assert!(words.contains(&"[unk]".to_string()));
                            match boundary {
                                Boundary::Idle => {
                                    assert!(is_update && !was_open);
                                    assert_eq!(mode, LifecycleMode::Session);
                                }
                                Boundary::AudioStart => {
                                    assert_eq!(mode, LifecycleMode::Session);
                                }
                                _ => assert!(result_sent),
                            }
                            next = Some(Input::Built(draw(3) > 0));
                        }
                        Action::Feed(_) => {
                            let decoding = match draw(6) {
                                0 => Decoding::Finalized,
                                1 => Decoding::Failed,
                                2 => Decoding::Refused,
                                _ => Decoding::Running,
                            };
                            next = Some(Input::Accepted(decoding));
                        }
                        Action::TakePartial => next = Some(Input::Partial("a".to_string())),
                        Action::TakeResult | Action::TakeFinalResult => next = Some(heard("a")),
                        _ => {}
                    }
                }
                assert_eq!(next.is_none(), s.is_ready());
                replies += 1;
            }
            assert!(replies <= 4);
        }
    }
}

#[test]
fn result_without_alternatives_is_sent_empty() {
    let mut s = Stage::new(LifecycleMode::Session);
    take(&mut s, start("one"));
    run_on(&mut s, 10, "open");
    take(&mut s, chunk(10));
    take(&mut s, Input::Accepted(Decoding::Finalized));
    let actions = take(&mut s, Input::Recognized(Recognition::Multiple(vec![])));
    let t = sent(&actions);
    assert_eq!(t.text, "");
    assert_eq!(t.confidence, Some(0));
    assert_eq!(t.alternatives, None);
    assert_eq!(t.last_partial, Some("open".to_string()));
    assert!(!t.is_final);
}

#[test]
fn best_alternative_is_sent_with_its_confidence() {
    let mut s = Stage::new(LifecycleMode::Continuous);
    take(&mut s, chunk(10));
    take(&mut s, Input::Accepted(Decoding::Finalized));
    let list = vec![
        TranscriptAlternative { text: "[unk]".to_string(), confidence: 9 },
        TranscriptAlternative { text: "[unk] go".to_string(), confidence: 7 },
    ];
    let actions = take(&mut s, Input::Recognized(Recognition::Multiple(list)));
    let t = sent(&actions);
    assert_eq!(t.text, "go");
    assert_eq!(t.confidence, Some(7));
    assert_eq!(t.alternatives.as_ref().unwrap().len(), 1);
}

#[test]
fn live_list_is_the_one_that_was_swapped_in_last() {
    let mut s = Stage::new(LifecycleMode::Session);
    for list in [["a"], ["b"]] {
        take(&mut s, update(&list));
        take(&mut s, Input::Built(true));
    }
    // A build that fails changes nothing.
    take(&mut s, update(&["c"]));
    take(&mut s, Input::Built(false));
    assert!(take(&mut s, update(&["b"])).is_empty());
    assert_eq!(built(&take(&mut s, update(&["a"]))).0, w(&["[unk]", "a"]));
    take(&mut s, Input::Built(true));
    take(&mut s, Input::RecognizerReset);
    assert!(!s.is_dynamic());
}

#[test]
fn chunks_are_counted_anew_in_every_session() {
    let mut s = Stage::new(LifecycleMode::Session);
    for _ in 0..2 {
        take(&mut s, start("one"));
        for n in 1..=11 {
            let actions = run_on(&mut s, 10, "");
            let granted = matches!(
                actions.as_slice(),
                [Action::Grant { frames: 4, session_id }] if session_id == "chunk"
            );
            assert_eq!(granted, n % 4 == 0, "{}", n);
            assert_eq!(actions.len(), usize::from(granted));
        }
    }
}
