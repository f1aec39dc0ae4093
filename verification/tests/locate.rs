use vosk_commands::events::{boundary_reason, event_kind, EventKind};
use vosk_commands::locate::{directories, resolve_relative_to_exe, Location};
use vosk_commands::machine::Boundary;

#[test]
fn given_path_comes_first() {
    let everywhere = Some((true, true));
    assert_eq!(resolve_relative_to_exe(true, false, Some(true), everywhere), Location::Given);
    assert_eq!(resolve_relative_to_exe(false, true, Some(true), everywhere), Location::Given);
}

#[test]
fn other_places_follow_in_order() {
    let all = Some((true, true));
    assert_eq!(resolve_relative_to_exe(false, false, Some(true), all), Location::AppSupport);
    assert_eq!(resolve_relative_to_exe(false, false, Some(false), all), Location::BesideExe);
    assert_eq!(resolve_relative_to_exe(false, false, None, all), Location::BesideExe);
    assert_eq!(
        resolve_relative_to_exe(false, false, None, Some((false, true))),
        Location::Resources,
    );
}

#[test]
fn missing_path_stays_as_given() {
    assert_eq!(
        resolve_relative_to_exe(false, false, Some(false), Some((false, false))),
        Location::Given,
    );
    assert_eq!(resolve_relative_to_exe(false, false, None, None), Location::Given);
}

#[test]
fn directories_of_places() {
    assert_eq!(
        directories(Location::AppSupport, false),
        vec!["Library/Application Support", "BranchKit", "models/vosk"],
    );
    assert_eq!(
        directories(Location::AppSupport, true),
        vec!["Library/Application Support", "BranchKitDev", "models/vosk"],
    );
    assert_eq!(directories(Location::Resources, false), vec!["../Resources"]);
    assert!(directories(Location::BesideExe, true).is_empty());
    assert!(directories(Location::Given, true).is_empty());
}

#[test]
fn events_are_told_apart_by_name() {
    assert_eq!(event_kind("vocabulary_update"), EventKind::VocabularyUpdate);
    assert_eq!(event_kind("recognizer_reset"), EventKind::RecognizerReset);
    assert_eq!(event_kind("audio_start"), EventKind::AudioStart);
    assert_eq!(event_kind("audio_chunk"), EventKind::AudioChunk);
    assert_eq!(event_kind("audio_stop"), EventKind::AudioStop);
    assert_eq!(event_kind("audio_stop "), EventKind::Other);
    assert_eq!(event_kind(""), EventKind::Other);
}

#[test]
fn boundaries_have_names() {
    assert_eq!(boundary_reason(Boundary::Idle), "idle");
    assert_eq!(boundary_reason(Boundary::AudioStart), "audio_start");
    assert_eq!(boundary_reason(Boundary::Finalized), "finalized");
    assert_eq!(boundary_reason(Boundary::ForceFinalized), "force_finalized");
    assert_eq!(boundary_reason(Boundary::AudioStop), "audio_stop");
}
