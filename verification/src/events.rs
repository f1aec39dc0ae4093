//! The events of the pipeline, by name.

use crate::machine::Boundary;
use crate::text::same_text;
use vstd::prelude::*;

verus! {

/// The events that the stage knows.
#[derive(Clone, Copy, Debug, PartialEq, Eq, Structural)]
pub enum EventKind {
    /// `vocabulary_update`
    VocabularyUpdate,
    /// `recognizer_reset`
    RecognizerReset,
    /// `audio_start`
    AudioStart,
    /// `audio_chunk`
    AudioChunk,
    /// `audio_stop`
    AudioStop,
    /// Any other name.
    Other,
}

/// The event that is called `name`.
pub open spec fn kind_named(name: Seq<char>) -> EventKind {
    if name == "vocabulary_update"@ {
        EventKind::VocabularyUpdate
    } else if name == "recognizer_reset"@ {
        EventKind::RecognizerReset
    } else if name == "audio_start"@ {
        EventKind::AudioStart
    } else if name == "audio_chunk"@ {
        EventKind::AudioChunk
    } else if name == "audio_stop"@ {
        EventKind::AudioStop
    } else {
        EventKind::Other
    }
}

/// Tells events apart by name.
pub fn event_kind(name: &str) -> (kind: EventKind)
    ensures
        kind == kind_named(name@),
{
    if same_text(name, "vocabulary_update") {
        EventKind::VocabularyUpdate
    } else if same_text(name, "recognizer_reset") {
        EventKind::RecognizerReset
    } else if same_text(name, "audio_start") {
        EventKind::AudioStart
    } else if same_text(name, "audio_chunk") {
        EventKind::AudioChunk
    } else if same_text(name, "audio_stop") {
        EventKind::AudioStop
    } else {
        EventKind::Other
    }
}

/// The name under which a boundary is logged.
pub open spec fn reason_of(boundary: Boundary) -> Seq<char> {
    match boundary {
        Boundary::Idle => "idle"@,
        Boundary::AudioStart => "audio_start"@,
        Boundary::Finalized => "finalized"@,
        Boundary::ForceFinalized => "force_finalized"@,
        Boundary::AudioStop => "audio_stop"@,
    }
}

/// Names a boundary for the log.
pub fn boundary_reason(boundary: Boundary) -> (reason: &'static str)
    ensures
        reason@ == reason_of(boundary),
{
    match boundary {
        Boundary::Idle => "idle",
        Boundary::AudioStart => "audio_start",
        Boundary::Finalized => "finalized",
        Boundary::ForceFinalized => "force_finalized",
        Boundary::AudioStop => "audio_stop",
    }
}

/// Each event has its own name, and every other name is unknown.
pub proof fn law_events_have_their_names(name: Seq<char>)
    ensures
        kind_named(name) == EventKind::VocabularyUpdate <==> name == "vocabulary_update"@,
        kind_named(name) == EventKind::RecognizerReset <==> name == "recognizer_reset"@,
        kind_named(name) == EventKind::AudioStart <==> name == "audio_start"@,
        kind_named(name) == EventKind::AudioChunk <==> name == "audio_chunk"@,
        kind_named(name) == EventKind::AudioStop <==> name == "audio_stop"@,
{
    reveal_strlit("vocabulary_update");
    reveal_strlit("recognizer_reset");
    reveal_strlit("audio_start");
    reveal_strlit("audio_chunk");
    reveal_strlit("audio_stop");
    assert("vocabulary_update"@.len() == 17 && "recognizer_reset"@.len() == 16);
    assert("audio_start"@.len() == 11 && "audio_chunk"@.len() == 11 && "audio_stop"@.len() == 10);
    assert("audio_start"@[6] == 's' && "audio_chunk"@[6] == 'c');
}

/// Each boundary has its own name in the log.
pub proof fn law_boundaries_have_their_names()
    ensures
        reason_of(Boundary::Idle) == "idle"@,
        reason_of(Boundary::AudioStart) == "audio_start"@,
        reason_of(Boundary::Finalized) == "finalized"@,
        reason_of(Boundary::ForceFinalized) == "force_finalized"@,
        reason_of(Boundary::AudioStop) == "audio_stop"@,
{
}

} // verus!
