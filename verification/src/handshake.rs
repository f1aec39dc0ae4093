//! What the stage says before it hears anything.

use crate::args::LifecycleMode;
use crate::machine::opening_frames;
use crate::stage::initial_frames;
use crate::text::{texts, WordSeq};
use vstd::prelude::*;
use vstd::string::*;

verus! {

/// A form of audio that a stage can take.
#[derive(Clone, Copy, Debug, PartialEq, Eq, Structural)]
pub enum AudioFormat {
    /// Samples of 16 bits, 16000 a second, on one channel.
    Pcm16kMono,
}

/// What a stage can do.
#[derive(Debug)]
pub struct Capability {
    /// What kind of stage it is.
    pub stage_type: String,
    /// What it is called.
    pub stage_name: String,
    /// The audio that it takes.
    pub audio_formats: Vec<AudioFormat>,
    /// How it may be run.
    pub lifecycle_modes: Vec<String>,
    /// Further features, and whether they are on.
    pub feature_flags: Vec<(String, bool)>,
}

/// What a `Capability` says.
pub struct CapabilityView {
    /// See [`Capability::stage_type`].
    pub stage_type: Seq<char>,
    /// See [`Capability::stage_name`].
    pub stage_name: Seq<char>,
    /// See [`Capability::audio_formats`].
    pub audio_formats: Seq<AudioFormat>,
    /// See [`Capability::lifecycle_modes`].
    pub lifecycle_modes: WordSeq,
    /// See [`Capability::feature_flags`].
    pub feature_flags: Seq<(Seq<char>, bool)>,
}

impl View for Capability {
    type V = CapabilityView;

    open spec fn view(&self) -> CapabilityView {
        CapabilityView {
            stage_type: self.stage_type@,
            stage_name: self.stage_name@,
            audio_formats: self.audio_formats@,
            lifecycle_modes: texts(self.lifecycle_modes@),
            feature_flags: Seq::new(
                self.feature_flags@.len(),
                |i: int| (self.feature_flags@[i].0@, self.feature_flags@[i].1),
            ),
        }
    }
}

/// An event that the stage writes before it reads any.
#[derive(Debug)]
pub enum OpeningEvent {
    /// What the stage can do.
    Capability(Capability),
    /// Credit for the first audio.
    Credit {
        /// How many frames upstream may send.
        frames: u32,
        /// The session that they are for; empty for any.
        session_id: String,
    },
}

/// What an `OpeningEvent` says.
pub enum OpeningEventView {
    /// See [`OpeningEvent::Capability`].
    Capability(CapabilityView),
    /// See [`OpeningEvent::Credit`].
    Credit {
        /// How many frames upstream may send.
        frames: u32,
        /// The session that they are for; empty for any.
        session_id: Seq<char>,
    },
}

impl View for OpeningEvent {
    type V = OpeningEventView;

    open spec fn view(&self) -> OpeningEventView {
        match self {
            OpeningEvent::Capability(capability) => OpeningEventView::Capability(capability@),
            OpeningEvent::Credit { frames, session_id } => OpeningEventView::Credit {
                frames: *frames,
                session_id: session_id@,
            },
        }
    }
}

/// What this stage can do.
pub open spec fn own_capability() -> CapabilityView {
    CapabilityView {
        stage_type: "command_recognition"@,
        stage_name: "vosk"@,
        audio_formats: seq![AudioFormat::Pcm16kMono],
        lifecycle_modes: seq!["persistent"@],
        feature_flags: seq![],
    }
}

/// What this stage can do, in any mode.
pub fn capability() -> (capability: Capability)
    ensures
        capability@ == own_capability(),
{
    let mut audio_formats: Vec<AudioFormat> = Vec::new();
    audio_formats.push(AudioFormat::Pcm16kMono);
    let mut lifecycle_modes: Vec<String> = Vec::new();
    lifecycle_modes.push("persistent".to_string());
    let capability = Capability {
        stage_type: "command_recognition".to_string(),
        stage_name: "vosk".to_string(),
        audio_formats,
        lifecycle_modes,
        feature_flags: Vec::new(),
    };
    assert(capability@.audio_formats =~= own_capability().audio_formats);
    assert(capability@.lifecycle_modes =~= own_capability().lifecycle_modes);
    assert(capability@.feature_flags =~= own_capability().feature_flags);
    capability
}

/// The event after which upstream may send its first audio.
pub open spec fn first_credit(mode: LifecycleMode) -> OpeningEventView {
    OpeningEventView::Credit { frames: opening_frames(mode), session_id: seq![] }
}

/// The opening events in order: what the stage can do, and then the first credit.
pub fn opening_events(mode: LifecycleMode) -> (events: (OpeningEvent, OpeningEvent))
    ensures
        events.0@ == OpeningEventView::Capability(own_capability()),
        events.1@ == first_credit(mode),
{
    let everyone = String::new();
    assert(everyone@ =~= seq![]);
    (
        OpeningEvent::Capability(capability()),
        OpeningEvent::Credit { frames: initial_frames(mode), session_id: everyone },
    )
}

/// The stage is a command recognizer called `vosk` that takes mono audio, is run
/// persistently and has no further features. The first credit is for any session:
/// sixteen frames with sessions and sixty-four without.
pub proof fn law_opening_events_are_fixed(mode: LifecycleMode)
    ensures
        own_capability().stage_type == "command_recognition"@,
        own_capability().stage_name == "vosk"@,
        own_capability().audio_formats == seq![AudioFormat::Pcm16kMono],
        own_capability().lifecycle_modes == seq!["persistent"@],
        own_capability().feature_flags.len() == 0,
        first_credit(mode) == (OpeningEventView::Credit {
            frames: if mode == LifecycleMode::Continuous {
                64
            } else {
                16
            },
            session_id: Seq::<char>::empty(),
        }),
{
}

/// What opening events say is what they hold.
pub proof fn law_opening_events_say_what_they_hold(
    capability: Capability,
    frames: u32,
    session_id: String,
)
    ensures
        OpeningEvent::Capability(capability)@ == OpeningEventView::Capability(capability@),
        (OpeningEvent::Credit { frames, session_id })@ == (OpeningEventView::Credit {
            frames,
            session_id: session_id@,
        }),
        capability@.stage_type == capability.stage_type@,
        capability@.stage_name == capability.stage_name@,
        capability@.audio_formats == capability.audio_formats@,
        capability@.lifecycle_modes == texts(capability.lifecycle_modes@),
        capability@.feature_flags.len() == capability.feature_flags@.len(),
        forall|i: int|
            0 <= i < capability.feature_flags@.len() ==> #[trigger] capability@.feature_flags[i] == (
                capability.feature_flags@[i].0@,
                capability.feature_flags@[i].1,
            ),
{
}

} // verus!
