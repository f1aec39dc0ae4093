//! The stage as a state machine.
//!
//! An input is an event from the pipeline or the reply to an action. Each input
//! leads to a next state and to actions, which are carried out in order. Where
//! the last of them asks for something (a build, a decoder state, a result), the
//! next input is the reply.

use crate::args::LifecycleMode;
use crate::grammar::{lacking, update_words};
use crate::json::Json;
use crate::pcm::pcm_samples;
use crate::recognition::{transcript_for, Recognition, RecognitionView, Transcript, TranscriptView};
use crate::swap::{fresh_policy, updated, SwapView, UpdateView};
use crate::text::{stripped, texts, trimmed, WordSeq};
use crate::timing::{requested_threshold, DEFAULT_FORCE_FINALIZE_SAMPLES};
use vstd::prelude::*;

verus! {

/// A moment at which the recognizer may be replaced.
#[derive(Clone, Copy, Debug, PartialEq, Eq, Structural)]
pub enum Boundary {
    /// No session is open.
    Idle,
    /// A session starts: nothing is decoded yet.
    AudioStart,
    /// The decoder ended an utterance by itself.
    Finalized,
    /// A result was forced.
    ForceFinalized,
    /// A session ended.
    AudioStop,
}

/// What the decoder says of the audio that it was fed.
#[derive(Clone, Copy, Debug, PartialEq, Eq, Structural)]
pub enum Decoding {
    /// An utterance is complete.
    Finalized,
    /// The utterance goes on.
    Running,
    /// Decoding failed.
    Failed,
    /// The audio was not accepted.
    Refused,
}

/// Something that happened.
#[derive(Debug)]
pub enum Input {
    /// The platform sent a word list.
    VocabularyUpdate(Json),
    /// The platform wants the startup grammar back.
    RecognizerReset,
    /// A session starts.
    AudioStart(Json),
    /// Audio arrived.
    AudioChunk {
        /// The session that the chunk names.
        session_id: String,
        /// The raw audio.
        payload: Vec<u8>,
    },
    /// A session ends.
    AudioStop,
    /// Anything else that the pipeline sends.
    Other,
    /// Reply to `Build`: whether a recognizer was built.
    Built(bool),
    /// Reply to `Feed`.
    Accepted(Decoding),
    /// Reply to `TakePartial`: the partial text.
    Partial(String),
    /// Reply to `TakeResult` and `TakeFinalResult`.
    Recognized(Recognition),
}

/// What an `Input` says.
pub enum InputView {
    /// See [`Input::VocabularyUpdate`].
    VocabularyUpdate(Json),
    /// See [`Input::RecognizerReset`].
    RecognizerReset,
    /// See [`Input::AudioStart`].
    AudioStart(Json),
    /// See [`Input::AudioChunk`].
    AudioChunk {
        /// The session that the chunk names.
        session_id: Seq<char>,
        /// The raw audio.
        payload: Seq<u8>,
    },
    /// See [`Input::AudioStop`].
    AudioStop,
    /// See [`Input::Other`].
    Other,
    /// See [`Input::Built`].
    Built(bool),
    /// See [`Input::Accepted`].
    Accepted(Decoding),
    /// See [`Input::Partial`].
    Partial(Seq<char>),
    /// See [`Input::Recognized`].
    Recognized(RecognitionView),
}

impl View for Input {
    type V = InputView;

    open spec fn view(&self) -> InputView {
        match self {
            Input::VocabularyUpdate(data) => InputView::VocabularyUpdate(*data),
            Input::RecognizerReset => InputView::RecognizerReset,
            Input::AudioStart(data) => InputView::AudioStart(*data),
            Input::AudioChunk { session_id, payload } => InputView::AudioChunk {
                session_id: session_id@,
                payload: payload@,
            },
            Input::AudioStop => InputView::AudioStop,
            Input::Other => InputView::Other,
            Input::Built(ok) => InputView::Built(*ok),
            Input::Accepted(decoding) => InputView::Accepted(*decoding),
            Input::Partial(text) => InputView::Partial(text@),
            Input::Recognized(result) => InputView::Recognized(result@),
        }
    }
}

/// What a swap changed.
#[derive(Debug)]
pub struct SwapReport {
    /// How many words the new list has.
    pub count: usize,
    /// The words that came and the words that went; `None` for the first list.
    pub delta: Option<(Vec<String>, Vec<String>)>,
}

/// What a `SwapReport` says.
pub struct SwapReportView {
    /// See [`SwapReport::count`].
    pub count: nat,
    /// See [`SwapReport::delta`].
    pub delta: Option<(WordSeq, WordSeq)>,
}

impl View for SwapReport {
    type V = SwapReportView;

    open spec fn view(&self) -> SwapReportView {
        SwapReportView {
            count: self.count as nat,
            delta: match self.delta {
                Some((added, removed)) => Some((texts(added@), texts(removed@))),
                None => None,
            },
        }
    }
}

/// Something to do.
#[derive(Debug)]
pub enum Action {
    /// Build a recognizer for these words, feed it the warm-up silence and, if
    /// that succeeds, put it in the place of the dynamic one. Asks for `Built`.
    Build {
        /// The grammar.
        words: Vec<String>,
        /// Why it is safe now.
        boundary: Boundary,
    },
    /// Feed samples to the active recognizer. Asks for `Accepted`.
    Feed(Vec<i16>),
    /// Fetch the partial text. Asks for `Partial`.
    TakePartial,
    /// Fetch the result of a complete utterance. Asks for `Recognized`.
    TakeResult,
    /// Force a result. Asks for `Recognized`.
    TakeFinalResult,
    /// Drop the dynamic recognizer, reset the startup one and feed it the
    /// warm-up silence.
    ResetToStartup,
    /// Reset the active recognizer, if told to, and feed it the warm-up silence.
    Prepare {
        /// Whether to reset it first.
        reset: bool,
    },
    /// Allow upstream to send more frames.
    Grant {
        /// How many.
        frames: u32,
        /// The session that they are for.
        session_id: String,
    },
    /// Send a transcript downstream.
    Send(Transcript),
    /// Note that a word list waits for a boundary.
    Parked,
    /// Note that the new recognizer is in place.
    Swapped(SwapReport),
    /// Note that no recognizer could be built.
    BuildFailed {
        /// The boundary at which it was tried.
        boundary: Boundary,
        /// How many words the list has.
        count: usize,
    },
}

/// What an `Action` says.
pub enum ActionView {
    /// See [`Action::Build`].
    Build {
        /// The grammar.
        words: WordSeq,
        /// Why it is safe now.
        boundary: Boundary,
    },
    /// See [`Action::Feed`].
    Feed(Seq<i16>),
    /// See [`Action::TakePartial`].
    TakePartial,
    /// See [`Action::TakeResult`].
    TakeResult,
    /// See [`Action::TakeFinalResult`].
    TakeFinalResult,
    /// See [`Action::ResetToStartup`].
    ResetToStartup,
    /// See [`Action::Prepare`].
    Prepare {
        /// Whether to reset the recognizer first.
        reset: bool,
    },
    /// See [`Action::Grant`].
    Grant {
        /// How many frames.
        frames: u32,
        /// The session that they are for.
        session_id: Seq<char>,
    },
    /// See [`Action::Send`].
    Send(TranscriptView),
    /// See [`Action::Parked`].
    Parked,
    /// See [`Action::Swapped`].
    Swapped(SwapReportView),
    /// See [`Action::BuildFailed`].
    BuildFailed {
        /// The boundary at which it was tried.
        boundary: Boundary,
        /// How many words the list has.
        count: nat,
    },
}

impl View for Action {
    type V = ActionView;

    open spec fn view(&self) -> ActionView {
        match self {
            Action::Build { words, boundary } => ActionView::Build {
                words: texts(words@),
                boundary: *boundary,
            },
            Action::Feed(samples) => ActionView::Feed(samples@),
            Action::TakePartial => ActionView::TakePartial,
            Action::TakeResult => ActionView::TakeResult,
            Action::TakeFinalResult => ActionView::TakeFinalResult,
            Action::ResetToStartup => ActionView::ResetToStartup,
            Action::Prepare { reset } => ActionView::Prepare { reset: *reset },
            Action::Grant { frames, session_id } => ActionView::Grant {
                frames: *frames,
                session_id: session_id@,
            },
            Action::Send(transcript) => ActionView::Send(transcript@),
            Action::Parked => ActionView::Parked,
            Action::Swapped(report) => ActionView::Swapped(report@),
            Action::BuildFailed { boundary, count } => ActionView::BuildFailed {
                boundary: *boundary,
                count: *count as nat,
            },
        }
    }
}

/// What each of several actions says.
pub open spec fn actions_of(list: Seq<Action>) -> Seq<ActionView> {
    Seq::new(list.len(), |i: int| list[i]@)
}

/// What the stage waits for.
pub enum PhaseView {
    /// An event from the pipeline.
    Ready,
    /// The outcome of a build.
    Building {
        /// The grammar.
        words: WordSeq,
        /// The boundary.
        boundary: Boundary,
        /// The session of the chunk in hand, at the end of an utterance.
        chunk_session: Seq<char>,
    },
    /// The decoder's state after a chunk.
    Feeding {
        /// The session of the chunk in hand.
        chunk_session: Seq<char>,
    },
    /// A partial text.
    Hearing {
        /// The session of the chunk in hand.
        chunk_session: Seq<char>,
    },
    /// The result of an utterance.
    Finalizing {
        /// The session of the chunk in hand.
        chunk_session: Seq<char>,
        /// Whether the result was forced.
        forced: bool,
    },
    /// The last result of a session.
    Stopping,
}

/// The state of the stage.
pub struct StageView {
    /// How audio arrives.
    pub mode: LifecycleMode,
    /// The session that is open.
    pub session: Option<Seq<char>>,
    /// Chunks handled since credit was last granted.
    pub frames_since_credit: u32,
    /// The active recognizer is fresh: the next session need not reset it.
    pub skip_next_reset: bool,
    /// Samples fed since the last result.
    pub samples_since_finalize: u32,
    /// The last partial text.
    pub last_partial: Option<Seq<char>>,
    /// After how many samples a result is forced; zero for never.
    pub force_finalize_samples: u32,
    /// The word lists.
    pub policy: SwapView,
    /// What the stage waits for.
    pub phase: PhaseView,
}

/// A next state and the actions that lead to it.
pub type Step = (StageView, Seq<ActionView>);

/// The stage at startup.
pub open spec fn opening(mode: LifecycleMode) -> StageView {
    StageView {
        mode,
        session: None,
        frames_since_credit: 0,
        skip_next_reset: false,
        samples_since_finalize: 0,
        last_partial: None,
        force_finalize_samples: DEFAULT_FORCE_FINALIZE_SAMPLES,
        policy: fresh_policy(),
        phase: PhaseView::Ready,
    }
}

/// The frames that upstream may send before the first audio is handled.
pub open spec fn opening_frames(mode: LifecycleMode) -> u32 {
    if mode == LifecycleMode::Continuous {
        64
    } else {
        16
    }
}

/// No utterance can be in flight: audio comes in sessions, and none is open.
pub open spec fn decoder_idle(s: StageView) -> bool {
    s.mode != LifecycleMode::Continuous && s.session is None
}

/// The stage asks for a build at `boundary` from a list that no longer waits.
pub open spec fn building(
    s: StageView,
    words: WordSeq,
    boundary: Boundary,
    chunk_session: Seq<char>,
) -> Step {
    (
        StageView { phase: PhaseView::Building { words, boundary, chunk_session }, ..s },
        seq![ActionView::Build { words, boundary }],
    )
}

/// A word list arrives. The threshold counts from now on, whatever becomes of
/// the list.
pub open spec fn vocabulary_updated(s: StageView, data: Json) -> Step {
    match update_words(data) {
        None => (s, seq![]),
        Some(words) => {
            let (policy, action) = updated(s.policy, words, decoder_idle(s));
            let next = StageView {
                force_finalize_samples: requested_threshold(data),
                policy,
                ..s
            };
            match action {
                UpdateView::TweakOnly => (next, seq![]),
                UpdateView::SwapNow(words) => building(next, words, Boundary::Idle, seq![]),
                UpdateView::Deferred => (next, seq![ActionView::Parked]),
            }
        },
    }
}

/// The startup grammar is wanted back.
pub open spec fn recognizer_reset(s: StageView) -> Step {
    (
        StageView {
            policy: fresh_policy(),
            samples_since_finalize: 0,
            force_finalize_samples: DEFAULT_FORCE_FINALIZE_SAMPLES,
            ..s
        },
        seq![ActionView::ResetToStartup],
    )
}

/// The session that a start event names.
pub open spec fn named_session(data: Json) -> Option<Seq<char>> {
    match data.member("session_id"@) {
        Some(value) => value.string(),
        None => None,
    }
}

/// The parked list, if any, is handed to a build; else the work goes on.
pub open spec fn at_boundary(
    s: StageView,
    boundary: Boundary,
    chunk_session: Seq<char>,
    otherwise: Step,
) -> Step {
    match s.policy.pending {
        Some(words) => building(
            StageView { policy: SwapView { pending: None, ..s.policy }, ..s },
            words,
            boundary,
            chunk_session,
        ),
        None => otherwise,
    }
}

/// A session is under way: the recognizer is prepared and upstream may send.
pub open spec fn session_ready(s: StageView) -> Step {
    (
        StageView {
            skip_next_reset: false,
            frames_since_credit: 0,
            samples_since_finalize: 0,
            phase: PhaseView::Ready,
            ..s
        },
        seq![
            ActionView::Prepare { reset: !s.skip_next_reset },
            ActionView::Grant { frames: 16, session_id: seq![] },
        ],
    )
}

/// A session starts. Without sessions, nothing happens.
pub open spec fn audio_started(s: StageView, data: Json) -> Step {
    if s.mode == LifecycleMode::Continuous {
        (s, seq![])
    } else {
        let named = named_session(data);
        let next = StageView {
            session: if named is Some {
                named
            } else {
                s.session
            },
            ..s
        };
        at_boundary(next, Boundary::AudioStart, seq![], session_ready(next))
    }
}

/// How much a chunk adds to the sample count.
pub open spec fn samples_counted(payload: Seq<u8>) -> nat {
    pcm_samples(payload).len() % 0x1_0000_0000
}

/// Audio arrives.
pub open spec fn chunk_arrived(s: StageView, session_id: Seq<char>, payload: Seq<u8>) -> Step {
    (
        StageView {
            samples_since_finalize: (s.samples_since_finalize + samples_counted(payload)) as u32,
            phase: PhaseView::Feeding { chunk_session: session_id },
            ..s
        },
        seq![ActionView::Feed(pcm_samples(payload))],
    )
}

/// A chunk is done. Every fourth one earns upstream new credit.
pub open spec fn chunk_done(s: StageView, chunk_session: Seq<char>) -> Step {
    if s.frames_since_credit + 1 >= 4 {
        (
            StageView { frames_since_credit: 0, phase: PhaseView::Ready, ..s },
            seq![
                ActionView::Grant {
                    frames: if s.mode == LifecycleMode::Continuous {
                        8
                    } else {
                        4
                    },
                    session_id: chunk_session,
                },
            ],
        )
    } else {
        (
            StageView {
                frames_since_credit: (s.frames_since_credit + 1) as u32,
                phase: PhaseView::Ready,
                ..s
            },
            seq![],
        )
    }
}

/// The threshold is reached.
pub open spec fn result_is_due(s: StageView) -> bool {
    s.force_finalize_samples > 0 && s.samples_since_finalize >= s.force_finalize_samples
}

/// The decoder has taken a chunk.
pub open spec fn chunk_decoded(s: StageView, chunk_session: Seq<char>, decoding: Decoding) -> Step {
    match decoding {
        Decoding::Finalized => (
            StageView {
                samples_since_finalize: 0,
                phase: PhaseView::Finalizing { chunk_session, forced: false },
                ..s
            },
            seq![ActionView::TakeResult],
        ),
        Decoding::Running => if result_is_due(s) {
            (
                StageView {
                    samples_since_finalize: 0,
                    phase: PhaseView::Finalizing { chunk_session, forced: true },
                    ..s
                },
                seq![ActionView::TakeFinalResult],
            )
        } else {
            (
                StageView { phase: PhaseView::Hearing { chunk_session }, ..s },
                seq![ActionView::TakePartial],
            )
        },
        Decoding::Failed | Decoding::Refused => chunk_done(s, chunk_session),
    }
}

/// A partial text came. It is kept unless it is blank.
pub open spec fn partial_heard(s: StageView, chunk_session: Seq<char>, text: Seq<char>) -> Step {
    let core = trimmed(text);
    chunk_done(
        StageView {
            last_partial: if core.len() > 0 {
                Some(stripped(core))
            } else {
                s.last_partial
            },
            ..s
        },
        chunk_session,
    )
}

/// One action, and then those of another step.
pub open spec fn after_action(action: ActionView, rest: Step) -> Step {
    (rest.0, seq![action] + rest.1)
}

/// A result came in the middle of the audio.
pub open spec fn utterance_recognized(
    s: StageView,
    chunk_session: Seq<char>,
    forced: bool,
    result: RecognitionView,
) -> Step {
    let session_id = match s.session {
        Some(id) => id,
        None => chunk_session,
    };
    let next = StageView { last_partial: None, ..s };
    let boundary = if forced {
        Boundary::ForceFinalized
    } else {
        Boundary::Finalized
    };
    after_action(
        ActionView::Send(transcript_for(result, session_id, false, s.last_partial)),
        at_boundary(next, boundary, chunk_session, chunk_done(next, chunk_session)),
    )
}

/// A session ends. Without sessions, nothing happens.
pub open spec fn audio_stopped(s: StageView) -> Step {
    if s.mode == LifecycleMode::Continuous {
        (s, seq![])
    } else {
        (
            StageView { phase: PhaseView::Stopping, ..s },
            seq![ActionView::TakeFinalResult],
        )
    }
}

/// The last result of a session came.
pub open spec fn session_recognized(s: StageView, result: RecognitionView) -> Step {
    let session_id = match s.session {
        Some(id) => id,
        None => seq![],
    };
    let next = StageView { session: None, last_partial: None, phase: PhaseView::Ready, ..s };
    after_action(
        ActionView::Send(transcript_for(result, session_id, true, s.last_partial)),
        at_boundary(next, Boundary::AudioStop, seq![], (next, seq![])),
    )
}

/// What a swap to `words` changes.
pub open spec fn swap_report(applied: Option<WordSeq>, words: WordSeq) -> SwapReportView {
    SwapReportView {
        count: words.len(),
        delta: match applied {
            Some(live) => Some((lacking(words, live), lacking(live, words))),
            None => None,
        },
    }
}

/// A new recognizer is live: nothing is decoded yet.
pub open spec fn swapped(s: StageView, words: WordSeq) -> StageView {
    StageView {
        samples_since_finalize: 0,
        last_partial: None,
        policy: SwapView { applied: Some(words), ..s.policy },
        ..s
    }
}

/// A recognizer that is swapped in at this boundary hears nothing before the
/// next session.
pub open spec fn stays_fresh(boundary: Boundary) -> bool {
    boundary == Boundary::Idle || boundary == Boundary::AudioStart || boundary
        == Boundary::AudioStop
}

/// The state once a build has succeeded or failed. After a failure the list is
/// parked again, except when the decoder was idle.
pub open spec fn settled(s: StageView, words: WordSeq, boundary: Boundary, ok: bool) -> StageView {
    if ok {
        let next = swapped(s, words);
        StageView { skip_next_reset: stays_fresh(boundary) || s.skip_next_reset, ..next }
    } else if boundary == Boundary::Idle {
        s
    } else {
        StageView { policy: SwapView { pending: Some(words), ..s.policy }, ..s }
    }
}

/// A build has succeeded or failed, and what it interrupted goes on.
pub open spec fn build_ended(
    s: StageView,
    words: WordSeq,
    boundary: Boundary,
    chunk_session: Seq<char>,
    ok: bool,
) -> Step {
    let next = settled(s, words, boundary, ok);
    let note = if ok {
        ActionView::Swapped(swap_report(s.policy.applied, words))
    } else {
        ActionView::BuildFailed { boundary, count: words.len() }
    };
    after_action(
        note,
        match boundary {
            Boundary::AudioStart => session_ready(next),
            Boundary::Finalized | Boundary::ForceFinalized => chunk_done(next, chunk_session),
            Boundary::Idle | Boundary::AudioStop => (
                StageView { phase: PhaseView::Ready, ..next },
                seq![],
            ),
        },
    )
}

/// An event from the pipeline, as opposed to a reply.
pub open spec fn is_event(input: InputView) -> bool {
    match input {
        InputView::VocabularyUpdate(_) | InputView::RecognizerReset | InputView::AudioStart(_)
        | InputView::AudioChunk { .. } | InputView::AudioStop | InputView::Other => true,
        _ => false,
    }
}

/// The input is one that the stage waits for, and the sample count has room for
/// it.
pub open spec fn accepts(s: StageView, input: InputView) -> bool {
    match s.phase {
        PhaseView::Ready => is_event(input) && match input {
            InputView::AudioChunk { payload, .. } => s.samples_since_finalize + samples_counted(
                payload,
            ) <= u32::MAX,
            _ => true,
        },
        PhaseView::Building { .. } => input is Built,
        PhaseView::Feeding { .. } => input is Accepted,
        PhaseView::Hearing { .. } => input is Partial,
        PhaseView::Finalizing { .. } | PhaseView::Stopping => input is Recognized,
    }
}

/// What an input leads to.
pub open spec fn step(s: StageView, input: InputView) -> Step {
    match (s.phase, input) {
        (PhaseView::Ready, InputView::VocabularyUpdate(data)) => vocabulary_updated(s, data),
        (PhaseView::Ready, InputView::RecognizerReset) => recognizer_reset(s),
        (PhaseView::Ready, InputView::AudioStart(data)) => audio_started(s, data),
        (PhaseView::Ready, InputView::AudioChunk { session_id, payload }) => chunk_arrived(
            s,
            session_id,
            payload,
        ),
        (PhaseView::Ready, InputView::AudioStop) => audio_stopped(s),
        (PhaseView::Building { words, boundary, chunk_session }, InputView::Built(ok)) =>
            build_ended(s, words, boundary, chunk_session, ok),
        (PhaseView::Feeding { chunk_session }, InputView::Accepted(decoding)) => chunk_decoded(
            s,
            chunk_session,
            decoding,
        ),
        (PhaseView::Hearing { chunk_session }, InputView::Partial(text)) => partial_heard(
            s,
            chunk_session,
            text,
        ),
        (PhaseView::Finalizing { chunk_session, forced }, InputView::Recognized(result)) =>
            utterance_recognized(s, chunk_session, forced, result),
        (PhaseView::Stopping, InputView::Recognized(result)) => session_recognized(s, result),
        _ => (s, seq![]),
    }
}

/// What inputs say is what they hold.
pub proof fn law_inputs_say_what_they_hold(input: Input)
    ensures
        input@ == (match input {
            Input::VocabularyUpdate(data) => InputView::VocabularyUpdate(data),
            Input::RecognizerReset => InputView::RecognizerReset,
            Input::AudioStart(data) => InputView::AudioStart(data),
            Input::AudioChunk { session_id, payload } => InputView::AudioChunk {
                session_id: session_id@,
                payload: payload@,
            },
            Input::AudioStop => InputView::AudioStop,
            Input::Other => InputView::Other,
            Input::Built(ok) => InputView::Built(ok),
            Input::Accepted(decoding) => InputView::Accepted(decoding),
            Input::Partial(text) => InputView::Partial(text@),
            Input::Recognized(result) => InputView::Recognized(result@),
        }),
{
}

/// What actions say is what they hold, and lists of actions say what each of them
/// does.
pub proof fn law_actions_say_what_they_hold(action: Action, list: Seq<Action>, report: SwapReport)
    ensures
        action@ == (match action {
            Action::Build { words, boundary } => ActionView::Build { words: texts(words@), boundary },
            Action::Feed(samples) => ActionView::Feed(samples@),
            Action::TakePartial => ActionView::TakePartial,
            Action::TakeResult => ActionView::TakeResult,
            Action::TakeFinalResult => ActionView::TakeFinalResult,
            Action::ResetToStartup => ActionView::ResetToStartup,
            Action::Prepare { reset } => ActionView::Prepare { reset },
            Action::Grant { frames, session_id } => ActionView::Grant {
                frames,
                session_id: session_id@,
            },
            Action::Send(transcript) => ActionView::Send(transcript@),
            Action::Parked => ActionView::Parked,
            Action::Swapped(r) => ActionView::Swapped(r@),
            Action::BuildFailed { boundary, count } => ActionView::BuildFailed {
                boundary,
                count: count as nat,
            },
        }),
        actions_of(list).len() == list.len(),
        forall|i: int| 0 <= i < list.len() ==> #[trigger] actions_of(list)[i] == list[i]@,
        report@.count == report.count,
        report@.delta is Some <==> report.delta is Some,
        report.delta matches Some((added, removed)) ==> report@.delta == Some(
            (texts(added@), texts(removed@)),
        ),
{
}

} // verus!
