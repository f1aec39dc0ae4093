//! The running stage.

use crate::args::LifecycleMode;
use crate::grammar::{list_lacking, read_update_words};
use crate::json::Json;
use crate::machine::{
    accepts, actions_of, audio_started, audio_stopped, build_ended, building, chunk_arrived,
    chunk_decoded, chunk_done, decoder_idle, opening, opening_frames, partial_heard,
    recognizer_reset, result_is_due, samples_counted, session_ready, session_recognized, settled,
    step, swap_report, swapped, utterance_recognized, vocabulary_updated, Action, ActionView,
    Boundary, Decoding, Input, PhaseView, StageView, SwapReport,
};
use crate::pcm::{decode_pcm, pcm_samples};
use crate::recognition::{make_transcript, Recognition};
use crate::swap::{SwapPolicy, SwapView, UpdateAction};
use crate::text::{strip_unk, text_of, texts, trim};
use crate::timing::{read_threshold, DEFAULT_FORCE_FINALIZE_SAMPLES};
use vstd::prelude::*;
use vstd::string::*;

verus! {

/// What the stage waits for.
#[derive(Debug)]
enum Phase {
    Ready,
    Building { words: Vec<String>, boundary: Boundary, chunk_session: String },
    Feeding { chunk_session: String },
    Hearing { chunk_session: String },
    Finalizing { chunk_session: String, forced: bool },
    Stopping,
}

impl View for Phase {
    type V = PhaseView;

    closed spec fn view(&self) -> PhaseView {
        match self {
            Phase::Ready => PhaseView::Ready,
            Phase::Building { words, boundary, chunk_session } => PhaseView::Building {
                words: texts(words@),
                boundary: *boundary,
                chunk_session: chunk_session@,
            },
            Phase::Feeding { chunk_session } => PhaseView::Feeding {
                chunk_session: chunk_session@,
            },
            Phase::Hearing { chunk_session } => PhaseView::Hearing {
                chunk_session: chunk_session@,
            },
            Phase::Finalizing { chunk_session, forced } => PhaseView::Finalizing {
                chunk_session: chunk_session@,
                forced: *forced,
            },
            Phase::Stopping => PhaseView::Stopping,
        }
    }
}

/// The stage between two inputs.
#[derive(Debug)]
pub struct Stage {
    mode: LifecycleMode,
    session: Option<String>,
    frames_since_credit: u32,
    skip_next_reset: bool,
    samples_since_finalize: u32,
    last_partial: Option<String>,
    force_finalize_samples: u32,
    policy: SwapPolicy,
    phase: Phase,
}

impl View for Stage {
    type V = StageView;

    closed spec fn view(&self) -> StageView {
        StageView {
            mode: self.mode,
            session: text_of(self.session),
            frames_since_credit: self.frames_since_credit,
            skip_next_reset: self.skip_next_reset,
            samples_since_finalize: self.samples_since_finalize,
            last_partial: text_of(self.last_partial),
            force_finalize_samples: self.force_finalize_samples,
            policy: self.policy@,
            phase: self.phase@,
        }
    }
}

fn copy_list(words: &Vec<String>) -> (copy: Vec<String>)
    ensures
        texts(copy@) == texts(words@),
{
    let copy = words.clone();
    assert(texts(copy@) =~= texts(words@));
    copy
}

/// The frames that upstream may send before the first audio is handled.
pub fn initial_frames(mode: LifecycleMode) -> (frames: u32)
    ensures
        frames == opening_frames(mode),
{
    match mode {
        LifecycleMode::Continuous => 64,
        LifecycleMode::Session => 16,
    }
}

impl Stage {
    /// The stage at startup.
    pub fn new(mode: LifecycleMode) -> (stage: Self)
        ensures
            stage@ == opening(mode),
    {
        Stage {
            mode,
            session: None,
            frames_since_credit: 0,
            skip_next_reset: false,
            samples_since_finalize: 0,
            last_partial: None,
            force_finalize_samples: DEFAULT_FORCE_FINALIZE_SAMPLES,
            policy: SwapPolicy::new(),
            phase: Phase::Ready,
        }
    }

    /// How audio arrives.
    pub fn mode(&self) -> (mode: LifecycleMode)
        ensures
            mode == self@.mode,
    {
        self.mode
    }

    /// The threshold after which a result is forced, in samples.
    pub fn force_finalize_samples(&self) -> (samples: u32)
        ensures
            samples == self@.force_finalize_samples,
    {
        self.force_finalize_samples
    }

    /// Tells whether a recognizer with a word list of its own is live.
    pub fn is_dynamic(&self) -> (yes: bool)
        ensures
            yes == self@.policy.applied is Some,
    {
        self.policy.applied().is_some()
    }

    /// Tells whether the stage waits for an event from the pipeline.
    pub fn is_ready(&self) -> (yes: bool)
        ensures
            yes == self@.phase is Ready,
    {
        matches!(self.phase, Phase::Ready)
    }

    fn decoder_is_idle(&self) -> (idle: bool)
        ensures
            idle == decoder_idle(self@),
    {
        self.mode != LifecycleMode::Continuous && self.session.is_none()
    }

    fn ask_build(&mut self, words: Vec<String>, boundary: Boundary, chunk_session: String) -> (action:
        Action)
        ensures
            (final(self)@, seq![action@]) == building(
                old(self)@,
                texts(words@),
                boundary,
                chunk_session@,
            ),
    {
        let copy = copy_list(&words);
        self.phase = Phase::Building { words, boundary, chunk_session };
        Action::Build { words: copy, boundary }
    }

    /// A word list arrives.
    fn on_vocabulary(&mut self, data: &Json) -> (actions: Vec<Action>)
        ensures
            (final(self)@, actions_of(actions@)) == vocabulary_updated(old(self)@, *data),
    {
        let mut actions: Vec<Action> = Vec::new();
        assert(actions_of(actions@) =~= seq![]);
        match read_update_words(data) {
            None => {},
            Some(words) => {
                self.force_finalize_samples = read_threshold(data);
                let idle = self.decoder_is_idle();
                match self.policy.on_vocabulary_update(words, idle) {
                    UpdateAction::TweakOnly => {},
                    UpdateAction::SwapNow(words) => {
                        let none = String::new();
                        let action = self.ask_build(words, Boundary::Idle, none);
                        actions.push(action);
                        assert(actions_of(actions@) =~= seq![action@]);
                    },
                    UpdateAction::Deferred => {
                        actions.push(Action::Parked);
                        assert(actions_of(actions@) =~= seq![ActionView::Parked]);
                    },
                }
            },
        }
        actions
    }

    /// The startup grammar is wanted back.
    fn on_recognizer_reset(&mut self) -> (actions: Vec<Action>)
        ensures
            (final(self)@, actions_of(actions@)) == recognizer_reset(old(self)@),
    {
        self.policy.on_reset();
        self.samples_since_finalize = 0;
        self.force_finalize_samples = DEFAULT_FORCE_FINALIZE_SAMPLES;
        let mut actions: Vec<Action> = Vec::new();
        actions.push(Action::ResetToStartup);
        assert(actions_of(actions@) =~= seq![ActionView::ResetToStartup]);
        actions
    }

    /// Asks for a build from the parked list, if there is one.
    fn try_boundary(&mut self, boundary: Boundary, chunk_session: &String) -> (action: Option<
        Action,
    >)
        ensures
            match action {
                Some(a) => old(self)@.policy.pending is Some && (final(self)@, seq![a@])
                    == building(
                    StageView {
                        policy: SwapView { pending: None, ..old(self)@.policy },
                        ..old(self)@
                    },
                    old(self)@.policy.pending->0,
                    boundary,
                    chunk_session@,
                ),
                None => old(self)@.policy.pending is None && final(self)@ == old(self)@,
            },
    {
        match self.policy.take_pending() {
            Some(words) => Some(self.ask_build(words, boundary, chunk_session.clone())),
            None => None,
        }
    }

    /// Prepares the recognizer for a session and lets upstream send.
    fn ready_session(&mut self, actions: &mut Vec<Action>)
        ensures
            final(self)@ == session_ready(old(self)@).0,
            actions_of(final(actions)@) == actions_of(old(actions)@) + session_ready(
                old(self)@,
            ).1,
    {
        let reset = !self.skip_next_reset;
        self.skip_next_reset = false;
        self.frames_since_credit = 0;
        self.samples_since_finalize = 0;
        self.phase = Phase::Ready;
        actions.push(Action::Prepare { reset });
        let everyone = String::new();
        actions.push(Action::Grant { frames: 16, session_id: everyone });
        assert(actions_of(actions@) =~= actions_of(old(actions)@) + session_ready(old(self)@).1);
    }

    /// A session starts.
    fn on_audio_start(&mut self, data: &Json) -> (actions: Vec<Action>)
        ensures
            (final(self)@, actions_of(actions@)) == audio_started(old(self)@, *data),
    {
        let mut actions: Vec<Action> = Vec::new();
        assert(actions_of(actions@) =~= seq![]);
        if self.mode == LifecycleMode::Continuous {
            return actions;
        }
        match data.get("session_id") {
            Some(value) => match value.as_str() {
                Some(id) => {
                    self.session = Some(id.to_string());
                },
                None => {},
            },
            None => {},
        }
        let none = String::new();
        match self.try_boundary(Boundary::AudioStart, &none) {
            Some(action) => {
                actions.push(action);
                assert(actions_of(actions@) =~= seq![action@]);
            },
            None => {
                self.ready_session(&mut actions);
                assert(actions_of(actions@) =~= session_ready(
                    StageView { session: text_of(self.session), ..old(self)@ },
                ).1);
            },
        }
        actions
    }

    /// Audio arrives.
    fn on_audio_chunk(&mut self, session_id: String, payload: &Vec<u8>) -> (actions: Vec<Action>)
        requires
            old(self)@.samples_since_finalize + samples_counted(payload@) <= u32::MAX,
        ensures
            (final(self)@, actions_of(actions@)) == chunk_arrived(
                old(self)@,
                session_id@,
                payload@,
            ),
    {
        let samples = decode_pcm(payload.as_slice());
        self.samples_since_finalize = self.samples_since_finalize + low_bits(samples.len());
        self.phase = Phase::Feeding { chunk_session: session_id };
        let mut actions: Vec<Action> = Vec::new();
        actions.push(Action::Feed(samples));
        assert(actions_of(actions@) =~= seq![ActionView::Feed(pcm_samples(payload@))]);
        actions
    }

    /// A chunk is done.
    fn finish_chunk(&mut self, chunk_session: String, actions: &mut Vec<Action>)
        ensures
            final(self)@ == chunk_done(old(self)@, chunk_session@).0,
            actions_of(final(actions)@) == actions_of(old(actions)@) + chunk_done(
                old(self)@,
                chunk_session@,
            ).1,
    {
        self.phase = Phase::Ready;
        if self.frames_since_credit >= 3 {
            self.frames_since_credit = 0;
            let frames: u32 = match self.mode {
                LifecycleMode::Continuous => 8,
                LifecycleMode::Session => 4,
            };
            actions.push(Action::Grant { frames, session_id: chunk_session });
        } else {
            self.frames_since_credit = self.frames_since_credit + 1;
        }
        assert(actions_of(actions@) =~= actions_of(old(actions)@) + chunk_done(
            old(self)@,
            chunk_session@,
        ).1);
    }

    fn due(&self) -> (yes: bool)
        ensures
            yes == result_is_due(self@),
    {
        self.force_finalize_samples > 0 && self.samples_since_finalize
            >= self.force_finalize_samples
    }

    /// The decoder has taken a chunk.
    fn on_accepted(&mut self, chunk_session: String, decoding: Decoding) -> (actions: Vec<Action>)
        ensures
            (final(self)@, actions_of(actions@)) == chunk_decoded(
                old(self)@,
                chunk_session@,
                decoding,
            ),
    {
        let mut actions: Vec<Action> = Vec::new();
        assert(actions_of(actions@) =~= seq![]);
        match decoding {
            Decoding::Finalized => {
                self.samples_since_finalize = 0;
                self.phase = Phase::Finalizing { chunk_session, forced: false };
                actions.push(Action::TakeResult);
                assert(actions_of(actions@) =~= seq![ActionView::TakeResult]);
            },
            Decoding::Running => if self.due() {
                self.samples_since_finalize = 0;
                self.phase = Phase::Finalizing { chunk_session, forced: true };
                actions.push(Action::TakeFinalResult);
                assert(actions_of(actions@) =~= seq![ActionView::TakeFinalResult]);
            } else {
                self.phase = Phase::Hearing { chunk_session };
                actions.push(Action::TakePartial);
                assert(actions_of(actions@) =~= seq![ActionView::TakePartial]);
            },
            Decoding::Failed | Decoding::Refused => {
                let ghost done = chunk_done(self@, chunk_session@);
                self.finish_chunk(chunk_session, &mut actions);
                assert(actions_of(actions@) =~= done.1);
            },
        }
        actions
    }

    /// A partial text came.
    fn on_partial(&mut self, chunk_session: String, text: &str) -> (actions: Vec<Action>)
        ensures
            (final(self)@, actions_of(actions@)) == partial_heard(
                old(self)@,
                chunk_session@,
                text@,
            ),
    {
        let core = trim(text);
        if !core.is_empty() {
            self.last_partial = Some(strip_unk(core));
        }
        let ghost done = chunk_done(self@, chunk_session@);
        let mut actions: Vec<Action> = Vec::new();
        self.finish_chunk(chunk_session, &mut actions);
        assert(actions_of(actions@) =~= done.1);
        actions
    }

    /// A result came in the middle of the audio.
    fn on_utterance(&mut self, chunk_session: String, forced: bool, result: &Recognition) -> (actions:
        Vec<Action>)
        ensures
            (final(self)@, actions_of(actions@)) == utterance_recognized(
                old(self)@,
                chunk_session@,
                forced,
                result@,
            ),
    {
        let session_id = match &self.session {
            Some(id) => id.clone(),
            None => chunk_session.clone(),
        };
        let hint = self.last_partial.take();
        let transcript = make_transcript(result, session_id, false, hint);
        let ghost sent = ActionView::Send(transcript@);
        let mut actions: Vec<Action> = Vec::new();
        actions.push(Action::Send(transcript));
        assert(actions_of(actions@) =~= seq![sent]);
        let boundary = if forced {
            Boundary::ForceFinalized
        } else {
            Boundary::Finalized
        };
        match self.try_boundary(boundary, &chunk_session) {
            Some(action) => {
                actions.push(action);
                assert(actions_of(actions@) =~= seq![sent] + seq![action@]);
            },
            None => {
                self.finish_chunk(chunk_session, &mut actions);
            },
        }
        actions
    }

    /// A session ends.
    fn on_audio_stop(&mut self) -> (actions: Vec<Action>)
        ensures
            (final(self)@, actions_of(actions@)) == audio_stopped(old(self)@),
    {
        let mut actions: Vec<Action> = Vec::new();
        assert(actions_of(actions@) =~= seq![]);
        if self.mode == LifecycleMode::Continuous {
            return actions;
        }
        self.phase = Phase::Stopping;
        actions.push(Action::TakeFinalResult);
        assert(actions_of(actions@) =~= seq![ActionView::TakeFinalResult]);
        actions
    }

    /// The last result of a session came.
    fn on_session_result(&mut self, result: &Recognition) -> (actions: Vec<Action>)
        ensures
            (final(self)@, actions_of(actions@)) == session_recognized(old(self)@, result@),
    {
        let session_id = match self.session.take() {
            Some(id) => id,
            None => String::new(),
        };
        let hint = self.last_partial.take();
        let transcript = make_transcript(result, session_id, true, hint);
        let ghost sent = ActionView::Send(transcript@);
        let mut actions: Vec<Action> = Vec::new();
        actions.push(Action::Send(transcript));
        assert(actions_of(actions@) =~= seq![sent]);
        self.phase = Phase::Ready;
        let none = String::new();
        match self.try_boundary(Boundary::AudioStop, &none) {
            Some(action) => {
                actions.push(action);
                assert(actions_of(actions@) =~= seq![sent] + seq![action@]);
            },
            None => {
                assert(actions_of(actions@) =~= seq![sent] + seq![]);
            },
        }
        actions
    }

    /// Puts a recognizer for `words` in place, once it is built, and says what
    /// the swap changed. Without it the old recognizer stays live and the words
    /// come back.
    pub fn build_and_swap(&mut self, words: Vec<String>, built: bool) -> (outcome: Result<
        SwapReport,
        Vec<String>,
    >)
        ensures
            match outcome {
                Ok(report) => built && final(self)@ == swapped(old(self)@, texts(words@))
                    && report@ == swap_report(old(self)@.policy.applied, texts(words@)),
                Err(list) => !built && final(self)@ == old(self)@ && texts(list@) == texts(words@),
            },
    {
        if !built {
            return Err(words);
        }
        self.samples_since_finalize = 0;
        self.last_partial = None;
        let delta = match self.policy.applied() {
            Some(live) => Some(
                (list_lacking(words.as_slice(), live), list_lacking(live, words.as_slice())),
            ),
            None => None,
        };
        let report = SwapReport { count: words.len(), delta };
        self.policy.note_applied(words);
        Ok(report)
    }

    /// A build has succeeded or failed.
    fn on_built(
        &mut self,
        words: Vec<String>,
        boundary: Boundary,
        chunk_session: String,
        built: bool,
    ) -> (actions: Vec<Action>)
        ensures
            (final(self)@, actions_of(actions@)) == build_ended(
                old(self)@,
                texts(words@),
                boundary,
                chunk_session@,
                built,
            ),
    {
        let ghost list = texts(words@);
        let mut actions: Vec<Action> = Vec::new();
        match self.build_and_swap(words, built) {
            Ok(report) => {
                let ghost note = ActionView::Swapped(report@);
                actions.push(Action::Swapped(report));
                assert(actions_of(actions@) =~= seq![note]);
                match boundary {
                    Boundary::Idle | Boundary::AudioStart | Boundary::AudioStop => {
                        self.skip_next_reset = true;
                    },
                    Boundary::Finalized | Boundary::ForceFinalized => {},
                }
            },
            Err(words) => {
                let count = words.len();
                actions.push(Action::BuildFailed { boundary, count });
                assert(actions_of(actions@) =~= seq![
                    ActionView::BuildFailed { boundary, count: list.len() },
                ]);
                if boundary != Boundary::Idle {
                    self.policy.restore_pending(words);
                }
            },
        }
        assert(self@ == settled(old(self)@, list, boundary, built));
        match boundary {
            Boundary::AudioStart => {
                self.ready_session(&mut actions);
            },
            Boundary::Finalized | Boundary::ForceFinalized => {
                self.finish_chunk(chunk_session, &mut actions);
            },
            Boundary::Idle | Boundary::AudioStop => {
                self.phase = Phase::Ready;
                assert(actions_of(actions@) =~= actions_of(actions@) + seq![]);
            },
        }
        actions
    }

    /// Tells whether the stage waits for such an input and has room to count its
    /// samples.
    pub fn is_accepted(&self, input: &Input) -> (yes: bool)
        ensures
            yes == accepts(self@, input@),
    {
        match (&self.phase, input) {
            (Phase::Ready, Input::AudioChunk { payload, .. }) => {
                let count: u32 = low_bits(payload.len() / 2);
                self.samples_since_finalize <= u32::MAX - count
            },
            (Phase::Ready, Input::VocabularyUpdate(_)) => true,
            (Phase::Ready, Input::RecognizerReset) => true,
            (Phase::Ready, Input::AudioStart(_)) => true,
            (Phase::Ready, Input::AudioStop) => true,
            (Phase::Ready, Input::Other) => true,
            (Phase::Building { .. }, Input::Built(_)) => true,
            (Phase::Feeding { .. }, Input::Accepted(_)) => true,
            (Phase::Hearing { .. }, Input::Partial(_)) => true,
            (Phase::Finalizing { .. }, Input::Recognized(_)) => true,
            (Phase::Stopping, Input::Recognized(_)) => true,
            _ => false,
        }
    }

    /// Takes an input and says what to do, in order. Where the last action asks
    /// for something, the reply is the next input.
    pub fn handle(&mut self, input: Input) -> (actions: Vec<Action>)
        requires
            accepts(old(self)@, input@),
        ensures
            (final(self)@, actions_of(actions@)) == step(old(self)@, input@),
    {
        let mut phase = Phase::Ready;
        core::mem::swap(&mut phase, &mut self.phase);
        match (phase, input) {
            (Phase::Ready, Input::VocabularyUpdate(data)) => self.on_vocabulary(&data),
            (Phase::Ready, Input::RecognizerReset) => self.on_recognizer_reset(),
            (Phase::Ready, Input::AudioStart(data)) => self.on_audio_start(&data),
            (Phase::Ready, Input::AudioChunk { session_id, payload }) => self.on_audio_chunk(
                session_id,
                &payload,
            ),
            (Phase::Ready, Input::AudioStop) => self.on_audio_stop(),
            (Phase::Building { words, boundary, chunk_session }, Input::Built(built)) =>
                self.on_built(words, boundary, chunk_session, built),
            (Phase::Feeding { chunk_session }, Input::Accepted(decoding)) => self.on_accepted(
                chunk_session,
                decoding,
            ),
            (Phase::Hearing { chunk_session }, Input::Partial(text)) => self.on_partial(
                chunk_session,
                text.as_str(),
            ),
            (Phase::Finalizing { chunk_session, forced }, Input::Recognized(result)) =>
                self.on_utterance(chunk_session, forced, &result),
            (Phase::Stopping, Input::Recognized(result)) => self.on_session_result(&result),
            _ => {
                let actions: Vec<Action> = Vec::new();
                assert(actions_of(actions@) =~= seq![]);
                actions
            },
        }
    }
}

/// The low 32 bits of a count.
fn low_bits(count: usize) -> (bits: u32)
    ensures
        bits as nat == count as nat % 0x1_0000_0000,
{
    let wide: u64 = count as u64;
    assert(wide as u32 == wide % 0x1_0000_0000) by (bit_vector);
    #[verifier::truncate]
    let bits: u32 = wide as u32;
    bits
}

} // verus!
