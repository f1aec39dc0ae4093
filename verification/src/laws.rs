//! What holds of the stage over all inputs.

use crate::args::LifecycleMode;
use crate::conduct::{
    law_chunk_is_fed_as_it_is, law_reset_is_one_action, law_start_builds_or_prepares,
    law_update_is_built_or_parked,
};
use crate::grammar::{is_canonical, law_update_words_are_canonical, update_words};
use crate::json::Json;
use crate::machine::{
    accepts, decoder_idle, is_event, opening, stays_fresh, step,
    ActionView, Boundary, Decoding, InputView, PhaseView, StageView,
};
use crate::recognition::{best_of, RecognitionView, TranscriptView, NO_CONFIDENCE};
use crate::swap::{fresh_policy, pending_is_news, SwapView};
use crate::text::{unk, WordSeq};
use crate::timing::{requested_threshold, DEFAULT_FORCE_FINALIZE_SAMPLES};
use vstd::prelude::*;

verus! {

/// A word list in canonical form that holds the unknown-word marker.
pub open spec fn is_grammar(list: WordSeq) -> bool {
    is_canonical(list) && list.contains(unk())
}

/// An absent list, or one that is a grammar.
pub open spec fn is_grammar_if_any(list: Option<WordSeq>) -> bool {
    list matches Some(words) ==> is_grammar(words)
}

/// What a build in progress is about.
pub open spec fn coherent_build(s: StageView, words: WordSeq, boundary: Boundary) -> bool {
    &&& is_grammar(words)
    &&& s.policy.applied != Some(words)
    &&& s.policy.pending != Some(words)
    &&& boundary != Boundary::Idle ==> s.policy.pending is None
    &&& boundary == Boundary::Idle ==> decoder_idle(s)
    &&& stays_fresh(boundary) ==> s.mode == LifecycleMode::Session
    &&& boundary == Boundary::AudioStop ==> s.session is None
}

/// What holds in every state that the stage can reach.
pub open spec fn coherent(s: StageView) -> bool {
    &&& s.frames_since_credit < 4
    &&& is_grammar_if_any(s.policy.applied)
    &&& is_grammar_if_any(s.policy.pending)
    &&& pending_is_news(s.policy)
    &&& s.mode == LifecycleMode::Continuous ==> s.session is None && s.phase !is Stopping
        && !s.skip_next_reset
    &&& s.phase matches PhaseView::Building { words, boundary, .. } ==> coherent_build(
        s,
        words,
        boundary,
    )
}

/// The stage starts in a coherent state.
pub proof fn law_opening_is_coherent(mode: LifecycleMode)
    ensures
        coherent(opening(mode)),
{
}

/// Every input leads from a coherent state to a coherent state: lists are
/// canonical and hold the marker, what waits differs from what is live, no list
/// is built that is live already, fewer than four chunks go without credit, and
/// without sessions none is ever open.
pub proof fn law_step_keeps_coherence(s: StageView, input: InputView)
    requires
        coherent(s),
        accepts(s, input),
    ensures
        coherent(step(s, input).0),
{
    match input {
        InputView::VocabularyUpdate(data) => {
            law_update_words_are_canonical(data);
        },
        _ => {},
    }
}

/// The state after a series of inputs.
pub open spec fn run(s: StageView, inputs: Seq<InputView>) -> StageView
    decreases inputs.len(),
{
    if inputs.len() == 0 {
        s
    } else {
        step(run(s, inputs.drop_last()), inputs.last()).0
    }
}

/// Each of a series of inputs is one that the stage waits for when it comes.
pub open spec fn runs(s: StageView, inputs: Seq<InputView>) -> bool
    decreases inputs.len(),
{
    inputs.len() == 0 || (runs(s, inputs.drop_last()) && accepts(
        run(s, inputs.drop_last()),
        inputs.last(),
    ))
}

proof fn lemma_coherence_lasts(s: StageView, inputs: Seq<InputView>)
    requires
        coherent(s),
        runs(s, inputs),
    ensures
        coherent(run(s, inputs)),
        run(s, inputs).mode == s.mode,
    decreases inputs.len(),
{
    if inputs.len() > 0 {
        lemma_coherence_lasts(s, inputs.drop_last());
        law_step_keeps_coherence(run(s, inputs.drop_last()), inputs.last());
    }
}

/// Whatever happens, the stage stays coherent and in the mode that it was started
/// in.
pub proof fn law_reachable_states_are_coherent(mode: LifecycleMode, inputs: Seq<InputView>)
    requires
        runs(opening(mode), inputs),
    ensures
        coherent(run(opening(mode), inputs)),
        run(opening(mode), inputs).mode == mode,
{
    lemma_coherence_lasts(opening(mode), inputs);
}

/// The action asks for a reply.
pub open spec fn asks(action: ActionView) -> bool {
    match action {
        ActionView::Build { .. } | ActionView::Feed(_) | ActionView::TakePartial
        | ActionView::TakeResult | ActionView::TakeFinalResult => true,
        _ => false,
    }
}

/// The reply to the action is what the stage waits for.
pub open spec fn awaited(phase: PhaseView, action: ActionView) -> bool {
    match action {
        ActionView::Build { words, boundary } => phase matches PhaseView::Building {
            words: w,
            boundary: b,
            ..
        } && w == words && b == boundary,
        ActionView::Feed(_) => phase is Feeding,
        ActionView::TakePartial => phase is Hearing,
        ActionView::TakeResult => phase matches PhaseView::Finalizing { forced, .. } && !forced,
        ActionView::TakeFinalResult => phase is Stopping || (phase matches PhaseView::Finalizing {
            forced,
            ..
        } && forced),
        _ => false,
    }
}

/// The stage asks one thing at a time, last of all, and then waits for just that
/// reply; where it asks nothing, it is ready for the next event.
#[verifier::rlimit(40)]
pub proof fn law_one_question_at_a_time(s: StageView, input: InputView)
    requires
        accepts(s, input),
    ensures
        ({
            let (next, actions) = step(s, input);
            &&& forall|i: int| 0 <= i < actions.len() - 1 ==> !asks(#[trigger] actions[i])
            &&& next.phase is Ready <==> (actions.len() == 0 || !asks(actions.last()))
            &&& next.phase !is Ready ==> awaited(next.phase, actions.last())
        }),
{
    match input {
        InputView::VocabularyUpdate(data) => {
            law_update_is_built_or_parked(s, data);
        },
        InputView::RecognizerReset => {
            law_reset_is_one_action(s);
        },
        InputView::AudioStart(data) => {
            law_start_builds_or_prepares(s, data);
        },
        InputView::AudioChunk { session_id, payload } => {
            law_chunk_is_fed_as_it_is(s, session_id, payload);
        },
        InputView::AudioStop => {},
        InputView::Other => {},
        InputView::Built(_) => {},
        InputView::Accepted(_) => {},
        InputView::Partial(_) => {},
        InputView::Recognized(_) => {},
    }
}

/// How many replies a phase can still lead to.
pub open spec fn replies_left(phase: PhaseView) -> nat {
    match phase {
        PhaseView::Ready => 0,
        PhaseView::Building { .. } => 1,
        PhaseView::Hearing { .. } => 1,
        PhaseView::Finalizing { .. } | PhaseView::Stopping => 2,
        PhaseView::Feeding { .. } => 3,
    }
}

/// Every event is dealt with after three replies at most.
pub proof fn law_replies_run_out(s: StageView, input: InputView)
    requires
        accepts(s, input),
    ensures
        replies_left(step(s, input).0.phase) <= 3,
        !is_event(input) ==> replies_left(step(s, input).0.phase) < replies_left(s.phase),
{
}

/// A recognizer is built at a boundary only: when no session is open, when one
/// starts, or right after a result was sent.
pub proof fn law_builds_only_at_boundaries(s: StageView, input: InputView, i: int)
    requires
        accepts(s, input),
        0 <= i < step(s, input).1.len(),
        step(s, input).1[i] is Build,
    ensures
        match input {
            InputView::VocabularyUpdate(_) => decoder_idle(s) && step(s, input).1[i]->Build_boundary
                == Boundary::Idle,
            InputView::AudioStart(_) => s.mode == LifecycleMode::Session && step(s, input).1[i]
                ->Build_boundary == Boundary::AudioStart,
            InputView::Recognized(_) => i > 0 && step(s, input).1[i - 1] is Send,
            _ => false,
        },
{
}

/// Without sessions the decoder is never idle: a list that is new is parked, and
/// only a result in the middle of the audio lets it in.
pub proof fn law_continuous_mode_swaps_after_results(s: StageView, input: InputView, i: int)
    requires
        coherent(s),
        accepts(s, input),
        s.mode == LifecycleMode::Continuous,
        0 <= i < step(s, input).1.len(),
        step(s, input).1[i] is Build,
    ensures
        s.phase is Finalizing && input is Recognized,
{
}

/// Without sessions, their starts and stops mean nothing.
pub proof fn law_continuous_mode_ignores_sessions(s: StageView, data: Json)
    requires
        s.mode == LifecycleMode::Continuous,
        s.phase is Ready,
    ensures
        step(s, InputView::AudioStart(data)) == (s, Seq::<ActionView>::empty()),
        step(s, InputView::AudioStop) == (s, Seq::<ActionView>::empty()),
{
}

/// An update while an utterance may be in flight leaves the recognizer and what
/// it has heard alone: at most the list is parked.
pub proof fn law_utterance_in_flight_is_kept(s: StageView, data: Json)
    requires
        s.phase is Ready,
        !decoder_idle(s),
    ensures
        ({
            let (next, actions) = step(s, InputView::VocabularyUpdate(data));
            &&& next == (StageView {
                policy: next.policy,
                force_finalize_samples: next.force_finalize_samples,
                ..s
            })
            &&& next.policy.applied == s.policy.applied
            &&& actions == Seq::<ActionView>::empty() || actions == seq![ActionView::Parked]
        }),
{
}

/// The input is a boundary: a session starts, or a result came.
pub open spec fn is_boundary(s: StageView, input: InputView) -> bool {
    ||| s.phase is Ready && s.mode == LifecycleMode::Session && input is AudioStart
    ||| (s.phase is Finalizing || s.phase is Stopping) && input is Recognized
}

/// A parked list stays parked until a boundary, an update or a reset comes.
pub proof fn law_parked_list_waits(s: StageView, input: InputView)
    requires
        coherent(s),
        accepts(s, input),
        s.policy.pending is Some,
        !is_boundary(s, input),
        !(input is VocabularyUpdate),
        !(input is RecognizerReset),
    ensures
        step(s, input).0.policy.pending == s.policy.pending,
{
}

/// At a boundary a parked list is handed to a build, and is live once that
/// succeeds.
pub proof fn law_parked_list_goes_live_at_a_boundary(s: StageView, input: InputView, words: WordSeq)
    requires
        accepts(s, input),
        is_boundary(s, input),
        s.policy.pending == Some(words),
    ensures
        ({
            let (next, actions) = step(s, input);
            &&& actions.last() matches ActionView::Build { words: asked, .. } && asked == words
            &&& step(next, InputView::Built(true)).0.policy == (SwapView {
                applied: Some(words),
                pending: None,
            })
        }),
{
}

/// An update's threshold counts from its receipt, whether its list is swapped in
/// now, later or not at all.
pub proof fn law_threshold_applies_at_once(s: StageView, data: Json)
    requires
        s.phase is Ready,
        update_words(data) is Some,
    ensures
        step(s, InputView::VocabularyUpdate(data)).0.force_finalize_samples
            == requested_threshold(data),
{
}

/// An update that brings the live list again neither builds nor parks anything.
pub proof fn law_unchanged_list_is_not_rebuilt(s: StageView, data: Json)
    requires
        s.phase is Ready,
        update_words(data) is Some,
        s.policy.applied == update_words(data),
    ensures
        step(s, InputView::VocabularyUpdate(data)).1 == Seq::<ActionView>::empty(),
        step(s, InputView::VocabularyUpdate(data)).0.policy.pending is None,
{
}

/// A build that fails at a boundary leaves the live recognizer in place and its
/// list parked, and the next boundary asks for the same build again.
pub proof fn law_failed_build_is_retried(
    s: StageView,
    words: WordSeq,
    boundary: Boundary,
    chunk_session: Seq<char>,
    later: InputView,
)
    requires
        s.phase == (PhaseView::Building { words, boundary, chunk_session }),
        boundary != Boundary::Idle,
    ensures
        ({
            let next = step(s, InputView::Built(false)).0;
            &&& next.policy.applied == s.policy.applied
            &&& next.policy.pending == Some(words)
            &&& is_boundary(next, later) ==> (step(next, later).1.last() matches ActionView::Build {
                words: asked,
                ..
            } && asked == words)
        }),
{
}

/// A build that succeeds makes its list the live one, with nothing decoded yet.
pub proof fn law_successful_build_is_live(
    s: StageView,
    words: WordSeq,
    boundary: Boundary,
    chunk_session: Seq<char>,
)
    requires
        s.phase == (PhaseView::Building { words, boundary, chunk_session }),
    ensures
        ({
            let next = step(s, InputView::Built(true)).0;
            &&& next.policy.applied == Some(words)
            &&& next.samples_since_finalize == 0
            &&& next.last_partial is None
        }),
{
}

/// A recognizer that was swapped in while no audio flows is not reset by the next
/// session; one that was swapped in between two utterances changes nothing about
/// that.
pub proof fn law_fresh_recognizer_is_not_reset(
    s: StageView,
    words: WordSeq,
    boundary: Boundary,
    chunk_session: Seq<char>,
    data: Json,
)
    requires
        coherent(s),
        s.phase == (PhaseView::Building { words, boundary, chunk_session }),
    ensures
        ({
            let next = step(s, InputView::Built(true)).0;
            &&& boundary == Boundary::AudioStop ==> step(next, InputView::AudioStart(data)).1[0]
                == (ActionView::Prepare { reset: false })
            &&& boundary == Boundary::Idle && next.policy.pending is None ==> step(
                next,
                InputView::AudioStart(data),
            ).1[0] == (ActionView::Prepare { reset: false })
            &&& boundary == Boundary::Finalized || boundary == Boundary::ForceFinalized
                ==> next.skip_next_reset == s.skip_next_reset
        }),
{
}

/// A reset brings the startup grammar and the default threshold back, whatever
/// was live or parked.
pub proof fn law_reset_restores_startup(s: StageView)
    requires
        s.phase is Ready,
    ensures
        ({
            let (next, actions) = step(s, InputView::RecognizerReset);
            &&& next.policy == fresh_policy()
            &&& next.force_finalize_samples == DEFAULT_FORCE_FINALIZE_SAMPLES
            &&& actions == seq![ActionView::ResetToStartup]
        }),
{
}

/// The session that a result belongs to: the open one, or else the one that the
/// chunk in hand names.
pub open spec fn session_in_hand(s: StageView) -> Seq<char> {
    match s.session {
        Some(id) => id,
        None => match s.phase {
            PhaseView::Finalizing { chunk_session, .. } => chunk_session,
            _ => seq![],
        },
    }
}

/// The transcript says what the result does: its best text with the confidence
/// and the alternatives, or no text and no confidence where it holds nothing.
pub open spec fn tells(sent: TranscriptView, result: RecognitionView) -> bool {
    match best_of(result) {
        Some((text, confidence, alternatives)) => {
            &&& sent.text == text
            &&& sent.confidence == Some(confidence)
            &&& sent.alternatives == (if alternatives.len() > 0 {
                Some(alternatives)
            } else {
                None
            })
        },
        None => {
            &&& sent.text == Seq::<char>::empty()
            &&& sent.confidence == Some(NO_CONFIDENCE)
            &&& sent.alternatives is None
        },
    }
}

/// Every result is sent, first of all, under the session that is open, or else
/// the one that the chunk named. What is sent is the best text of the result with
/// its confidence and the alternatives, or no text and no confidence where the
/// result holds nothing; the last partial text goes along where there is no text,
/// and is used up. The result that ends a session is marked final and closes it.
pub proof fn law_every_result_is_sent(s: StageView, result: RecognitionView)
    requires
        accepts(s, InputView::Recognized(result)),
    ensures
        ({
            let (next, actions) = step(s, InputView::Recognized(result));
            &&& actions.len() > 0
            &&& actions[0] matches ActionView::Send(sent) && {
                &&& sent.session_id == session_in_hand(s)
                &&& sent.is_final == (s.phase is Stopping)
                &&& !sent.partial
                &&& tells(sent, result)
                &&& sent.last_partial == (if sent.text.len() == 0 {
                    s.last_partial
                } else {
                    None
                })
            }
            &&& s.phase is Stopping ==> next.session is None
            &&& s.phase is Finalizing ==> next.session == s.session
            &&& next.last_partial is None
        }),
{
}

/// Only a result is sent, and only once: no other action is a transcript, and no
/// other input leads to one.
pub proof fn law_only_results_are_sent(s: StageView, input: InputView, i: int)
    requires
        accepts(s, input),
        0 <= i < step(s, input).1.len(),
        step(s, input).1[i] is Send,
    ensures
        input is Recognized,
        i == 0,
{
}

/// The actions that a series of inputs leads to, in order.
pub open spec fn acted(s: StageView, inputs: Seq<InputView>) -> Seq<ActionView>
    decreases inputs.len(),
{
    if inputs.len() == 0 {
        seq![]
    } else {
        let before = inputs.drop_last();
        acted(s, before) + step(run(s, before), inputs.last()).1
    }
}

/// The transcripts among a list of actions.
pub open spec fn transcripts(actions: Seq<ActionView>) -> Seq<TranscriptView>
    decreases actions.len(),
{
    if actions.len() == 0 {
        seq![]
    } else {
        let before = transcripts(actions.drop_last());
        match actions.last() {
            ActionView::Send(sent) => before.push(sent),
            _ => before,
        }
    }
}

/// The results among a series of inputs.
pub open spec fn results(inputs: Seq<InputView>) -> Seq<RecognitionView>
    decreases inputs.len(),
{
    if inputs.len() == 0 {
        seq![]
    } else {
        let before = results(inputs.drop_last());
        match inputs.last() {
            InputView::Recognized(result) => before.push(result),
            _ => before,
        }
    }
}

proof fn lemma_transcripts_in_pieces(a: Seq<ActionView>, b: Seq<ActionView>)
    ensures
        transcripts(a + b) == transcripts(a) + transcripts(b),
    decreases b.len(),
{
    if b.len() == 0 {
        assert(a + b =~= a);
    } else {
        lemma_transcripts_in_pieces(a, b.drop_last());
        assert((a + b).drop_last() =~= a + b.drop_last());
    }
}

proof fn lemma_no_transcripts(actions: Seq<ActionView>)
    requires
        forall|i: int| 0 <= i < actions.len() ==> !(#[trigger] actions[i] is Send),
    ensures
        transcripts(actions) == Seq::<TranscriptView>::empty(),
    decreases actions.len(),
{
    if actions.len() > 0 {
        lemma_no_transcripts(actions.drop_last());
    }
}

proof fn lemma_transcripts_of_step(s: StageView, input: InputView)
    requires
        accepts(s, input),
    ensures
        match input {
            InputView::Recognized(result) => {
                let sent = transcripts(step(s, input).1);
                sent.len() == 1 && tells(sent[0], result)
            },
            _ => transcripts(step(s, input).1) == Seq::<TranscriptView>::empty(),
        },
{
    let actions = step(s, input).1;
    assert forall|i: int| 0 <= i < actions.len() && #[trigger] actions[i] is Send implies i == 0
        && input is Recognized by {
        law_only_results_are_sent(s, input, i);
    }
    match input {
        InputView::Recognized(result) => {
            law_every_result_is_sent(s, result);
            let rest = actions.drop_first();
            let first = seq![actions[0]];
            assert(actions =~= first + rest);
            assert(forall|i: int| 0 <= i < rest.len() ==> #[trigger] rest[i] == actions[i + 1]);
            lemma_no_transcripts(rest);
            lemma_transcripts_in_pieces(first, rest);
            lemma_no_transcripts(first.drop_last());
        },
        _ => {
            lemma_no_transcripts(actions);
        },
    }
}

/// Over any series of inputs, the transcripts are those of the results: one for
/// each, in the same order, with its text and confidence. No recognized word is
/// lost or repeated, and none is made up.
pub proof fn law_transcripts_are_those_of_the_results(s: StageView, inputs: Seq<InputView>)
    requires
        runs(s, inputs),
    ensures
        transcripts(acted(s, inputs)).len() == results(inputs).len(),
        forall|i: int|
            0 <= i < results(inputs).len() ==> tells(
                #[trigger] transcripts(acted(s, inputs))[i],
                results(inputs)[i],
            ),
    decreases inputs.len(),
{
    if inputs.len() > 0 {
        let before = inputs.drop_last();
        law_transcripts_are_those_of_the_results(s, before);
        lemma_transcripts_of_step(run(s, before), inputs.last());
        lemma_transcripts_in_pieces(acted(s, before), step(run(s, before), inputs.last()).1);
    }
}

/// The list of the last build that succeeded in a series of inputs; none after a
/// reset, and the one that was live before where neither occurs.
pub open spec fn swapped_in_last(s: StageView, inputs: Seq<InputView>) -> Option<WordSeq>
    decreases inputs.len(),
{
    if inputs.len() == 0 {
        s.policy.applied
    } else {
        match (run(s, inputs.drop_last()).phase, inputs.last()) {
            (PhaseView::Building { words, .. }, InputView::Built(true)) => Some(words),
            (PhaseView::Ready, InputView::RecognizerReset) => None,
            _ => swapped_in_last(s, inputs.drop_last()),
        }
    }
}

/// The live list is always the one that was swapped in last.
pub proof fn law_live_list_was_swapped_in_last(s: StageView, inputs: Seq<InputView>)
    ensures
        run(s, inputs).policy.applied == swapped_in_last(s, inputs),
    decreases inputs.len(),
{
    if inputs.len() > 0 {
        law_live_list_was_swapped_in_last(s, inputs.drop_last());
    }
}

/// A result is forced while the decoder runs on, exactly where forcing is on and
/// the threshold is reached.
pub proof fn law_results_are_forced_when_due(s: StageView, chunk_session: Seq<char>)
    requires
        s.phase == (PhaseView::Feeding { chunk_session }),
    ensures
        step(s, InputView::Accepted(Decoding::Running)).1 == (if s.force_finalize_samples > 0
            && s.samples_since_finalize >= s.force_finalize_samples {
            seq![ActionView::TakeFinalResult]
        } else {
            seq![ActionView::TakePartial]
        }),
{
}

/// The input ends the work on a chunk.
pub open spec fn ends_chunk(s: StageView, input: InputView) -> bool {
    &&& step(s, input).0.phase is Ready
    &&& match s.phase {
        PhaseView::Feeding { .. } | PhaseView::Hearing { .. } | PhaseView::Finalizing { .. } =>
            true,
        PhaseView::Building { boundary, .. } => boundary == Boundary::Finalized || boundary
            == Boundary::ForceFinalized,
        _ => false,
    }
}

/// The input makes a session ready.
pub open spec fn readies_session(s: StageView, input: InputView) -> bool {
    &&& step(s, input).0.phase is Ready
    &&& s.mode == LifecycleMode::Session
    &&& match s.phase {
        PhaseView::Ready => input is AudioStart,
        PhaseView::Building { boundary, .. } => boundary == Boundary::AudioStart,
        _ => false,
    }
}

/// The session that the chunk in hand names.
pub open spec fn session_of_chunk(s: StageView) -> Seq<char> {
    match s.phase {
        PhaseView::Feeding { chunk_session } | PhaseView::Hearing { chunk_session }
        | PhaseView::Finalizing { chunk_session, .. } | PhaseView::Building {
            chunk_session,
            ..
        } => chunk_session,
        _ => seq![],
    }
}

/// The grants among a list of actions.
pub open spec fn grants(actions: Seq<ActionView>) -> Seq<ActionView>
    decreases actions.len(),
{
    if actions.len() == 0 {
        seq![]
    } else {
        let before = grants(actions.drop_last());
        if actions.last() is Grant {
            before.push(actions.last())
        } else {
            before
        }
    }
}

/// The frames that four chunks earn.
pub open spec fn earned_frames(mode: LifecycleMode) -> u32 {
    if mode == LifecycleMode::Continuous {
        8
    } else {
        4
    }
}

proof fn lemma_grants(actions: Seq<ActionView>)
    requires
        actions.len() <= 3,
        forall|i: int| 0 <= i < actions.len() - 1 ==> !(#[trigger] actions[i] is Grant),
    ensures
        grants(actions) == (if actions.len() > 0 && actions.last() is Grant {
            seq![actions.last()]
        } else {
            seq![]
        }),
{
    reveal_with_fuel(grants, 4);
    if actions.len() > 0 {
        let two = actions.drop_last();
        assert(forall|i: int| 0 <= i < two.len() ==> #[trigger] two[i] == actions[i]);
        if two.len() > 0 {
            let one = two.drop_last();
            assert(forall|i: int| 0 <= i < one.len() ==> #[trigger] one[i] == actions[i]);
        }
        assert(grants(two) =~= seq![]);
    }
}

/// In either mode, chunks are counted in fours: an input that ends a chunk moves
/// the count on by one, and grants exactly where that completes four, to the
/// session of the chunk, four frames with sessions and eight without. Readying a
/// session starts the count again and grants sixteen frames. Nothing else grants
/// or counts.
pub proof fn law_credit_is_granted_in_fours(s: StageView, input: InputView)
    requires
        coherent(s),
        accepts(s, input),
    ensures
        ({
            let (next, actions) = step(s, input);
            if readies_session(s, input) {
                &&& next.frames_since_credit == 0
                &&& grants(actions) == seq![
                    ActionView::Grant { frames: 16, session_id: Seq::<char>::empty() },
                ]
            } else if ends_chunk(s, input) {
                &&& next.frames_since_credit == (s.frames_since_credit + 1) % 4
                &&& grants(actions) == (if next.frames_since_credit == 0 {
                    seq![
                        ActionView::Grant {
                            frames: earned_frames(s.mode),
                            session_id: session_of_chunk(s),
                        },
                    ]
                } else {
                    Seq::<ActionView>::empty()
                })
            } else {
                &&& next.frames_since_credit == s.frames_since_credit
                &&& grants(actions) == Seq::<ActionView>::empty()
            }
        }),
{
    lemma_grants(step(s, input).1);
}

/// With sessions, credit is returned frame by frame: what a chunk adds to the
/// count or is granted for it is one frame, no more and no less.
pub proof fn law_credit_is_returned(s: StageView, input: InputView)
    requires
        coherent(s),
        accepts(s, input),
        s.mode == LifecycleMode::Session,
        ends_chunk(s, input),
    ensures
        step(s, input).0.frames_since_credit + earned_frames(s.mode) * grants(
            step(s, input).1,
        ).len() == s.frames_since_credit + 1,
{
    law_credit_is_granted_in_fours(s, input);
}

/// The chunks of a series of inputs since a session was last made ready. Before
/// that, those count along that went without credit at the beginning.
pub open spec fn chunks_counted(s: StageView, inputs: Seq<InputView>) -> nat
    decreases inputs.len(),
{
    if inputs.len() == 0 {
        s.frames_since_credit as nat
    } else {
        let before = inputs.drop_last();
        if readies_session(run(s, before), inputs.last()) {
            0
        } else if ends_chunk(run(s, before), inputs.last()) {
            chunks_counted(s, before) + 1
        } else {
            chunks_counted(s, before)
        }
    }
}

/// Over any series of inputs, every fourth chunk since a session was made ready
/// earns credit for its session, and no other chunk does.
pub proof fn law_every_fourth_chunk_earns_credit(s: StageView, inputs: Seq<InputView>)
    requires
        coherent(s),
        runs(s, inputs),
    ensures
        run(s, inputs).frames_since_credit == chunks_counted(s, inputs) % 4,
        inputs.len() > 0 ==> ({
            let last = run(s, inputs.drop_last());
            ends_chunk(last, inputs.last()) ==> grants(step(last, inputs.last()).1) == (if
            chunks_counted(s, inputs) % 4 == 0 {
                seq![
                    ActionView::Grant {
                        frames: earned_frames(last.mode),
                        session_id: session_of_chunk(last),
                    },
                ]
            } else {
                Seq::<ActionView>::empty()
            })
        }),
    decreases inputs.len(),
{
    if inputs.len() > 0 {
        let before = inputs.drop_last();
        law_every_fourth_chunk_earns_credit(s, before);
        lemma_coherence_lasts(s, before);
        law_credit_is_granted_in_fours(run(s, before), inputs.last());
    }
}

/// Events that the stage does not know change nothing.
pub proof fn law_other_events_are_ignored(s: StageView)
    requires
        s.phase is Ready,
    ensures
        step(s, InputView::Other) == (s, Seq::<ActionView>::empty()),
{
}

} // verus!
