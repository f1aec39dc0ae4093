//! How the stage behaves, told by what it is given, what it does and what it
//! remembers: each thing that it remembers is tied to the inputs so far, and each
//! thing that it does to what it remembers.

use crate::args::LifecycleMode;
use crate::grammar::{lacking, law_difference_is_exact, update_words};
use crate::json::Json;
use crate::laws::{acted, run, runs};
use crate::machine::{
    accepts, opening, step, swap_report, swapped, ActionView, Boundary, Decoding, InputView,
    PhaseView, StageView, SwapReportView,
};
use crate::pcm::law_samples_in_order;
use crate::recognition::RecognitionView;
use crate::swap::SwapView;
use crate::text::{
    known, law_blank_text_has_no_words, law_trim_keeps_words, spaced, words, WordSeq,
};
use crate::timing::requested_threshold;
use vstd::prelude::*;

verus! {

/// Every event is taken while the stage is ready, but for a chunk whose samples
/// the count has no room for; a reply is taken exactly when it is waited for.
pub proof fn law_what_is_accepted(s: StageView, input: InputView)
    ensures
        accepts(s, input) <==> match input {
            InputView::VocabularyUpdate(_) | InputView::RecognizerReset | InputView::AudioStart(_)
            | InputView::AudioStop | InputView::Other => s.phase is Ready,
            InputView::AudioChunk { payload, .. } => s.phase is Ready && s.samples_since_finalize + (
            payload.len() / 2) % 0x1_0000_0000 <= u32::MAX,
            InputView::Built(_) => s.phase is Building,
            InputView::Accepted(_) => s.phase is Feeding,
            InputView::Partial(_) => s.phase is Hearing,
            InputView::Recognized(_) => s.phase is Finalizing || s.phase is Stopping,
        },
{
}

/// At startup no session is open, nothing is heard, live or parked, the next
/// session resets its recognizer, and the default threshold is in force.
pub proof fn law_opening_is_blank(mode: LifecycleMode)
    ensures
        ({
            let s = opening(mode);
            &&& s.mode == mode
            &&& s.session is None
            &&& s.frames_since_credit == 0
            &&& !s.skip_next_reset
            &&& s.samples_since_finalize == 0
            &&& s.last_partial is None
            &&& s.force_finalize_samples == 12800
            &&& s.policy.applied is None
            &&& s.policy.pending is None
            &&& s.phase is Ready
        }),
{
}

/// The session that the data of a start event names.
pub open spec fn session_named(data: Json) -> Option<Seq<char>> {
    match data.member("session_id"@) {
        Some(Json::Text(id)) => Some(id@),
        _ => None,
    }
}

/// The input opens the next session, where it names one: audio comes in sessions,
/// and this is a start.
pub open spec fn starts(s: StageView, input: InputView) -> bool {
    s.phase is Ready && s.mode != LifecycleMode::Continuous && input is AudioStart
}

/// A session is open from the start that names it until its last result came, and
/// the mode is there to stay.
pub proof fn law_session_is_the_one_that_was_named_last(s: StageView, input: InputView)
    requires
        accepts(s, input),
    ensures
        step(s, input).0.mode == s.mode,
        step(s, input).0.session == (if starts(s, input) && session_named(input->AudioStart_0) is Some {
            session_named(input->AudioStart_0)
        } else if s.phase is Stopping {
            None
        } else {
            s.session
        }),
{
}

/// A recognizer is swapped in: it was being built, and that succeeded.
pub open spec fn swaps_in(s: StageView, input: InputView) -> bool {
    s.phase is Building && input == InputView::Built(true)
}

/// A session is prepared: it starts and no list waits, or the build for the list
/// that waited is over.
pub open spec fn prepares(s: StageView, input: InputView) -> bool {
    ||| starts(s, input) && s.policy.pending is None
    ||| s.phase matches PhaseView::Building { boundary, .. } && boundary == Boundary::AudioStart
}

/// The samples in a chunk, as they are counted.
pub open spec fn counted(input: InputView) -> nat {
    match input {
        InputView::AudioChunk { payload, .. } => (payload.len() / 2) % 0x1_0000_0000,
        _ => 0,
    }
}

/// A result is taken from a chunk: the decoder has ended an utterance, or it runs
/// on and the audio since the last result reaches a threshold other than zero.
pub open spec fn takes_result(s: StageView, input: InputView) -> bool {
    &&& s.phase is Feeding
    &&& input == InputView::Accepted(Decoding::Finalized) || (input == InputView::Accepted(
        Decoding::Running,
    ) && 0 < s.force_finalize_samples <= s.samples_since_finalize)
}

/// The sample count grows by the chunks and falls to zero with a result that is
/// taken from a chunk, a swap, a reset and the preparation of a session. Nothing
/// else touches it.
pub proof fn law_sample_count_changes(s: StageView, input: InputView)
    requires
        accepts(s, input),
    ensures
        step(s, input).0.samples_since_finalize == (if takes_result(s, input) || swaps_in(s, input)
            || prepares(s, input) || input is RecognizerReset {
            0
        } else {
            s.samples_since_finalize + counted(input)
        }),
{
}

/// The actions take a result.
pub open spec fn ask_result(actions: Seq<ActionView>) -> bool {
    actions == seq![ActionView::TakeResult] || actions == seq![ActionView::TakeFinalResult]
}

/// The actions prepare a session.
pub open spec fn ask_preparation(actions: Seq<ActionView>) -> bool {
    exists|i: int| 0 <= i < actions.len() && #[trigger] actions[i] is Prepare
}

/// The samples of the chunks since a result was last taken from one, a recognizer
/// was swapped in or reset, or a session was prepared; from the beginning, on top
/// of the count at that time, where none of these occurred.
pub open spec fn samples_heard(s: StageView, inputs: Seq<InputView>) -> nat
    decreases inputs.len(),
{
    if inputs.len() == 0 {
        s.samples_since_finalize as nat
    } else {
        let before = run(s, inputs.drop_last());
        let input = inputs.last();
        let actions = step(before, input).1;
        if (before.phase is Feeding && ask_result(actions)) || input == InputView::Built(true)
            || input is RecognizerReset || ask_preparation(actions) {
            0
        } else {
            samples_heard(s, inputs.drop_last()) + counted(input)
        }
    }
}

proof fn lemma_actions_show(s: StageView, input: InputView)
    requires
        accepts(s, input),
    ensures
        (s.phase is Feeding && ask_result(step(s, input).1)) <==> takes_result(s, input),
        ask_preparation(step(s, input).1) <==> prepares(s, input),
{
    let actions = step(s, input).1;
    if s.phase is Feeding {
        if takes_result(s, input) {
        } else {
            assert(actions.len() > 0 ==> !(actions[0] is TakeResult) && !(actions[0]
                is TakeFinalResult));
            assert(seq![ActionView::TakeResult][0] is TakeResult);
            assert(seq![ActionView::TakeFinalResult][0] is TakeFinalResult);
        }
    }
    if prepares(s, input) {
        if s.phase is Ready {
            assert(actions[0] is Prepare);
        } else {
            assert(actions[1] is Prepare);
        }
    }
}

/// Over any series of inputs, the sample count is the number of samples in the
/// chunks since the last result that was taken from a chunk, swap, reset or session
/// preparation; and a chunk that the decoder runs on with leads to a forced result
/// exactly where that number reaches a threshold other than zero.
pub proof fn law_sample_count_is_the_audio_since_the_last_result(
    s: StageView,
    inputs: Seq<InputView>,
)
    requires
        runs(s, inputs),
    ensures
        run(s, inputs).samples_since_finalize == samples_heard(s, inputs),
        run(s, inputs).phase is Feeding ==> ({
            let threshold = run(s, inputs).force_finalize_samples;
            step(run(s, inputs), InputView::Accepted(Decoding::Running)).1 == (if 0 < threshold
                <= samples_heard(s, inputs) {
                seq![ActionView::TakeFinalResult]
            } else {
                seq![ActionView::TakePartial]
            })
        }),
    decreases inputs.len(),
{
    if inputs.len() > 0 {
        let before = run(s, inputs.drop_last());
        law_sample_count_is_the_audio_since_the_last_result(s, inputs.drop_last());
        lemma_actions_show(before, inputs.last());
        law_sample_count_changes(before, inputs.last());
    }
}

/// The words of a text without the markers, with single spaces between them.
pub open spec fn known_words_of(text: Seq<char>) -> Seq<char> {
    spaced(known(words(text)))
}

/// The last partial text is kept without its markers, unless it is blank; it is
/// used up by a result and forgotten with a swap. Nothing else touches it.
pub proof fn law_hint_is_the_last_partial_text(s: StageView, input: InputView)
    requires
        accepts(s, input),
    ensures
        step(s, input).0.last_partial == (match input {
            InputView::Partial(text) => if words(text).len() > 0 {
                Some(known_words_of(text))
            } else {
                s.last_partial
            },
            InputView::Recognized(_) => None,
            InputView::Built(true) => None,
            _ => s.last_partial,
        }),
{
    match input {
        InputView::Partial(text) => {
            law_trim_keeps_words(text);
            law_blank_text_has_no_words(text);
        },
        _ => {},
    }
}

/// The threshold is the one that the last update with a word list asked for, or the
/// default after a reset. Nothing else touches it.
pub proof fn law_threshold_is_the_one_asked_for_last(s: StageView, input: InputView)
    requires
        accepts(s, input),
    ensures
        step(s, input).0.force_finalize_samples == (match input {
            InputView::VocabularyUpdate(data) => if update_words(data) is Some {
                requested_threshold(data)
            } else {
                s.force_finalize_samples
            },
            InputView::RecognizerReset => 12800,
            _ => s.force_finalize_samples,
        }),
{
}

/// The live list changes with a swap, to the list that was built, and with a reset.
/// Nothing else touches it.
pub proof fn law_live_list_changes(s: StageView, input: InputView)
    requires
        accepts(s, input),
    ensures
        step(s, input).0.policy.applied == (if swaps_in(s, input) {
            Some(s.phase->Building_words)
        } else if input is RecognizerReset {
            None
        } else {
            s.policy.applied
        }),
{
}

/// A list is parked where it is neither live nor parked already and an utterance
/// may be in flight, and again where its build failed at a boundary. It is given up
/// where the live list comes again, with a reset, and to the build at a session
/// start or after a result. Nothing else touches it.
pub proof fn law_parked_list_changes(s: StageView, input: InputView)
    requires
        accepts(s, input),
    ensures
        step(s, input).0.policy.pending == (match input {
            InputView::VocabularyUpdate(data) => match update_words(data) {
                Some(list) => if s.policy.applied == Some(list) {
                    None
                } else if s.session is Some || s.mode == LifecycleMode::Continuous {
                    Some(list)
                } else {
                    s.policy.pending
                },
                None => s.policy.pending,
            },
            InputView::RecognizerReset | InputView::Recognized(_) => None,
            InputView::AudioStart(_) => if s.mode == LifecycleMode::Continuous {
                s.policy.pending
            } else {
                None
            },
            InputView::Built(false) => if s.phase->Building_boundary == Boundary::Idle {
                s.policy.pending
            } else {
                Some(s.phase->Building_words)
            },
            _ => s.policy.pending,
        }),
{
}

/// While a session is open, and always without sessions, an update builds nothing,
/// whatever else was heard or is remembered: the recognizer, what it has heard, and
/// the session stay as they are, and the list waits or is none.
pub proof fn law_open_session_is_never_cut_off(s: StageView, data: Json)
    requires
        s.phase is Ready,
        s.session is Some || s.mode == LifecycleMode::Continuous,
    ensures
        ({
            let (next, actions) = step(s, InputView::VocabularyUpdate(data));
            &&& forall|i: int| 0 <= i < actions.len() ==> #[trigger] actions[i] == ActionView::Parked
            &&& next.phase is Ready
            &&& next.policy.applied == s.policy.applied
            &&& next.samples_since_finalize == s.samples_since_finalize
            &&& next.last_partial == s.last_partial
            &&& next.session == s.session
            &&& next.skip_next_reset == s.skip_next_reset
            &&& next.frames_since_credit == s.frames_since_credit
        }),
{
}

/// What becomes of an update. Without a word array it is nothing. The live list and
/// the parked one are no news. A new list is built at once where no session is open
/// and audio comes in sessions; else it is parked, and that is noted.
pub proof fn law_update_is_built_or_parked(s: StageView, data: Json)
    requires
        s.phase is Ready,
    ensures
        ({
            let (next, actions) = step(s, InputView::VocabularyUpdate(data));
            match update_words(data) {
                None => next == s && actions == Seq::<ActionView>::empty(),
                Some(list) => if s.policy.applied == Some(list) || s.policy.pending == Some(list) {
                    next.phase is Ready && actions == Seq::<ActionView>::empty()
                } else if s.session is None && s.mode == LifecycleMode::Session {
                    &&& next.phase == (PhaseView::Building {
                        words: list,
                        boundary: Boundary::Idle,
                        chunk_session: Seq::<char>::empty(),
                    })
                    &&& actions == seq![
                        ActionView::Build { words: list, boundary: Boundary::Idle },
                    ]
                } else {
                    next.phase is Ready && actions == seq![ActionView::Parked]
                },
            }
        }),
{
}

/// A reset is one action, and the stage is ready again.
pub proof fn law_reset_is_one_action(s: StageView)
    requires
        s.phase is Ready,
    ensures
        step(s, InputView::RecognizerReset).0.phase is Ready,
        step(s, InputView::RecognizerReset).1 == seq![ActionView::ResetToStartup],
{
}

/// A session start builds the list that waits, or prepares the session at once:
/// the recognizer is reset unless it is fresh, and upstream may send sixteen
/// frames. Without sessions it is nothing.
pub proof fn law_start_builds_or_prepares(s: StageView, data: Json)
    requires
        s.phase is Ready,
    ensures
        ({
            let (next, actions) = step(s, InputView::AudioStart(data));
            if s.mode == LifecycleMode::Continuous {
                next == s && actions == Seq::<ActionView>::empty()
            } else {
                match s.policy.pending {
                    Some(list) => {
                        &&& next.phase == (PhaseView::Building {
                            words: list,
                            boundary: Boundary::AudioStart,
                            chunk_session: Seq::<char>::empty(),
                        })
                        &&& actions == seq![
                            ActionView::Build { words: list, boundary: Boundary::AudioStart },
                        ]
                    },
                    None => {
                        &&& next.phase is Ready
                        &&& actions == seq![
                            ActionView::Prepare { reset: !s.skip_next_reset },
                            ActionView::Grant { frames: 16, session_id: Seq::<char>::empty() },
                        ]
                    },
                }
            }
        }),
{
}

/// The value of two bytes, the low one first, in two's complement.
pub open spec fn little_endian(low: u8, high: u8) -> int {
    if high < 128 {
        256 * high + low
    } else {
        256 * (high - 256) + low
    }
}

/// A chunk is fed as it is: one sample for every two bytes, each at its place and
/// with the value of its bytes. The session that the chunk names is kept in mind.
pub proof fn law_chunk_is_fed_as_it_is(s: StageView, session_id: Seq<char>, payload: Seq<u8>)
    requires
        accepts(s, InputView::AudioChunk { session_id, payload }),
    ensures
        ({
            let (next, actions) = step(s, InputView::AudioChunk { session_id, payload });
            &&& next.phase == (PhaseView::Feeding { chunk_session: session_id })
            &&& actions.len() == 1
            &&& actions[0] matches ActionView::Feed(samples) && {
                &&& samples.len() == payload.len() / 2
                &&& forall|i: int|
                    0 <= i < samples.len() ==> #[trigger] samples[i] == little_endian(
                        payload[2 * i],
                        payload[2 * i + 1],
                    )
            }
        }),
{
    law_samples_in_order(payload);
}

/// The samples that a list of actions feeds, one after the other.
pub open spec fn fed(actions: Seq<ActionView>) -> Seq<i16>
    decreases actions.len(),
{
    if actions.len() == 0 {
        seq![]
    } else {
        match actions.last() {
            ActionView::Feed(samples) => fed(actions.drop_last()) + samples,
            _ => fed(actions.drop_last()),
        }
    }
}

/// The values of a payload, two bytes each.
pub open spec fn payload_values(payload: Seq<u8>) -> Seq<i16> {
    Seq::new(
        payload.len() / 2,
        |i: int| little_endian(payload[2 * i], payload[2 * i + 1]) as i16,
    )
}

/// The audio of a series of inputs, payload after payload.
pub open spec fn audio(inputs: Seq<InputView>) -> Seq<i16>
    decreases inputs.len(),
{
    if inputs.len() == 0 {
        seq![]
    } else {
        match inputs.last() {
            InputView::AudioChunk { payload, .. } => audio(inputs.drop_last()) + payload_values(
                payload,
            ),
            _ => audio(inputs.drop_last()),
        }
    }
}

proof fn lemma_fed_in_pieces(a: Seq<ActionView>, b: Seq<ActionView>)
    ensures
        fed(a + b) == fed(a) + fed(b),
    decreases b.len(),
{
    if b.len() == 0 {
        assert(a + b =~= a);
        assert(fed(a) + fed(b) =~= fed(a));
    } else {
        lemma_fed_in_pieces(a, b.drop_last());
        assert((a + b).drop_last() =~= a + b.drop_last());
        assert(fed(a + b) =~= fed(a) + fed(b));
    }
}

proof fn lemma_nothing_fed(actions: Seq<ActionView>)
    requires
        forall|i: int| 0 <= i < actions.len() ==> !(#[trigger] actions[i] is Feed),
    ensures
        fed(actions) == Seq::<i16>::empty(),
    decreases actions.len(),
{
    if actions.len() > 0 {
        lemma_nothing_fed(actions.drop_last());
    }
}

proof fn lemma_chunk_fed(s: StageView, session_id: Seq<char>, payload: Seq<u8>)
    requires
        accepts(s, InputView::AudioChunk { session_id, payload }),
    ensures
        fed(step(s, InputView::AudioChunk { session_id, payload }).1) == payload_values(payload),
{
    let actions = step(s, InputView::AudioChunk { session_id, payload }).1;
    law_chunk_is_fed_as_it_is(s, session_id, payload);
    lemma_nothing_fed(actions.drop_last());
    assert(fed(actions) =~= actions[0]->Feed_0);
    assert(actions[0]->Feed_0 =~= payload_values(payload));
}

proof fn lemma_only_chunks_are_fed(s: StageView, input: InputView)
    requires
        accepts(s, input),
        !(input is AudioChunk),
    ensures
        fed(step(s, input).1) == Seq::<i16>::empty(),
{
    lemma_nothing_fed(step(s, input).1);
}

/// Over any series of inputs, the recognizer is fed the payloads, one after the
/// other: no sample is lost, repeated, changed or moved.
pub proof fn law_all_audio_is_fed_in_order(s: StageView, inputs: Seq<InputView>)
    requires
        runs(s, inputs),
    ensures
        fed(acted(s, inputs)) == audio(inputs),
    decreases inputs.len(),
{
    if inputs.len() > 0 {
        let front = inputs.drop_last();
        let before = run(s, front);
        law_all_audio_is_fed_in_order(s, front);
        lemma_fed_in_pieces(acted(s, front), step(before, inputs.last()).1);
        match inputs.last() {
            InputView::AudioChunk { session_id, payload } => {
                lemma_chunk_fed(before, session_id, payload);
            },
            _ => {
                lemma_only_chunks_are_fed(before, inputs.last());
                assert(audio(front) + Seq::<i16>::empty() =~= audio(front));
            },
        }
    }
}

/// What the end of a chunk brings upstream: every fourth time new credit for the
/// session that the chunk names, four frames with sessions and eight without.
pub open spec fn credit_due(s: StageView, chunk_session: Seq<char>) -> Seq<ActionView> {
    if s.frames_since_credit < 3 {
        Seq::<ActionView>::empty()
    } else if s.mode == LifecycleMode::Continuous {
        seq![ActionView::Grant { frames: 8, session_id: chunk_session }]
    } else {
        seq![ActionView::Grant { frames: 4, session_id: chunk_session }]
    }
}

/// What the decoder says decides what is asked of it next: the result where an
/// utterance ended, a forced one where it is due, the partial text where the
/// decoder runs on, and nothing where it failed.
pub proof fn law_decoder_is_asked_what_it_has(
    s: StageView,
    chunk_session: Seq<char>,
    decoding: Decoding,
)
    requires
        s.phase == (PhaseView::Feeding { chunk_session }),
    ensures
        ({
            let (next, actions) = step(s, InputView::Accepted(decoding));
            match decoding {
                Decoding::Finalized => {
                    &&& next.phase == (PhaseView::Finalizing { chunk_session, forced: false })
                    &&& actions == seq![ActionView::TakeResult]
                },
                Decoding::Running => if 0 < s.force_finalize_samples <= s.samples_since_finalize {
                    &&& next.phase == (PhaseView::Finalizing { chunk_session, forced: true })
                    &&& actions == seq![ActionView::TakeFinalResult]
                } else {
                    &&& next.phase == (PhaseView::Hearing { chunk_session })
                    &&& actions == seq![ActionView::TakePartial]
                },
                Decoding::Failed | Decoding::Refused => {
                    &&& next.phase is Ready
                    &&& actions == credit_due(s, chunk_session)
                },
            }
        }),
{
}

/// A partial text ends its chunk.
pub proof fn law_partial_text_ends_the_chunk(
    s: StageView,
    chunk_session: Seq<char>,
    text: Seq<char>,
)
    requires
        s.phase == (PhaseView::Hearing { chunk_session }),
    ensures
        step(s, InputView::Partial(text)).0.phase is Ready,
        step(s, InputView::Partial(text)).1 == credit_due(s, chunk_session),
{
}

/// A result in the middle of the audio is sent, and then either the list that waits
/// is built or the chunk ends.
pub proof fn law_result_is_followed_by_the_swap(
    s: StageView,
    chunk_session: Seq<char>,
    forced: bool,
    result: RecognitionView,
)
    requires
        s.phase == (PhaseView::Finalizing { chunk_session, forced }),
    ensures
        ({
            let (next, actions) = step(s, InputView::Recognized(result));
            let rest = actions.drop_first();
            let boundary = if forced {
                Boundary::ForceFinalized
            } else {
                Boundary::Finalized
            };
            &&& actions.len() > 0
            &&& actions[0] is Send
            &&& match s.policy.pending {
                Some(list) => {
                    &&& rest == seq![ActionView::Build { words: list, boundary }]
                    &&& next.phase == (PhaseView::Building { words: list, boundary, chunk_session })
                },
                None => rest == credit_due(s, chunk_session) && next.phase is Ready,
            }
        }),
{
    let (next, actions) = step(s, InputView::Recognized(result));
    let rest = actions.drop_first();
    match s.policy.pending {
        Some(list) => {
            let boundary = if forced {
                Boundary::ForceFinalized
            } else {
                Boundary::Finalized
            };
            assert(rest =~= seq![ActionView::Build { words: list, boundary }]);
        },
        None => {
            assert(rest =~= credit_due(s, chunk_session));
        },
    }
}

/// A session stop asks for a last result; without sessions it is nothing. The last
/// result is sent, and then the list that waits, if any, is built.
pub proof fn law_stop_takes_the_last_result(s: StageView, result: RecognitionView)
    ensures
        s.phase is Ready && s.mode == LifecycleMode::Continuous ==> step(s, InputView::AudioStop)
            == (s, Seq::<ActionView>::empty()),
        s.phase is Ready && s.mode == LifecycleMode::Session ==> step(
            s,
            InputView::AudioStop,
        ).0.phase is Stopping && step(s, InputView::AudioStop).1 == seq![
            ActionView::TakeFinalResult,
        ],
        s.phase is Stopping ==> ({
            let (next, actions) = step(s, InputView::Recognized(result));
            let rest = actions.drop_first();
            &&& actions.len() > 0
            &&& actions[0] is Send
            &&& match s.policy.pending {
                Some(list) => {
                    &&& rest == seq![
                        ActionView::Build { words: list, boundary: Boundary::AudioStop },
                    ]
                    &&& next.phase == (PhaseView::Building {
                        words: list,
                        boundary: Boundary::AudioStop,
                        chunk_session: Seq::<char>::empty(),
                    })
                },
                None => rest == Seq::<ActionView>::empty() && next.phase is Ready,
            }
        }),
{
    let rest = step(s, InputView::Recognized(result)).1.drop_first();
    if s.phase is Stopping {
        match s.policy.pending {
            Some(list) => {
                assert(rest =~= seq![
                    ActionView::Build { words: list, boundary: Boundary::AudioStop },
                ]);
            },
            None => {
                assert(rest =~= Seq::<ActionView>::empty());
            },
        }
    }
}

/// A swap is reported truthfully: the number of words, the words of the new list
/// that the old one lacks and those of the old that the new one lacks, or no
/// difference where no list was live.
pub open spec fn reports(report: SwapReportView, old_list: Option<WordSeq>, list: WordSeq) -> bool {
    &&& report.count == list.len()
    &&& match (old_list, report.delta) {
        (Some(live), Some((added, removed))) => {
            &&& forall|w: Seq<char>|
                #[trigger] added.contains(w) <==> list.contains(w) && !live.contains(w)
            &&& forall|w: Seq<char>|
                #[trigger] removed.contains(w) <==> live.contains(w) && !list.contains(w)
            &&& added == lacking(list, live)
            &&& removed == lacking(live, list)
        },
        (None, None) => true,
        _ => false,
    }
}

/// A recognizer for a list is put in place: the list is live, nothing is heard yet, and
/// all else stays; the report on it is true.
pub proof fn law_swap_puts_the_list_in_place(s: StageView, list: WordSeq)
    ensures
        swapped(s, list) == (StageView {
            samples_since_finalize: 0,
            last_partial: None,
            policy: SwapView { applied: Some(list), pending: s.policy.pending },
            mode: s.mode,
            session: s.session,
            frames_since_credit: s.frames_since_credit,
            skip_next_reset: s.skip_next_reset,
            force_finalize_samples: s.force_finalize_samples,
            phase: s.phase,
        }),
        reports(swap_report(s.policy.applied, list), s.policy.applied, list),
{
    match s.policy.applied {
        Some(live) => {
            law_difference_is_exact(list, live);
            law_difference_is_exact(live, list);
        },
        None => {},
    }
}

/// A build is over: its outcome is noted first, and then what it interrupted goes
/// on: a session is prepared, without a reset where the recognizer is new or was
/// fresh already; a chunk ends; or the stage is ready.
pub proof fn law_build_is_noted_and_work_goes_on(
    s: StageView,
    list: WordSeq,
    boundary: Boundary,
    chunk_session: Seq<char>,
    built: bool,
)
    requires
        s.phase == (PhaseView::Building { words: list, boundary, chunk_session }),
    ensures
        ({
            let (next, actions) = step(s, InputView::Built(built));
            let rest = actions.drop_first();
            &&& next.phase is Ready
            &&& actions.len() > 0
            &&& if built {
                actions[0] matches ActionView::Swapped(report) && reports(
                    report,
                    s.policy.applied,
                    list,
                )
            } else {
                actions[0] == (ActionView::BuildFailed { boundary, count: list.len() })
            }
            &&& rest == (match boundary {
                Boundary::Idle | Boundary::AudioStop => Seq::<ActionView>::empty(),
                Boundary::Finalized | Boundary::ForceFinalized => credit_due(s, chunk_session),
                Boundary::AudioStart => seq![
                    ActionView::Prepare { reset: !built && !s.skip_next_reset },
                    ActionView::Grant { frames: 16, session_id: Seq::<char>::empty() },
                ],
            })
        }),
{
    let actions = step(s, InputView::Built(built)).1;
    let rest = actions.drop_first();
    match s.policy.applied {
        Some(live) => {
            law_difference_is_exact(list, live);
            law_difference_is_exact(live, list);
        },
        None => {},
    }
    match boundary {
        Boundary::Idle | Boundary::AudioStop => {
            assert(rest =~= Seq::<ActionView>::empty());
        },
        Boundary::Finalized | Boundary::ForceFinalized => {
            assert(rest =~= credit_due(s, chunk_session));
        },
        Boundary::AudioStart => {
            assert(rest =~= seq![
                ActionView::Prepare { reset: !built && !s.skip_next_reset },
                ActionView::Grant { frames: 16, session_id: Seq::<char>::empty() },
            ]);
        },
    }
}

/// The recognizer counts as fresh from a swap while no session is open until the
/// next session is prepared. Nothing else makes it fresh, a result least of all.
pub proof fn law_fresh_is_new_and_unheard(s: StageView, input: InputView)
    requires
        accepts(s, input),
    ensures
        step(s, input).0.skip_next_reset == (if prepares(s, input) {
            false
        } else if swaps_in(s, input) && (s.phase->Building_boundary == Boundary::Idle
            || s.phase->Building_boundary == Boundary::AudioStop) {
            true
        } else {
            s.skip_next_reset
        }),
{
}

/// A recognizer was swapped in while idle or at a session's end, and no session was
/// prepared since; or it was fresh at the beginning and none was prepared.
pub open spec fn fresh(s: StageView, inputs: Seq<InputView>) -> bool
    decreases inputs.len(),
{
    if inputs.len() == 0 {
        s.skip_next_reset
    } else {
        let before = run(s, inputs.drop_last());
        if ask_preparation(step(before, inputs.last()).1) {
            false
        } else if inputs.last() == InputView::Built(true) && (before.phase matches
            PhaseView::Building { boundary, .. } && (boundary == Boundary::Idle || boundary
            == Boundary::AudioStop)) {
            true
        } else {
            fresh(s, inputs.drop_last())
        }
    }
}

/// Over any series of inputs, a session is prepared without a reset exactly where a
/// recognizer was swapped in while idle or at a session's end and no session was
/// prepared since, or where one was swapped in at this very start.
pub proof fn law_reset_unless_fresh(s: StageView, inputs: Seq<InputView>, input: InputView, i: int)
    requires
        runs(s, inputs),
        accepts(run(s, inputs), input),
        0 <= i < step(run(s, inputs), input).1.len(),
        step(run(s, inputs), input).1[i] is Prepare,
    ensures
        step(run(s, inputs), input).1[i] == (ActionView::Prepare {
            reset: !fresh(s, inputs) && input != InputView::Built(true),
        }),
{
    lemma_fresh(s, inputs);
    lemma_preparation(run(s, inputs), input, i);
}

proof fn lemma_preparation(s: StageView, input: InputView, i: int)
    requires
        accepts(s, input),
        0 <= i < step(s, input).1.len(),
        step(s, input).1[i] is Prepare,
    ensures
        step(s, input).1[i] == (ActionView::Prepare {
            reset: !s.skip_next_reset && input != InputView::Built(true),
        }),
{
    lemma_actions_show(s, input);
    assert(ask_preparation(step(s, input).1));
    match input {
        InputView::AudioStart(data) => {
            law_start_builds_or_prepares(s, data);
        },
        InputView::Built(built) => {
            let (list, boundary) = (s.phase->Building_words, s.phase->Building_boundary);
            let chunk_session = s.phase->Building_chunk_session;
            law_build_is_noted_and_work_goes_on(s, list, boundary, chunk_session, built);
            let actions = step(s, input).1;
            assert(i > 0 ==> actions[i] == actions.drop_first()[i - 1]);
        },
        _ => {},
    }
}

proof fn lemma_fresh(s: StageView, inputs: Seq<InputView>)
    requires
        runs(s, inputs),
    ensures
        run(s, inputs).skip_next_reset == fresh(s, inputs),
    decreases inputs.len(),
{
    if inputs.len() > 0 {
        let before = run(s, inputs.drop_last());
        lemma_fresh(s, inputs.drop_last());
        lemma_actions_show(before, inputs.last());
        law_fresh_is_new_and_unheard(before, inputs.last());
    }
}

/// Where nothing is swapped in, every session is prepared with a reset, whatever
/// the sessions before it brought.
pub proof fn law_sessions_without_swaps_are_reset(
    mode: LifecycleMode,
    inputs: Seq<InputView>,
    input: InputView,
    i: int,
)
    requires
        runs(opening(mode), inputs),
        accepts(run(opening(mode), inputs), input),
        forall|j: int| 0 <= j < inputs.len() ==> #[trigger] inputs[j] != InputView::Built(true),
        input != InputView::Built(true),
        0 <= i < step(run(opening(mode), inputs), input).1.len(),
        step(run(opening(mode), inputs), input).1[i] is Prepare,
    ensures
        step(run(opening(mode), inputs), input).1[i] == (ActionView::Prepare { reset: true }),
{
    law_reset_unless_fresh(opening(mode), inputs, input, i);
    lemma_never_fresh(mode, inputs);
}

proof fn lemma_never_fresh(mode: LifecycleMode, inputs: Seq<InputView>)
    requires
        forall|j: int| 0 <= j < inputs.len() ==> #[trigger] inputs[j] != InputView::Built(true),
    ensures
        !fresh(opening(mode), inputs),
    decreases inputs.len(),
{
    if inputs.len() > 0 {
        let front = inputs.drop_last();
        assert forall|j: int| 0 <= j < front.len() implies #[trigger] front[j] != InputView::Built(
            true,
        ) by {
            assert(front[j] == inputs[j]);
        }
        lemma_never_fresh(mode, front);
        assert(inputs[inputs.len() - 1] != InputView::Built(true));
    }
}

/// Chunks are counted one by one as they end, up to four; preparing a session
/// starts the count again. Nothing else touches it.
pub proof fn law_chunk_count_changes(s: StageView, input: InputView)
    requires
        accepts(s, input),
    ensures
        step(s, input).0.frames_since_credit == (if prepares(s, input) {
            0
        } else if s.phase !is Ready && step(s, input).0.phase is Ready && s.phase !is Stopping && !(
        s.phase matches PhaseView::Building { boundary, .. } && (boundary == Boundary::Idle
            || boundary == Boundary::AudioStop)) {
            if s.frames_since_credit < 3 {
                s.frames_since_credit + 1
            } else {
                0
            }
        } else {
            s.frames_since_credit as int
        }),
{
}

} // verus!
