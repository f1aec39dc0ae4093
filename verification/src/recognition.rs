//! From what the recognizer heard to the transcript that goes downstream.
//!
//! Confidences are single-precision numbers that nothing here computes with.
//! They are carried as their bit patterns.

use crate::text::{
    known, law_strip_keeps_known_words, law_stripped_is_the_known_words, law_trim_keeps_words,
    spaced, strip_unk, stripped, text_of, trim, trimmed, unk, words,
};
use vstd::prelude::*;
use vstd::string::*;

verus! {

/// How many alternatives a recognizer is asked for at most.
pub const MAX_ALTERNATIVES: u16 = 3;

/// A recognizer is asked for the single words of a result.
pub const WITH_WORDS: bool = true;

/// A recognizer is asked for the single words of a partial text.
pub const WITH_PARTIAL_WORDS: bool = true;

/// The bit pattern of the confidence one, for a result that comes without one.
pub const FULL_CONFIDENCE: u32 = 0x3f80_0000;

/// The bit pattern of the confidence zero, for no result at all.
pub const NO_CONFIDENCE: u32 = 0;

/// A possible transcript and the bit pattern of its confidence.
#[derive(Debug, PartialEq)]
pub struct TranscriptAlternative {
    /// What may have been said.
    pub text: String,
    /// The bit pattern of the confidence.
    pub confidence: u32,
}

/// What a `TranscriptAlternative` says.
pub struct AlternativeView {
    /// See [`TranscriptAlternative::text`].
    pub text: Seq<char>,
    /// See [`TranscriptAlternative::confidence`].
    pub confidence: u32,
}

impl View for TranscriptAlternative {
    type V = AlternativeView;

    open spec fn view(&self) -> AlternativeView {
        AlternativeView { text: self.text@, confidence: self.confidence }
    }
}

/// What each of several alternatives says.
pub open spec fn alternatives_of(list: Seq<TranscriptAlternative>) -> Seq<AlternativeView> {
    Seq::new(list.len(), |i: int| list[i]@)
}

/// A complete result of the recognizer.
#[derive(Debug)]
pub enum Recognition {
    /// Alternatives, the most likely first.
    Multiple(Vec<TranscriptAlternative>),
    /// One text without a confidence.
    Single(String),
}

/// What a `Recognition` says.
pub enum RecognitionView {
    /// See [`Recognition::Multiple`].
    Multiple(Seq<AlternativeView>),
    /// See [`Recognition::Single`].
    Single(Seq<char>),
}

impl View for Recognition {
    type V = RecognitionView;

    open spec fn view(&self) -> RecognitionView {
        match self {
            Recognition::Multiple(list) => RecognitionView::Multiple(alternatives_of(list@)),
            Recognition::Single(text) => RecognitionView::Single(text@),
        }
    }
}

/// A text without its markers and without surrounding white space.
pub open spec fn cleaned_text(text: Seq<char>) -> Seq<char> {
    stripped(trimmed(text))
}

/// The alternatives that still say something once they are cleaned.
pub open spec fn cleaned(list: Seq<AlternativeView>) -> Seq<AlternativeView>
    decreases list.len(),
{
    if list.len() == 0 {
        seq![]
    } else {
        let before = cleaned(list.drop_last());
        let text = cleaned_text(list.last().text);
        if text.len() == 0 {
            before
        } else {
            before.push(AlternativeView { text, confidence: list.last().confidence })
        }
    }
}

/// The best text of a result, its confidence, and the alternatives. A result
/// without any alternative has none of these.
pub open spec fn best_of(result: RecognitionView) -> Option<
    (Seq<char>, u32, Seq<AlternativeView>),
> {
    match result {
        RecognitionView::Multiple(list) => {
            let kept = cleaned(list);
            if kept.len() > 0 {
                Some((kept[0].text, kept[0].confidence, kept))
            } else if list.len() > 0 {
                Some((seq![], list[0].confidence, kept))
            } else {
                None
            }
        },
        RecognitionView::Single(text) => Some((cleaned_text(text), FULL_CONFIDENCE, seq![])),
    }
}

fn clean_alternatives(list: &Vec<TranscriptAlternative>) -> (kept: Vec<TranscriptAlternative>)
    ensures
        alternatives_of(kept@) == cleaned(alternatives_of(list@)),
{
    let ghost all = alternatives_of(list@);
    let mut kept: Vec<TranscriptAlternative> = Vec::new();
    assert(all.take(0) =~= seq![]);
    assert(alternatives_of(kept@) =~= cleaned(all.take(0)));
    for i in 0..list.len()
        invariant
            all == alternatives_of(list@),
            alternatives_of(kept@) == cleaned(all.take(i as int)),
    {
        let ghost before = alternatives_of(kept@);
        assert(all.take(i + 1).drop_last() =~= all.take(i as int));
        assert(all.take(i + 1).last() == list@[i as int]@);
        let text = strip_unk(trim(list[i].text.as_str()));
        if !text.as_str().is_empty() {
            let alternative = TranscriptAlternative { text, confidence: list[i].confidence };
            let ghost said = alternative@;
            kept.push(alternative);
            assert(alternatives_of(kept@) =~= before.push(said));
        }
    }
    assert(all.take(all.len() as int) =~= all);
    kept
}

/// Picks the best text of a result, its confidence, and the alternatives.
pub fn extract_best_result(result: &Recognition) -> (best: Option<
    (String, u32, Vec<TranscriptAlternative>),
>)
    ensures
        match best {
            Some((text, confidence, alternatives)) => best_of(result@) == Some(
                (text@, confidence, alternatives_of(alternatives@)),
            ),
            None => best_of(result@) is None,
        },
{
    match result {
        Recognition::Multiple(list) => {
            let kept = clean_alternatives(list);
            if kept.len() > 0 {
                assert(alternatives_of(kept@)[0] == kept@[0]@);
                Some((kept[0].text.clone(), kept[0].confidence, kept))
            } else if list.len() > 0 {
                assert(alternatives_of(list@)[0] == list@[0]@);
                Some((String::new(), list[0].confidence, kept))
            } else {
                None
            }
        },
        Recognition::Single(text) => {
            let none: Vec<TranscriptAlternative> = Vec::new();
            assert(alternatives_of(none@) =~= seq![]);
            Some((strip_unk(trim(text.as_str())), FULL_CONFIDENCE, none))
        },
    }
}

/// What goes downstream when the recognizer has a result.
#[derive(Debug, PartialEq)]
pub struct Transcript {
    /// The session that the text belongs to.
    pub session_id: String,
    /// The best text; empty where nothing was recognized.
    pub text: String,
    /// The session ends with this transcript.
    pub is_final: bool,
    /// The text may still change.
    pub partial: bool,
    /// The bit pattern of the confidence.
    pub confidence: Option<u32>,
    /// The alternatives, where there are any.
    pub alternatives: Option<Vec<TranscriptAlternative>>,
    /// The last partial text, as a hint where the text is empty.
    pub last_partial: Option<String>,
}

/// What a `Transcript` says.
pub struct TranscriptView {
    /// See [`Transcript::session_id`].
    pub session_id: Seq<char>,
    /// See [`Transcript::text`].
    pub text: Seq<char>,
    /// See [`Transcript::is_final`].
    pub is_final: bool,
    /// See [`Transcript::partial`].
    pub partial: bool,
    /// See [`Transcript::confidence`].
    pub confidence: Option<u32>,
    /// See [`Transcript::alternatives`].
    pub alternatives: Option<Seq<AlternativeView>>,
    /// See [`Transcript::last_partial`].
    pub last_partial: Option<Seq<char>>,
}

impl View for Transcript {
    type V = TranscriptView;

    open spec fn view(&self) -> TranscriptView {
        TranscriptView {
            session_id: self.session_id@,
            text: self.text@,
            is_final: self.is_final,
            partial: self.partial,
            confidence: self.confidence,
            alternatives: match self.alternatives {
                Some(list) => Some(alternatives_of(list@)),
                None => None,
            },
            last_partial: text_of(self.last_partial),
        }
    }
}

/// The transcript for a result. `hint` is the last partial text.
pub open spec fn transcript_for(
    result: RecognitionView,
    session_id: Seq<char>,
    is_final: bool,
    hint: Option<Seq<char>>,
) -> TranscriptView {
    let (text, confidence, alternatives) = match best_of(result) {
        Some(best) => best,
        None => (seq![], NO_CONFIDENCE, seq![]),
    };
    TranscriptView {
        session_id,
        text,
        is_final,
        partial: false,
        confidence: Some(confidence),
        alternatives: if alternatives.len() == 0 {
            None
        } else {
            Some(alternatives)
        },
        last_partial: if text.len() == 0 {
            hint
        } else {
            None
        },
    }
}

/// Writes the transcript for a result. The last partial text goes along only
/// where there is no text.
pub fn make_transcript(
    result: &Recognition,
    session_id: String,
    is_final: bool,
    hint: Option<String>,
) -> (transcript: Transcript)
    ensures
        transcript@ == transcript_for(result@, session_id@, is_final, text_of(hint)),
{
    let (text, confidence, list) = match extract_best_result(result) {
        Some(best) => best,
        None => {
            let none: Vec<TranscriptAlternative> = Vec::new();
            assert(alternatives_of(none@) =~= seq![]);
            (String::new(), NO_CONFIDENCE, none)
        },
    };
    let last_partial = if text.as_str().is_empty() {
        hint
    } else {
        None
    };
    let alternatives = if list.len() == 0 {
        None
    } else {
        Some(list)
    };
    Transcript {
        session_id,
        text,
        is_final,
        partial: false,
        confidence: Some(confidence),
        alternatives,
        last_partial,
    }
}

/// Every alternative that is kept says something, and none holds the marker.
pub proof fn law_kept_alternatives(list: Seq<AlternativeView>)
    ensures
        cleaned(list).len() <= list.len(),
        forall|i: int|
            0 <= i < cleaned(list).len() ==> (#[trigger] cleaned(list)[i]).text.len() > 0
                && !words(cleaned(list)[i].text).contains(unk()),
    decreases list.len(),
{
    if list.len() > 0 {
        law_kept_alternatives(list.drop_last());
        law_strip_keeps_known_words(trimmed(list.last().text));
    }
}

/// Cleaning a text keeps its words, but for the markers, all of them and in
/// order.
pub proof fn law_cleaning_keeps_known_words(text: Seq<char>)
    ensures
        words(cleaned_text(text)) == known(words(text)),
{
    law_strip_keeps_known_words(trimmed(text));
    law_trim_keeps_words(text);
}

/// A transcript brings either a text or a hint, and alternatives only along with
/// a text; where it has alternatives, the text and the confidence are those of
/// the first.
pub proof fn law_transcript_shape(
    result: RecognitionView,
    session_id: Seq<char>,
    is_final: bool,
    hint: Option<Seq<char>>,
)
    ensures
        ({
            let t = transcript_for(result, session_id, is_final, hint);
            &&& t.last_partial is Some ==> t.text.len() == 0
            &&& t.text.len() == 0 ==> t.last_partial == hint && t.alternatives is None
            &&& t.alternatives matches Some(list) ==> list.len() > 0 && t.text == list[0].text
                && t.confidence == Some(list[0].confidence)
            &&& t.confidence is Some
            &&& !t.partial
        }),
{
    match result {
        RecognitionView::Multiple(list) => {
            law_kept_alternatives(list);
        },
        RecognitionView::Single(text) => {},
    }
}

/// The alternative holds a word that is known.
pub open spec fn says_something(a: AlternativeView) -> bool {
    known(words(a.text)).len() > 0
}

/// What is left of an alternative: its known words, with its own confidence.
pub open spec fn known_part(a: AlternativeView) -> AlternativeView {
    AlternativeView { text: spaced(known(words(a.text))), confidence: a.confidence }
}

proof fn lemma_cleaned_text(text: Seq<char>)
    ensures
        cleaned_text(text) == spaced(known(words(text))),
        cleaned_text(text).len() == 0 <==> known(words(text)).len() == 0,
{
    law_trim_keeps_words(text);
    law_stripped_is_the_known_words(trimmed(text));
}

/// The alternatives that are kept are just those that say something: every one of
/// them once, in the same order, each with its known words and its own confidence.
/// The places that they come from are handed back.
pub proof fn law_alternatives_are_kept_in_order(list: Seq<AlternativeView>) -> (at: Seq<int>)
    ensures
        at.len() == cleaned(list).len(),
        forall|p: int| 0 <= p < at.len() ==> 0 <= #[trigger] at[p] < list.len(),
        forall|p: int, q: int| 0 <= p < q < at.len() ==> #[trigger] at[p] < #[trigger] at[q],
        forall|p: int|
            0 <= p < at.len() ==> says_something(list[#[trigger] at[p]]) && cleaned(list)[p]
                == known_part(list[at[p]]),
        forall|i: int|
            0 <= i < list.len() && says_something(#[trigger] list[i]) ==> at.contains(i),
    decreases list.len(),
{
    if list.len() == 0 {
        Seq::<int>::empty()
    } else {
        let front = list.drop_last();
        let last = list.len() - 1;
        let before = law_alternatives_are_kept_in_order(front);
        lemma_cleaned_text(list.last().text);
        assert(forall|i: int| 0 <= i < front.len() ==> #[trigger] front[i] == list[i]);
        if says_something(list.last()) {
            let at = before.push(last);
            assert forall|i: int| 0 <= i < list.len() && says_something(
                #[trigger] list[i],
            ) implies at.contains(i) by {
                if i < last {
                    assert(says_something(front[i]));
                    let p = choose|p: int| 0 <= p < before.len() && before[p] == i;
                    assert(at[p] == i);
                } else {
                    assert(at[before.len() as int] == i);
                }
            }
            at
        } else {
            assert forall|i: int| 0 <= i < list.len() && says_something(
                #[trigger] list[i],
            ) implies before.contains(i) by {
                assert(says_something(front[i]));
            }
            before
        }
    }
}

/// Cleaning goes alternative by alternative: what stands before or behind does not
/// matter.
pub proof fn law_alternatives_are_cleaned_one_by_one(
    first: Seq<AlternativeView>,
    second: Seq<AlternativeView>,
    one: AlternativeView,
)
    ensures
        cleaned(first + second) == cleaned(first) + cleaned(second),
        cleaned(seq![one]) == (if says_something(one) {
            seq![known_part(one)]
        } else {
            Seq::<AlternativeView>::empty()
        }),
    decreases second.len(),
{
    lemma_cleaned_text(one.text);
    assert(seq![one].drop_last() =~= Seq::<AlternativeView>::empty());
    assert(cleaned(seq![one].drop_last()) =~= Seq::<AlternativeView>::empty());
    assert(cleaned(seq![one]) =~= (if says_something(one) {
        seq![known_part(one)]
    } else {
        Seq::<AlternativeView>::empty()
    }));
    if second.len() == 0 {
        assert(first + second =~= first);
        assert(cleaned(first) + cleaned(second) =~= cleaned(first));
    } else {
        law_alternatives_are_cleaned_one_by_one(first, second.drop_last(), one);
        assert((first + second).drop_last() =~= first + second.drop_last());
        assert(cleaned(first + second) =~= cleaned(first) + cleaned(second));
    }
}

/// The best text is that of the first alternative that says something, with its
/// confidence; where none does there is no text, but still the confidence of the
/// first; and where there is no alternative at all there is nothing.
pub proof fn law_best_is_the_first_that_says_something(list: Seq<AlternativeView>, k: int)
    ensures
        0 <= k < list.len() && says_something(list[k]) && (forall|j: int|
            0 <= j < k ==> !says_something(#[trigger] list[j])) ==> (best_of(
            RecognitionView::Multiple(list),
        ) matches Some((text, confidence, alternatives)) && text == known_part(list[k]).text
            && confidence == list[k].confidence && alternatives == cleaned(list)),
        list.len() > 0 && (forall|j: int|
            0 <= j < list.len() ==> !says_something(#[trigger] list[j])) ==> best_of(
            RecognitionView::Multiple(list),
        ) == Some((Seq::<char>::empty(), list[0].confidence, Seq::<AlternativeView>::empty())),
        best_of(RecognitionView::Multiple(list)) is None <==> list.len() == 0,
{
    let at = law_alternatives_are_kept_in_order(list);
    if 0 <= k < list.len() && says_something(list[k]) && (forall|j: int|
        0 <= j < k ==> !says_something(#[trigger] list[j])) {
        let p = choose|p: int| 0 <= p < at.len() && at[p] == k;
        assert(at[0] <= at[p]);
        assert(says_something(list[at[0]]));
        assert(at[0] == k);
        assert(cleaned(list)[0] == known_part(list[k]));
    }
    if list.len() > 0 && (forall|j: int|
        0 <= j < list.len() ==> !says_something(#[trigger] list[j])) {
        if at.len() > 0 {
            assert(says_something(list[at[0]]));
        }
        assert(cleaned(list) =~= Seq::<AlternativeView>::empty());
    }
}

/// A result without confidences counts in full: its known words, and no
/// alternatives.
pub proof fn law_single_result_counts_in_full(text: Seq<char>)
    ensures
        best_of(RecognitionView::Single(text)) == Some(
            (spaced(known(words(text))), 0x3f80_0000u32, Seq::<AlternativeView>::empty()),
        ),
{
    lemma_cleaned_text(text);
}

/// A transcript carries the session, the mark and the best of the result; the hint
/// goes along where there is no text.
pub proof fn law_transcript_carries_the_best(
    result: RecognitionView,
    session_id: Seq<char>,
    is_final: bool,
    hint: Option<Seq<char>>,
)
    ensures
        ({
            let t = transcript_for(result, session_id, is_final, hint);
            &&& t.session_id == session_id
            &&& t.is_final == is_final
            &&& !t.partial
            &&& t.last_partial == (if t.text.len() == 0 {
                hint
            } else {
                None
            })
            &&& match best_of(result) {
                Some((text, confidence, alternatives)) => {
                    &&& t.text == text
                    &&& t.confidence == Some(confidence)
                    &&& t.alternatives == (if alternatives.len() > 0 {
                        Some(alternatives)
                    } else {
                        None
                    })
                },
                None => t.text.len() == 0 && t.confidence == Some(0u32) && t.alternatives is None,
            }
        }),
{
}

/// What results, alternatives and transcripts say is what they hold.
pub proof fn law_results_say_what_they_hold(
    list: Vec<TranscriptAlternative>,
    a: TranscriptAlternative,
    s: String,
    t: Transcript,
)
    ensures
        a@.text == a.text@ && a@.confidence == a.confidence,
        alternatives_of(list@).len() == list@.len(),
        forall|i: int| 0 <= i < list@.len() ==> #[trigger] alternatives_of(list@)[i] == list@[i]@,
        Recognition::Multiple(list)@ == RecognitionView::Multiple(alternatives_of(list@)),
        Recognition::Single(s)@ == RecognitionView::Single(s@),
        t@.session_id == t.session_id@,
        t@.text == t.text@,
        t@.is_final == t.is_final,
        t@.partial == t.partial,
        t@.confidence == t.confidence,
        t@.alternatives is Some <==> t.alternatives is Some,
        t.alternatives matches Some(l) ==> t@.alternatives == Some(alternatives_of(l@)),
        t@.last_partial is Some <==> t.last_partial is Some,
        t.last_partial matches Some(text) ==> t@.last_partial == Some(text@),
{
}

} // verus!
