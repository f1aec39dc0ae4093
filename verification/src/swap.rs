//! When a rebuilt recognizer may replace the live one.
//!
//! The policy follows two word lists: `applied`, behind the live dynamic
//! recognizer, and `pending`, which arrived while the decoder could hold part
//! of an utterance and waits for the next safe boundary. Lists reach the policy
//! in canonical form, so that equal sets are equal lists.

use crate::text::{same_list, texts, WordSeq};
use vstd::prelude::*;

verus! {

/// What to do with an incoming word list.
#[derive(Debug, PartialEq)]
pub enum UpdateAction {
    /// The list is live or queued already: no rebuild.
    TweakOnly,
    /// The decoder is idle: rebuild from this list and swap at once.
    SwapNow(Vec<String>),
    /// The decoder may hold part of an utterance: the list is parked for the
    /// next safe boundary.
    Deferred,
}

/// What an `UpdateAction` says.
pub enum UpdateView {
    /// See [`UpdateAction::TweakOnly`].
    TweakOnly,
    /// See [`UpdateAction::SwapNow`].
    SwapNow(WordSeq),
    /// See [`UpdateAction::Deferred`].
    Deferred,
}

impl View for UpdateAction {
    type V = UpdateView;

    open spec fn view(&self) -> UpdateView {
        match self {
            UpdateAction::TweakOnly => UpdateView::TweakOnly,
            UpdateAction::SwapNow(words) => UpdateView::SwapNow(texts(words@)),
            UpdateAction::Deferred => UpdateView::Deferred,
        }
    }
}

/// The policy's two lists.
pub struct SwapView {
    /// The list behind the live dynamic recognizer; `None` while the startup
    /// recognizer is live.
    pub applied: Option<WordSeq>,
    /// The list that waits for a boundary.
    pub pending: Option<WordSeq>,
}

/// Decides when a new word list takes effect.
#[derive(Debug)]
pub struct SwapPolicy {
    applied: Option<Vec<String>>,
    pending: Option<Vec<String>>,
}

/// The texts of a list that may be absent.
pub open spec fn list_texts(list: Option<Vec<String>>) -> Option<WordSeq> {
    match list {
        Some(words) => Some(texts(words@)),
        None => None,
    }
}

impl View for SwapPolicy {
    type V = SwapView;

    closed spec fn view(&self) -> SwapView {
        SwapView { applied: list_texts(self.applied), pending: list_texts(self.pending) }
    }
}

/// A policy that has seen nothing: the startup recognizer is live.
pub open spec fn fresh_policy() -> SwapView {
    SwapView { applied: None, pending: None }
}

/// The policy after `words` arrived, and the action that it asks for.
pub open spec fn updated(policy: SwapView, words: WordSeq, decoder_idle: bool) -> (
    SwapView,
    UpdateView,
) {
    if policy.applied == Some(words) {
        (SwapView { pending: None, ..policy }, UpdateView::TweakOnly)
    } else if policy.pending == Some(words) {
        (policy, UpdateView::TweakOnly)
    } else if decoder_idle {
        (policy, UpdateView::SwapNow(words))
    } else {
        (SwapView { pending: Some(words), ..policy }, UpdateView::Deferred)
    }
}

fn holds(list: &Option<Vec<String>>, words: &Vec<String>) -> (yes: bool)
    ensures
        yes == (list_texts(*list) == Some(texts(words@))),
{
    match list {
        Some(held) => same_list(held.as_slice(), words.as_slice()),
        None => false,
    }
}

impl Default for SwapPolicy {
    fn default() -> (policy: Self)
        ensures
            policy@ == fresh_policy(),
    {
        SwapPolicy { applied: None, pending: None }
    }
}

impl SwapPolicy {
    /// A policy that has seen nothing yet.
    pub fn new() -> (policy: Self)
        ensures
            policy@ == fresh_policy(),
    {
        SwapPolicy { applied: None, pending: None }
    }

    /// Decides what to do with an incoming canonical list. `decoder_idle` says
    /// that no utterance can be in flight.
    pub fn on_vocabulary_update(&mut self, words: Vec<String>, decoder_idle: bool) -> (action:
        UpdateAction)
        ensures
            (final(self)@, action@) == updated(old(self)@, texts(words@), decoder_idle),
    {
        if holds(&self.applied, &words) {
            self.pending = None;
            return UpdateAction::TweakOnly;
        }
        if holds(&self.pending, &words) {
            return UpdateAction::TweakOnly;
        }
        if decoder_idle {
            UpdateAction::SwapNow(words)
        } else {
            self.pending = Some(words);
            UpdateAction::Deferred
        }
    }

    /// Hands out the parked list, if there is one. Called at a safe boundary.
    pub fn take_pending(&mut self) -> (words: Option<Vec<String>>)
        ensures
            list_texts(words) == old(self)@.pending,
            final(self)@ == (SwapView { pending: None, ..old(self)@ }),
    {
        self.pending.take()
    }

    /// Parks a list again after a failed build, for a retry at the next boundary.
    pub fn restore_pending(&mut self, words: Vec<String>)
        ensures
            final(self)@ == (SwapView { pending: Some(texts(words@)), ..old(self)@ }),
    {
        self.pending = Some(words);
    }

    /// Records that a recognizer built from `words` is live.
    pub fn note_applied(&mut self, words: Vec<String>)
        ensures
            final(self)@ == (SwapView { applied: Some(texts(words@)), ..old(self)@ }),
    {
        self.applied = Some(words);
    }

    /// The list behind the live dynamic recognizer.
    pub fn applied(&self) -> (words: Option<&[String]>)
        ensures
            match words {
                Some(list) => self@.applied == Some(texts(list@)),
                None => self@.applied is None,
            },
    {
        match &self.applied {
            Some(list) => Some(list.as_slice()),
            None => None,
        }
    }

    /// Tells whether a list waits for a boundary.
    pub fn has_pending(&self) -> (yes: bool)
        ensures
            yes == self@.pending is Some,
    {
        self.pending.is_some()
    }

    /// Forgets both lists: the startup recognizer is live again.
    pub fn on_reset(&mut self)
        ensures
            final(self)@ == fresh_policy(),
    {
        self.applied = None;
        self.pending = None;
    }
}

/// The policy once its action has been carried out with a build that succeeds.
pub open spec fn carried_out(policy: SwapView, action: UpdateView) -> SwapView {
    match action {
        UpdateView::SwapNow(words) => SwapView { applied: Some(words), ..policy },
        _ => policy,
    }
}

/// The policy after a boundary at which the parked list, if any, is built and
/// swapped in.
pub open spec fn past_boundary(policy: SwapView) -> SwapView {
    match policy.pending {
        Some(words) => SwapView { applied: Some(words), pending: None },
        None => policy,
    }
}

/// While an utterance may be in flight, no update swaps or changes the live list.
pub proof fn law_busy_update_never_swaps(policy: SwapView, words: WordSeq)
    ensures
        updated(policy, words, false).1 !is SwapNow,
        updated(policy, words, false).0.applied == policy.applied,
{
}

/// The live list asks for no rebuild, and cancels a change that it undoes.
pub proof fn law_live_list_needs_no_rebuild(policy: SwapView, words: WordSeq, decoder_idle: bool)
    requires
        policy.applied == Some(words),
    ensures
        updated(policy, words, decoder_idle).1 is TweakOnly,
        past_boundary(updated(policy, words, decoder_idle).0).applied == policy.applied,
{
}

/// With no dynamic recognizer live and nothing parked, every list counts as new.
pub proof fn law_first_list_is_new(policy: SwapView, words: WordSeq, decoder_idle: bool)
    requires
        policy.applied is None,
        policy.pending is None,
    ensures
        updated(policy, words, decoder_idle).1 !is TweakOnly,
{
}

/// A list that was parked or swapped in is not new when it arrives again.
pub proof fn law_repeated_update_is_tweak_only(
    policy: SwapView,
    words: WordSeq,
    first_idle: bool,
    then_idle: bool,
)
    ensures
        ({
            let (parked, action) = updated(policy, words, first_idle);
            let after = carried_out(parked, action);
            updated(after, words, then_idle).1 is TweakOnly
        }),
{
}

/// The newest list is the one that is live after its action and the next
/// boundary. Left out is an idle update that overtakes a different parked list:
/// the parked list still follows at the boundary.
pub proof fn law_newest_list_ends_up_live(policy: SwapView, words: WordSeq, decoder_idle: bool)
    requires
        decoder_idle && policy.pending is Some ==> policy.pending == Some(words) || policy.applied
            == Some(words),
    ensures
        ({
            let (parked, action) = updated(policy, words, decoder_idle);
            past_boundary(carried_out(parked, action)).applied == Some(words)
        }),
{
}

/// Parking a list again after taking it leaves the policy as it was.
pub proof fn law_repark_undoes_take(policy: SwapView, words: WordSeq)
    requires
        policy.pending == Some(words),
    ensures
        (SwapView { pending: Some(words), ..SwapView { pending: None, ..policy } }) == policy,
{
}

/// What waits differs from what is live, so that a boundary never rebuilds the
/// recognizer that is already there.
pub open spec fn pending_is_news(policy: SwapView) -> bool {
    policy.pending is Some ==> policy.pending != policy.applied
}

/// Updates and their actions keep the parked list different from the live one.
pub proof fn law_pending_stays_news(policy: SwapView, words: WordSeq, decoder_idle: bool)
    requires
        pending_is_news(policy),
    ensures
        ({
            let (parked, action) = updated(policy, words, decoder_idle);
            pending_is_news(parked) && pending_is_news(carried_out(parked, action))
        }),
        pending_is_news(past_boundary(policy)),
{
}

/// What becomes of a list. It is no news where it is live or parked; a new one is
/// swapped in at once while the decoder is idle, and parked else. The live list
/// cancels the parked one, a parked list is replaced by the next that is parked,
/// and nothing changes what is live.
pub proof fn law_update_is_decided_by_what_is_known(
    policy: SwapView,
    words: WordSeq,
    decoder_idle: bool,
)
    ensures
        ({
            let (after, action) = updated(policy, words, decoder_idle);
            let news = policy.applied != Some(words) && policy.pending != Some(words);
            &&& after.applied == policy.applied
            &&& action is TweakOnly <==> !news
            &&& action is SwapNow <==> news && decoder_idle
            &&& action is Deferred <==> news && !decoder_idle
            &&& action matches UpdateView::SwapNow(list) ==> list == words
            &&& policy.applied == Some(words) ==> after.pending is None
            &&& policy.applied != Some(words) && decoder_idle ==> after.pending == policy.pending
            &&& policy.applied != Some(words) && !decoder_idle ==> after.pending == Some(words)
        }),
{
}

/// What an action says is what it holds.
pub proof fn law_update_actions_say_what_they_hold(words: Vec<String>)
    ensures
        UpdateAction::TweakOnly@ == UpdateView::TweakOnly,
        UpdateAction::SwapNow(words)@ == UpdateView::SwapNow(texts(words@)),
        UpdateAction::Deferred@ == UpdateView::Deferred,
        list_texts(Some(words)) == Some(texts(words@)),
        list_texts(None) is None,
{
}

/// A policy that has seen nothing holds no list.
pub proof fn law_fresh_policy_is_empty()
    ensures
        fresh_policy().applied is None,
        fresh_policy().pending is None,
{
}

} // verus!
