//! The program from its arguments to the end of its input.
//!
//! A signal is the outcome of a task, an input of the stage, or the end of the
//! input. Each signal leads to a next state and to tasks, which are carried out
//! in order.

use crate::args::{parse_args, parsed, LifecycleMode, StageArgsView};
use crate::conduct::{session_named, starts};
use crate::grammar::{
    json_string_list, law_startup_list_is_the_files, parsed_texts, startup_grammar, startup_words,
};
use crate::handshake::{
    first_credit, opening_events, own_capability, OpeningEvent, OpeningEventView,
};
use crate::json::Json;
use crate::laws::{
    acted, law_transcripts_are_those_of_the_results, results, run, runs, tells, transcripts,
};
use crate::machine::{
    accepts, actions_of, named_session, opening, step, Action, ActionView, Input, InputView,
    PhaseView, StageView,
};
use crate::stage::Stage;
use crate::text::{can_shorten, has_short_form, short_form, shorten, text_of, texts, WordSeq};
use vstd::prelude::*;
use vstd::string::*;

verus! {

/// How far the program has come.
#[derive(Debug)]
pub enum Program {
    /// The acoustic model is being loaded.
    LoadingModel {
        /// Where the startup grammar lies.
        grammar: Option<String>,
        /// How audio arrives.
        mode: LifecycleMode,
    },
    /// The file with the startup grammar is being read.
    ReadingGrammar {
        /// How audio arrives.
        mode: LifecycleMode,
    },
    /// The startup recognizer is being built.
    BuildingRecognizer {
        /// How audio arrives.
        mode: LifecycleMode,
    },
    /// The stage is up.
    Running(Stage),
    /// The program is over, well or with an error.
    Ended(Result<(), String>),
}

/// What a `Program` says.
pub enum ProgramView {
    /// See [`Program::LoadingModel`].
    LoadingModel {
        /// Where the startup grammar lies.
        grammar: Option<Seq<char>>,
        /// How audio arrives.
        mode: LifecycleMode,
    },
    /// See [`Program::ReadingGrammar`].
    ReadingGrammar {
        /// How audio arrives.
        mode: LifecycleMode,
    },
    /// See [`Program::BuildingRecognizer`].
    BuildingRecognizer {
        /// How audio arrives.
        mode: LifecycleMode,
    },
    /// See [`Program::Running`].
    Running(StageView),
    /// See [`Program::Ended`].
    Ended(Result<(), Seq<char>>),
}

impl View for Program {
    type V = ProgramView;

    open spec fn view(&self) -> ProgramView {
        match self {
            Program::LoadingModel { grammar, mode } => ProgramView::LoadingModel {
                grammar: text_of(*grammar),
                mode: *mode,
            },
            Program::ReadingGrammar { mode } => ProgramView::ReadingGrammar { mode: *mode },
            Program::BuildingRecognizer { mode } => ProgramView::BuildingRecognizer {
                mode: *mode,
            },
            Program::Running(stage) => ProgramView::Running(stage@),
            Program::Ended(Ok(())) => ProgramView::Ended(Ok(())),
            Program::Ended(Err(message)) => ProgramView::Ended(Err(message@)),
        }
    }
}

/// Something that the program learns.
#[derive(Debug)]
pub enum Signal {
    /// The model is there.
    ModelLoaded,
    /// The model could not be loaded.
    ModelFailed {
        /// Where it was looked for, as shown to people.
        path: String,
    },
    /// The content of the grammar file.
    GrammarRead(String),
    /// The grammar file could not be read.
    GrammarFailed {
        /// Where it was looked for, as shown to people.
        path: String,
        /// What went wrong.
        error: String,
    },
    /// Whether the startup recognizer was built.
    RecognizerBuilt(bool),
    /// An input of the stage.
    Stage(Input),
    /// No event comes any more.
    EndOfInput,
}

/// What a `Signal` says.
pub enum SignalView {
    /// See [`Signal::ModelLoaded`].
    ModelLoaded,
    /// See [`Signal::ModelFailed`].
    ModelFailed {
        /// Where it was looked for, as shown to people.
        path: Seq<char>,
    },
    /// See [`Signal::GrammarRead`].
    GrammarRead(Seq<char>),
    /// See [`Signal::GrammarFailed`].
    GrammarFailed {
        /// Where it was looked for, as shown to people.
        path: Seq<char>,
        /// What went wrong.
        error: Seq<char>,
    },
    /// See [`Signal::RecognizerBuilt`].
    RecognizerBuilt(bool),
    /// See [`Signal::Stage`].
    Stage(InputView),
    /// See [`Signal::EndOfInput`].
    EndOfInput,
}

impl View for Signal {
    type V = SignalView;

    open spec fn view(&self) -> SignalView {
        match self {
            Signal::ModelLoaded => SignalView::ModelLoaded,
            Signal::ModelFailed { path } => SignalView::ModelFailed { path: path@ },
            Signal::GrammarRead(content) => SignalView::GrammarRead(content@),
            Signal::GrammarFailed { path, error } => SignalView::GrammarFailed {
                path: path@,
                error: error@,
            },
            Signal::RecognizerBuilt(ok) => SignalView::RecognizerBuilt(*ok),
            Signal::Stage(input) => SignalView::Stage(input@),
            Signal::EndOfInput => SignalView::EndOfInput,
        }
    }
}

/// Something for the program to do.
#[derive(Debug)]
pub enum Task {
    /// Load the acoustic model. Asks for `ModelLoaded` or `ModelFailed`.
    LoadModel {
        /// Where it lies.
        path: String,
    },
    /// Read the grammar file. Asks for `GrammarRead` or `GrammarFailed`.
    ReadGrammar {
        /// Where it lies.
        path: String,
    },
    /// Build the startup recognizer. Asks for `RecognizerBuilt`.
    BuildRecognizer {
        /// The grammar.
        words: Vec<String>,
    },
    /// Write an opening event.
    Open(OpeningEvent),
    /// Note that a session starts.
    NoteSession {
        /// The short form of its id.
        short_id: String,
    },
    /// Do what the stage asks for.
    Act(Action),
}

/// What a `Task` says.
pub enum TaskView {
    /// See [`Task::LoadModel`].
    LoadModel {
        /// Where it lies.
        path: Seq<char>,
    },
    /// See [`Task::ReadGrammar`].
    ReadGrammar {
        /// Where it lies.
        path: Seq<char>,
    },
    /// See [`Task::BuildRecognizer`].
    BuildRecognizer {
        /// The grammar.
        words: WordSeq,
    },
    /// See [`Task::Open`].
    Open(OpeningEventView),
    /// See [`Task::NoteSession`].
    NoteSession {
        /// The short form of its id.
        short_id: Seq<char>,
    },
    /// See [`Task::Act`].
    Act(ActionView),
}

impl View for Task {
    type V = TaskView;

    open spec fn view(&self) -> TaskView {
        match self {
            Task::LoadModel { path } => TaskView::LoadModel { path: path@ },
            Task::ReadGrammar { path } => TaskView::ReadGrammar { path: path@ },
            Task::BuildRecognizer { words } => TaskView::BuildRecognizer { words: texts(words@) },
            Task::Open(event) => TaskView::Open(event@),
            Task::NoteSession { short_id } => TaskView::NoteSession { short_id: short_id@ },
            Task::Act(action) => TaskView::Act(action@),
        }
    }
}

/// What each of several tasks says.
pub open spec fn tasks_of(list: Seq<Task>) -> Seq<TaskView> {
    Seq::new(list.len(), |i: int| list[i]@)
}

/// A next state of the program and the tasks that lead to it.
pub type Progress = (ProgramView, Seq<TaskView>);

/// The program ends with an error, and there is nothing more to do.
pub open spec fn failed(message: Seq<char>) -> Progress {
    (ProgramView::Ended(Err(message)), seq![])
}

/// The program at startup: its arguments are read, and the model comes first.
pub open spec fn started(args: WordSeq) -> Progress {
    match parsed(args) {
        Err(message) => failed(message),
        Ok(StageArgsView { model, grammar, lifecycle_mode }) => (
            ProgramView::LoadingModel { grammar, mode: lifecycle_mode },
            seq![TaskView::LoadModel { path: model }],
        ),
    }
}

/// The startup word list is there, or the message that says why not.
pub open spec fn grammar_known(mode: LifecycleMode, list: Result<WordSeq, Seq<char>>) -> Progress {
    match list {
        Err(message) => failed(message),
        Ok(words) => (
            ProgramView::BuildingRecognizer { mode },
            seq![TaskView::BuildRecognizer { words }],
        ),
    }
}

/// The opening events as tasks, in order.
pub open spec fn opening_tasks(mode: LifecycleMode) -> Seq<TaskView> {
    seq![
        TaskView::Open(OpeningEventView::Capability(own_capability())),
        TaskView::Open(first_credit(mode)),
    ]
}

/// The session whose start is noted in the log: the one that a start event names
/// where audio comes in sessions.
pub open spec fn noted_session(s: StageView, input: InputView) -> Option<Seq<char>> {
    match (s.phase, input) {
        (PhaseView::Ready, InputView::AudioStart(data)) => if s.mode == LifecycleMode::Session {
            named_session(data)
        } else {
            None
        },
        _ => None,
    }
}

/// The note on the start of a session, if one is due.
pub open spec fn notes(s: StageView, input: InputView) -> Seq<TaskView> {
    match noted_session(s, input) {
        Some(id) => seq![TaskView::NoteSession { short_id: short_form(id) }],
        None => seq![],
    }
}

/// Actions of the stage as tasks.
pub open spec fn acts(actions: Seq<ActionView>) -> Seq<TaskView> {
    Seq::new(actions.len(), |i: int| TaskView::Act(actions[i]))
}

/// The signal is one that the program waits for, and the id of a session that
/// starts can be cut for the log.
pub open spec fn welcomes(p: ProgramView, signal: SignalView) -> bool {
    match p {
        ProgramView::LoadingModel { .. } => signal is ModelLoaded || signal is ModelFailed,
        ProgramView::ReadingGrammar { .. } => signal is GrammarRead || signal is GrammarFailed,
        ProgramView::BuildingRecognizer { .. } => signal is RecognizerBuilt,
        ProgramView::Running(s) => match signal {
            SignalView::Stage(input) => accepts(s, input) && (noted_session(s, input) matches Some(
                id,
            ) ==> has_short_form(id)),
            SignalView::EndOfInput => s.phase is Ready,
            _ => false,
        },
        ProgramView::Ended(_) => false,
    }
}

/// What a signal leads to.
pub open spec fn progressed(p: ProgramView, signal: SignalView) -> Progress {
    match (p, signal) {
        (ProgramView::LoadingModel { grammar, mode }, SignalView::ModelLoaded) => match grammar {
            Some(path) => (
                ProgramView::ReadingGrammar { mode },
                seq![TaskView::ReadGrammar { path }],
            ),
            None => grammar_known(mode, startup_words(None)),
        },
        (ProgramView::LoadingModel { .. }, SignalView::ModelFailed { path }) => failed(
            "failed to load model from "@ + path,
        ),
        (ProgramView::ReadingGrammar { mode }, SignalView::GrammarRead(content)) => grammar_known(
            mode,
            startup_words(Some(json_string_list(content))),
        ),
        (ProgramView::ReadingGrammar { .. }, SignalView::GrammarFailed { path, error }) => failed(
            "failed to read grammar file "@ + path + ": "@ + error,
        ),
        (ProgramView::BuildingRecognizer { mode }, SignalView::RecognizerBuilt(ok)) => if ok {
            (ProgramView::Running(opening(mode)), opening_tasks(mode))
        } else {
            failed("failed to create recognizer with grammar"@)
        },
        (ProgramView::Running(s), SignalView::Stage(input)) => (
            ProgramView::Running(step(s, input).0),
            notes(s, input) + acts(step(s, input).1),
        ),
        (ProgramView::Running(_), SignalView::EndOfInput) => (
            ProgramView::Ended(Ok(())),
            seq![],
        ),
        _ => (p, seq![]),
    }
}

fn only(task: Task) -> (tasks: Vec<Task>)
    ensures
        tasks_of(tasks@) == seq![task@],
{
    let mut tasks: Vec<Task> = Vec::new();
    tasks.push(task);
    assert(tasks_of(tasks@) =~= seq![task@]);
    tasks
}

fn nothing() -> (tasks: Vec<Task>)
    ensures
        tasks_of(tasks@) == Seq::<TaskView>::empty(),
{
    let tasks: Vec<Task> = Vec::new();
    assert(tasks_of(tasks@) =~= seq![]);
    tasks
}

/// Builds the startup recognizer next, or gives up.
fn with_grammar(mode: LifecycleMode, list: Result<Vec<String>, String>) -> (progress: (
    Program,
    Vec<Task>,
))
    ensures
        (progress.0@, tasks_of(progress.1@)) == grammar_known(mode, parsed_texts(list)),
{
    match list {
        Ok(words) => (Program::BuildingRecognizer { mode }, only(Task::BuildRecognizer { words })),
        Err(message) => (Program::Ended(Err(message)), nothing()),
    }
}

/// The session whose start is noted, by its id.
fn session_to_note<'a>(stage: &Stage, input: &'a Input) -> (id: Option<&'a str>)
    ensures
        match id {
            Some(text) => noted_session(stage@, input@) == Some(text@),
            None => noted_session(stage@, input@) is None,
        },
{
    match input {
        Input::AudioStart(data) => {
            if !stage.is_ready() || stage.mode() != LifecycleMode::Session {
                return None;
            }
            match data.get("session_id") {
                Some(value) => value.as_str(),
                None => None,
            }
        },
        _ => None,
    }
}

/// Hands an input to the stage.
fn run_stage(stage: &mut Stage, input: Input) -> (tasks: Vec<Task>)
    requires
        welcomes(ProgramView::Running(old(stage)@), SignalView::Stage(input@)),
    ensures
        final(stage)@ == step(old(stage)@, input@).0,
        tasks_of(tasks@) == notes(old(stage)@, input@) + acts(step(old(stage)@, input@).1),
{
    let mut tasks = nothing();
    match session_to_note(stage, &input) {
        Some(id) => {
            tasks = only(Task::NoteSession { short_id: shorten(id).to_string() });
        },
        None => {},
    }
    let ghost noted = tasks_of(tasks@);
    let actions = stage.handle(input);
    let ghost all = actions_of(actions@);
    for action in it: actions
        invariant
            all == actions_of(it.seq()),
            tasks_of(tasks@) == noted + acts(all.take(it.index() as int)),
    {
        let ghost before = tasks_of(tasks@);
        let ghost said = action@;
        tasks.push(Task::Act(action));
        assert(tasks_of(tasks@) =~= before.push(TaskView::Act(said)));
        assert(tasks_of(tasks@) =~= noted + acts(all.take(it.index() + 1)));
    }
    assert(all.take(all.len() as int) =~= all);
    tasks
}

impl Program {
    /// Reads the arguments and says what to do first.
    pub fn start(args: &[String]) -> (progress: (Self, Vec<Task>))
        ensures
            (progress.0@, tasks_of(progress.1@)) == started(texts(args@)),
    {
        match parse_args(args) {
            Ok(found) => (
                Program::LoadingModel { grammar: found.grammar, mode: found.lifecycle_mode },
                only(Task::LoadModel { path: found.model }),
            ),
            Err(message) => (Program::Ended(Err(message)), nothing()),
        }
    }

    /// Tells whether the program waits for such a signal and the id of a session
    /// that starts can be cut for the log.
    pub fn is_welcome(&self, signal: &Signal) -> (yes: bool)
        ensures
            yes == welcomes(self@, signal@),
    {
        match (self, signal) {
            (Program::LoadingModel { .. }, Signal::ModelLoaded) => true,
            (Program::LoadingModel { .. }, Signal::ModelFailed { .. }) => true,
            (Program::ReadingGrammar { .. }, Signal::GrammarRead(_)) => true,
            (Program::ReadingGrammar { .. }, Signal::GrammarFailed { .. }) => true,
            (Program::BuildingRecognizer { .. }, Signal::RecognizerBuilt(_)) => true,
            (Program::Running(stage), Signal::Stage(input)) => stage.is_accepted(input)
                && match session_to_note(stage, input) {
                Some(id) => can_shorten(id),
                None => true,
            },
            (Program::Running(stage), Signal::EndOfInput) => stage.is_ready(),
            _ => false,
        }
    }

    /// Takes a signal and says what to do, in order.
    pub fn handle(&mut self, signal: Signal) -> (tasks: Vec<Task>)
        requires
            welcomes(old(self)@, signal@),
        ensures
            (final(self)@, tasks_of(tasks@)) == progressed(old(self)@, signal@),
    {
        let mut before = Program::Ended(Ok(()));
        core::mem::swap(&mut before, self);
        let (next, tasks) = match (before, signal) {
            (Program::LoadingModel { grammar, mode }, Signal::ModelLoaded) => match grammar {
                Some(path) => (Program::ReadingGrammar { mode }, only(Task::ReadGrammar { path })),
                None => with_grammar(mode, startup_grammar(None)),
            },
            (Program::LoadingModel { .. }, Signal::ModelFailed { path }) => {
                let mut message = "failed to load model from ".to_string();
                message.append(path.as_str());
                (Program::Ended(Err(message)), nothing())
            },
            (Program::ReadingGrammar { mode }, Signal::GrammarRead(content)) => with_grammar(
                mode,
                startup_grammar(Some(content.as_str())),
            ),
            (Program::ReadingGrammar { .. }, Signal::GrammarFailed { path, error }) => {
                let mut message = "failed to read grammar file ".to_string();
                message.append(path.as_str());
                message.append(": ");
                message.append(error.as_str());
                (Program::Ended(Err(message)), nothing())
            },
            (Program::BuildingRecognizer { mode }, Signal::RecognizerBuilt(ok)) => if ok {
                let (capability, credit) = opening_events(mode);
                let mut tasks: Vec<Task> = Vec::new();
                tasks.push(Task::Open(capability));
                tasks.push(Task::Open(credit));
                assert(tasks_of(tasks@) =~= opening_tasks(mode));
                (Program::Running(Stage::new(mode)), tasks)
            } else {
                let message = "failed to create recognizer with grammar".to_string();
                (Program::Ended(Err(message)), nothing())
            },
            (Program::Running(mut stage), Signal::Stage(input)) => {
                let tasks = run_stage(&mut stage, input);
                (Program::Running(stage), tasks)
            },
            (Program::Running(_), Signal::EndOfInput) => (Program::Ended(Ok(())), nothing()),
            (before, _) => (before, nothing()),
        };
        *self = next;
        tasks
    }
}

/// The program after a series of signals.
pub open spec fn program_after(args: WordSeq, signals: Seq<SignalView>) -> ProgramView
    decreases signals.len(),
{
    if signals.len() == 0 {
        started(args).0
    } else {
        progressed(program_after(args, signals.drop_last()), signals.last()).0
    }
}

/// The tasks that a series of signals leads to, in order.
pub open spec fn tasks_after(args: WordSeq, signals: Seq<SignalView>) -> Seq<TaskView>
    decreases signals.len(),
{
    if signals.len() == 0 {
        started(args).1
    } else {
        let before = signals.drop_last();
        tasks_after(args, before) + progressed(program_after(args, before), signals.last()).1
    }
}

/// Each of a series of signals is one that the program waits for when it comes.
pub open spec fn can_follow(args: WordSeq, signals: Seq<SignalView>) -> bool
    decreases signals.len(),
{
    signals.len() == 0 || (can_follow(args, signals.drop_last()) && welcomes(
        program_after(args, signals.drop_last()),
        signals.last(),
    ))
}

/// The task writes an event.
pub open spec fn writes(task: TaskView) -> bool {
    match task {
        TaskView::Open(_) | TaskView::Act(ActionView::Send(_)) | TaskView::Act(
            ActionView::Grant { .. },
        ) => true,
        _ => false,
    }
}

/// The tasks that write an event.
pub open spec fn written(tasks: Seq<TaskView>) -> Seq<TaskView> {
    tasks.filter(|task: TaskView| writes(task))
}

/// The inputs of the stage among a series of signals.
pub open spec fn inputs_in(signals: Seq<SignalView>) -> Seq<InputView>
    decreases signals.len(),
{
    if signals.len() == 0 {
        seq![]
    } else {
        let before = inputs_in(signals.drop_last());
        match signals.last() {
            SignalView::Stage(input) => before.push(input),
            _ => before,
        }
    }
}

/// The actions of the stage among a list of tasks.
pub open spec fn actions_in(tasks: Seq<TaskView>) -> Seq<ActionView>
    decreases tasks.len(),
{
    if tasks.len() == 0 {
        seq![]
    } else {
        let before = actions_in(tasks.drop_last());
        match tasks.last() {
            TaskView::Act(action) => before.push(action),
            _ => before,
        }
    }
}

/// The mode that the arguments ask for, where they can be read.
pub open spec fn mode_asked(args: WordSeq) -> LifecycleMode {
    match parsed(args) {
        Ok(found) => found.lifecycle_mode,
        Err(_) => LifecycleMode::Session,
    }
}

proof fn lemma_actions_in_pieces(a: Seq<TaskView>, b: Seq<TaskView>)
    ensures
        actions_in(a + b) == actions_in(a) + actions_in(b),
    decreases b.len(),
{
    if b.len() == 0 {
        assert(a + b =~= a);
    } else {
        lemma_actions_in_pieces(a, b.drop_last());
        assert((a + b).drop_last() =~= a + b.drop_last());
    }
}

proof fn lemma_no_actions(tasks: Seq<TaskView>)
    requires
        forall|i: int| 0 <= i < tasks.len() ==> !(#[trigger] tasks[i] is Act),
    ensures
        actions_in(tasks) == Seq::<ActionView>::empty(),
    decreases tasks.len(),
{
    if tasks.len() > 0 {
        lemma_no_actions(tasks.drop_last());
    }
}

proof fn lemma_actions_in_acts(actions: Seq<ActionView>)
    ensures
        actions_in(acts(actions)) == actions,
    decreases actions.len(),
{
    if actions.len() > 0 {
        lemma_actions_in_acts(actions.drop_last());
        assert(acts(actions).drop_last() =~= acts(actions.drop_last()));
        assert(actions.drop_last().push(actions.last()) =~= actions);
    }
}

proof fn lemma_actions_of_progress(p: ProgramView, signal: SignalView)
    ensures
        actions_in(progressed(p, signal).1) == (match (p, signal) {
            (ProgramView::Running(s), SignalView::Stage(input)) => step(s, input).1,
            _ => seq![],
        }),
{
    let tasks = progressed(p, signal).1;
    match (p, signal) {
        (ProgramView::Running(s), SignalView::Stage(input)) => {
            let actions = step(s, input).1;
            lemma_no_actions(notes(s, input));
            lemma_actions_in_acts(actions);
            lemma_actions_in_pieces(notes(s, input), acts(actions));
            assert(Seq::<ActionView>::empty() + actions =~= actions);
        },
        _ => {
            lemma_no_actions(tasks);
        },
    }
}

/// Before the stage is up it is handed nothing; from then on it is at every moment
/// where the inputs that it was handed lead it from its opening, in the mode that
/// the arguments ask for, and what it asks for is done, all of it and in order.
pub proof fn law_program_runs_the_stage(args: WordSeq, signals: Seq<SignalView>)
    requires
        can_follow(args, signals),
    ensures
        runs(opening(mode_asked(args)), inputs_in(signals)),
        actions_in(tasks_after(args, signals)) == acted(
            opening(mode_asked(args)),
            inputs_in(signals),
        ),
        match program_after(args, signals) {
            ProgramView::LoadingModel { mode, .. } | ProgramView::ReadingGrammar { mode }
            | ProgramView::BuildingRecognizer { mode } => mode == mode_asked(args) && inputs_in(
                signals,
            ).len() == 0,
            ProgramView::Running(s) => s == run(opening(mode_asked(args)), inputs_in(signals)),
            ProgramView::Ended(Err(_)) => inputs_in(signals).len() == 0,
            ProgramView::Ended(Ok(_)) => true,
        },
    decreases signals.len(),
{
    let mode = mode_asked(args);
    if signals.len() == 0 {
        lemma_no_actions(started(args).1);
    } else {
        let before = signals.drop_last();
        let p = program_after(args, before);
        law_program_runs_the_stage(args, before);
        lemma_actions_in_pieces(tasks_after(args, before), progressed(p, signals.last()).1);
        lemma_actions_of_progress(p, signals.last());
        match signals.last() {
            SignalView::Stage(input) => {
                assert(inputs_in(signals).drop_last() =~= inputs_in(before));
            },
            _ => {
                let done = acted(opening(mode), inputs_in(before));
                assert(done + Seq::<ActionView>::empty() =~= done);
            },
        }
    }
}

/// From the arguments to the end of the input, the transcripts that are written
/// are those of the results: one for each, in the same order, with its text and
/// confidence.
pub proof fn law_program_writes_every_result(args: WordSeq, signals: Seq<SignalView>)
    requires
        can_follow(args, signals),
    ensures
        ({
            let sent = transcripts(actions_in(tasks_after(args, signals)));
            let heard = results(inputs_in(signals));
            &&& sent.len() == heard.len()
            &&& forall|i: int| 0 <= i < heard.len() ==> tells(#[trigger] sent[i], heard[i])
        }),
{
    law_program_runs_the_stage(args, signals);
    law_transcripts_are_those_of_the_results(opening(mode_asked(args)), inputs_in(signals));
}

proof fn lemma_written_in_pieces(a: Seq<TaskView>, b: Seq<TaskView>)
    ensures
        written(a + b) == written(a) + written(b),
{
    Seq::filter_distributes_over_add(a, b, |task: TaskView| writes(task));
}

proof fn lemma_nothing_written(tasks: Seq<TaskView>)
    requires
        forall|i: int| 0 <= i < tasks.len() ==> !writes(#[trigger] tasks[i]),
    ensures
        written(tasks) == Seq::<TaskView>::empty(),
    decreases tasks.len(),
{
    reveal_with_fuel(Seq::filter, 1);
    if tasks.len() > 0 {
        lemma_nothing_written(tasks.drop_last());
    }
}

proof fn lemma_all_written(tasks: Seq<TaskView>)
    requires
        forall|i: int| 0 <= i < tasks.len() ==> writes(#[trigger] tasks[i]),
    ensures
        written(tasks) == tasks,
    decreases tasks.len(),
{
    reveal_with_fuel(Seq::filter, 1);
    if tasks.len() > 0 {
        lemma_all_written(tasks.drop_last());
        assert(tasks.drop_last().push(tasks.last()) =~= tasks);
    }
}

/// The first events that are written are what the stage can do and the first
/// credit, in this order and as soon as the stage is up. A program that fails
/// before, for its arguments, its model, its grammar or its recognizer, has
/// written no event.
pub proof fn law_nothing_is_written_before_the_opening(args: WordSeq, signals: Seq<SignalView>)
    requires
        can_follow(args, signals),
    ensures
        match program_after(args, signals) {
            ProgramView::Running(_) | ProgramView::Ended(Ok(_)) => {
                let events = written(tasks_after(args, signals));
                events.len() >= 2 && events.take(2) == opening_tasks(mode_asked(args))
            },
            _ => written(tasks_after(args, signals)) == Seq::<TaskView>::empty(),
        },
    decreases signals.len(),
{
    if signals.len() == 0 {
        lemma_nothing_written(started(args).1);
    } else {
        let before = signals.drop_last();
        let p = program_after(args, before);
        let tasks = progressed(p, signals.last()).1;
        law_nothing_is_written_before_the_opening(args, before);
        law_program_runs_the_stage(args, before);
        lemma_written_in_pieces(tasks_after(args, before), tasks);
        lemma_startup_writes(p, signals.last());
        let events = written(tasks_after(args, before));
        let opened = opening_tasks(mode_asked(args));
        match p {
            ProgramView::Running(_) => {
                assert((events + written(tasks)).take(2) =~= events.take(2));
            },
            _ => {
                assert(events == Seq::<TaskView>::empty());
                assert(events + opened =~= opened);
                assert(opened.take(2) =~= opened);
                assert(events + events =~= events);
            },
        }
    }
}

proof fn lemma_startup_writes(p: ProgramView, signal: SignalView)
    requires
        welcomes(p, signal),
    ensures
        ({
            let (next, tasks) = progressed(p, signal);
            match p {
                ProgramView::Running(_) => next is Running || next == ProgramView::Ended(Ok(())),
                ProgramView::BuildingRecognizer { mode } => if next is Running {
                    written(tasks) == opening_tasks(mode)
                } else {
                    next matches ProgramView::Ended(Err(_)) && written(tasks) == Seq::<
                        TaskView,
                    >::empty()
                },
                _ => {
                    &&& next !is Running
                    &&& next matches ProgramView::Ended(outcome) ==> outcome is Err
                    &&& written(tasks) == Seq::<TaskView>::empty()
                },
            }
        }),
{
    let (next, tasks) = progressed(p, signal);
    match p {
        ProgramView::Running(_) => {},
        ProgramView::BuildingRecognizer { mode } => {
            if next is Running {
                lemma_all_written(tasks);
            } else {
                lemma_nothing_written(tasks);
            }
        },
        _ => {
            lemma_nothing_written(tasks);
        },
    }
}

/// Where the input ends, the program ends well and writes nothing more. Once it is
/// over, nothing can happen any more.
pub proof fn law_end_of_input_ends_the_program(
    s: StageView,
    outcome: Result<(), Seq<char>>,
    signal: SignalView,
)
    ensures
        progressed(ProgramView::Running(s), SignalView::EndOfInput) == (
            ProgramView::Ended(Ok(())),
            Seq::<TaskView>::empty(),
        ),
        !welcomes(ProgramView::Ended(outcome), signal),
{
}

/// The state and the written events once a start event is dealt with. Where a
/// parked list is built first, `built` is the outcome.
pub open spec fn session_started(s: StageView, data: Json, built: bool) -> (
    ProgramView,
    Seq<TaskView>,
) {
    let (p, tasks) = progressed(
        ProgramView::Running(s),
        SignalView::Stage(InputView::AudioStart(data)),
    );
    if s.mode == LifecycleMode::Session && s.policy.pending is Some {
        let (q, rest) = progressed(p, SignalView::Stage(InputView::Built(built)));
        (q, written(tasks + rest))
    } else {
        (p, written(tasks))
    }
}

/// With sessions, a start event opens the session that it names, or leaves open
/// the one that was, and writes one event: credit of sixteen frames for any
/// session. Without sessions it changes and writes nothing.
pub proof fn law_session_start_writes_one_credit(s: StageView, data: Json, built: bool)
    requires
        welcomes(ProgramView::Running(s), SignalView::Stage(InputView::AudioStart(data))),
    ensures
        ({
            let (p, events) = session_started(s, data, built);
            if s.mode == LifecycleMode::Session {
                &&& p matches ProgramView::Running(next) && next.phase is Ready && next.session
                    == (if named_session(data) is Some {
                    named_session(data)
                } else {
                    s.session
                })
                &&& events == seq![
                    TaskView::Act(
                        ActionView::Grant { frames: 16, session_id: Seq::<char>::empty() },
                    ),
                ]
            } else {
                p == ProgramView::Running(s) && events == Seq::<TaskView>::empty()
            }
        }),
{
    let start = InputView::AudioStart(data);
    let (p, tasks) = progressed(ProgramView::Running(s), SignalView::Stage(start));
    let noted = notes(s, start);
    let actions = step(s, start).1;
    lemma_nothing_written(noted);
    lemma_written_in_pieces(noted, acts(actions));
    if s.mode != LifecycleMode::Session {
        lemma_nothing_written(tasks);
    } else if s.policy.pending is Some {
        let reply = InputView::Built(built);
        let next = step(s, start).0;
        let more = step(next, reply).1;
        let rest = progressed(p, SignalView::Stage(reply)).1;
        lemma_nothing_written(tasks);
        assert(rest =~= acts(more));
        lemma_written_in_pieces(tasks, rest);
        let credit = acts(more).drop_first().drop_first();
        let quiet = acts(more).take(2);
        assert(acts(more) =~= quiet + credit);
        lemma_nothing_written(quiet);
        lemma_all_written(credit);
        lemma_written_in_pieces(quiet, credit);
    } else {
        let credit = acts(actions).drop_first();
        let quiet = acts(actions).take(1);
        assert(acts(actions) =~= quiet + credit);
        lemma_nothing_written(quiet);
        lemma_all_written(credit);
        lemma_written_in_pieces(quiet, credit);
    }
}

/// The program waits for the outcome of what it asked for; while the stage is up, for
/// its inputs, as long as the id of a session that starts can be cut for the log, and
/// between two events for the end of the input.
pub proof fn law_what_is_welcome(p: ProgramView, signal: SignalView)
    ensures
        welcomes(p, signal) <==> match (p, signal) {
            (ProgramView::LoadingModel { .. }, SignalView::ModelLoaded) => true,
            (ProgramView::LoadingModel { .. }, SignalView::ModelFailed { .. }) => true,
            (ProgramView::ReadingGrammar { .. }, SignalView::GrammarRead(_)) => true,
            (ProgramView::ReadingGrammar { .. }, SignalView::GrammarFailed { .. }) => true,
            (ProgramView::BuildingRecognizer { .. }, SignalView::RecognizerBuilt(_)) => true,
            (ProgramView::Running(s), SignalView::EndOfInput) => s.phase is Ready,
            (ProgramView::Running(s), SignalView::Stage(input)) => accepts(s, input) && (starts(
                s,
                input,
            ) ==> (session_named(input->AudioStart_0) matches Some(id) ==> has_short_form(id))),
            _ => false,
        },
{
}

/// Startup goes from the arguments to the model, the grammar file, if one is named,
/// and the recognizer, and ends with the reason where one of them fails.
pub proof fn law_startup_step_by_step(
    args: WordSeq,
    grammar: Option<Seq<char>>,
    mode: LifecycleMode,
    path: Seq<char>,
    content: Seq<char>,
    error: Seq<char>,
)
    ensures
        started(args) == (match parsed(args) {
            Ok(found) => (
                ProgramView::LoadingModel { grammar: found.grammar, mode: found.lifecycle_mode },
                seq![TaskView::LoadModel { path: found.model }],
            ),
            Err(message) => (ProgramView::Ended(Err(message)), Seq::<TaskView>::empty()),
        }),
        progressed(
            ProgramView::LoadingModel { grammar, mode },
            SignalView::ModelFailed { path },
        ) == (
            ProgramView::Ended(Err("failed to load model from "@ + path)),
            Seq::<TaskView>::empty(),
        ),
        progressed(ProgramView::LoadingModel { grammar, mode }, SignalView::ModelLoaded) == (
        match grammar {
            Some(file) => (
                ProgramView::ReadingGrammar { mode },
                seq![TaskView::ReadGrammar { path: file }],
            ),
            None => (
                ProgramView::BuildingRecognizer { mode },
                seq![TaskView::BuildRecognizer { words: seq!["[unk]"@] }],
            ),
        }),
        progressed(
            ProgramView::ReadingGrammar { mode },
            SignalView::GrammarFailed { path, error },
        ) == (
            ProgramView::Ended(Err("failed to read grammar file "@ + path + ": "@ + error)),
            Seq::<TaskView>::empty(),
        ),
        progressed(ProgramView::ReadingGrammar { mode }, SignalView::GrammarRead(content)) == (
        match json_string_list(content) {
            Ok(words) => (
                ProgramView::BuildingRecognizer { mode },
                seq![TaskView::BuildRecognizer { words }],
            ),
            Err(refusal) => (
                ProgramView::Ended(
                    Err("grammar file must be a JSON array of strings: "@ + refusal),
                ),
                Seq::<TaskView>::empty(),
            ),
        }),
        progressed(
            ProgramView::BuildingRecognizer { mode },
            SignalView::RecognizerBuilt(false),
        ) == (
            ProgramView::Ended(Err("failed to create recognizer with grammar"@)),
            Seq::<TaskView>::empty(),
        ),
        progressed(
            ProgramView::BuildingRecognizer { mode },
            SignalView::RecognizerBuilt(true),
        ) == (
            ProgramView::Running(opening(mode)),
            seq![
                TaskView::Open(OpeningEventView::Capability(own_capability())),
                TaskView::Open(first_credit(mode)),
            ],
        ),
{
    law_startup_list_is_the_files(seq![], error);
}

/// While the stage is up, its actions are carried out one by one and in order. The
/// start of a session that is named is noted before, by the short form of its id, and
/// nothing else is noted.
pub proof fn law_actions_are_carried_out(s: StageView, input: InputView)
    requires
        accepts(s, input),
    ensures
        ({
            let (p, tasks) = progressed(ProgramView::Running(s), SignalView::Stage(input));
            let actions = step(s, input).1;
            let noted = if starts(s, input) {
                session_named(input->AudioStart_0)
            } else {
                None
            };
            let first: int = if noted is Some {
                1
            } else {
                0
            };
            &&& p == ProgramView::Running(step(s, input).0)
            &&& tasks.len() == first + actions.len()
            &&& noted matches Some(id) ==> tasks[0] == (TaskView::NoteSession {
                short_id: short_form(id),
            })
            &&& forall|i: int|
                0 <= i < actions.len() ==> #[trigger] tasks[first + i] == TaskView::Act(actions[i])
        }),
{
}

/// What programs, signals and tasks say is what they hold.
pub proof fn law_programs_say_what_they_hold(p: Program, signal: Signal, task: Task, list: Seq<Task>)
    ensures
        match p {
            Program::LoadingModel { grammar, mode } => p@ == (ProgramView::LoadingModel {
                grammar: text_of(grammar),
                mode,
            }),
            Program::ReadingGrammar { mode } => p@ == (ProgramView::ReadingGrammar { mode }),
            Program::BuildingRecognizer { mode } => p@ == (ProgramView::BuildingRecognizer { mode }),
            Program::Running(stage) => p@ == ProgramView::Running(stage@),
            Program::Ended(Ok(_)) => p@ == ProgramView::Ended(Ok(())),
            Program::Ended(Err(message)) => p@ == ProgramView::Ended(Err(message@)),
        },
        signal@ == (match signal {
            Signal::ModelLoaded => SignalView::ModelLoaded,
            Signal::ModelFailed { path } => SignalView::ModelFailed { path: path@ },
            Signal::GrammarRead(content) => SignalView::GrammarRead(content@),
            Signal::GrammarFailed { path, error } => SignalView::GrammarFailed {
                path: path@,
                error: error@,
            },
            Signal::RecognizerBuilt(ok) => SignalView::RecognizerBuilt(ok),
            Signal::Stage(input) => SignalView::Stage(input@),
            Signal::EndOfInput => SignalView::EndOfInput,
        }),
        task@ == (match task {
            Task::LoadModel { path } => TaskView::LoadModel { path: path@ },
            Task::ReadGrammar { path } => TaskView::ReadGrammar { path: path@ },
            Task::BuildRecognizer { words } => TaskView::BuildRecognizer { words: texts(words@) },
            Task::Open(event) => TaskView::Open(event@),
            Task::NoteSession { short_id } => TaskView::NoteSession { short_id: short_id@ },
            Task::Act(action) => TaskView::Act(action@),
        }),
        tasks_of(list).len() == list.len(),
        forall|i: int| 0 <= i < list.len() ==> #[trigger] tasks_of(list)[i] == list[i]@,
{
}

} // verus!
