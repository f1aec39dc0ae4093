//! Command-line arguments, positional or as flags:
//! `vosk_commands <model-path> [grammar.json]` or
//! `vosk_commands --model <path> --grammar <path>`.

use crate::text::{same_text, text_of, texts, WordSeq};
use vstd::prelude::*;
use vstd::string::*;

verus! {

/// How audio reaches the stage.
#[derive(Clone, Copy, Debug, PartialEq, Eq, Structural)]
pub enum LifecycleMode {
    /// In sessions, with a start and a stop.
    Session,
    /// Without end.
    Continuous,
}

/// What the command line asks for.
#[derive(Debug)]
pub struct StageArgs {
    /// Where the acoustic model lies.
    pub model: String,
    /// Where the startup grammar lies.
    pub grammar: Option<String>,
    /// How audio arrives.
    pub lifecycle_mode: LifecycleMode,
}

/// What a `StageArgs` says.
pub struct StageArgsView {
    /// See [`StageArgs::model`].
    pub model: Seq<char>,
    /// See [`StageArgs::grammar`].
    pub grammar: Option<Seq<char>>,
    /// See [`StageArgs::lifecycle_mode`].
    pub lifecycle_mode: LifecycleMode,
}

impl View for StageArgs {
    type V = StageArgsView;

    open spec fn view(&self) -> StageArgsView {
        StageArgsView {
            model: self.model@,
            grammar: text_of(self.grammar),
            lifecycle_mode: self.lifecycle_mode,
        }
    }
}

/// The arguments sorted by kind, each flag with the value that it was last given.
pub struct Sorted {
    /// The value of `--model`.
    pub model: Option<Seq<char>>,
    /// The value of `--grammar`.
    pub grammar: Option<Seq<char>>,
    /// The value of `--lifecycle_mode`.
    pub lifecycle_mode: Option<Seq<char>>,
    /// The arguments that belong to no flag.
    pub positional: WordSeq,
}

/// No argument seen yet.
pub open spec fn nothing_sorted() -> Sorted {
    Sorted { model: None, grammar: None, lifecycle_mode: None, positional: seq![] }
}

/// Begins with two dashes.
pub open spec fn is_flag(arg: Seq<char>) -> bool {
    arg.len() >= 2 && arg[0] == '-' && arg[1] == '-'
}

/// Is one of the flags that take a value.
pub open spec fn takes_value(arg: Seq<char>) -> bool {
    arg == "--model"@ || arg == "--grammar"@ || arg == "--lifecycle_mode"@
}

/// `sorted` with `value` for `flag`.
pub open spec fn with_value(sorted: Sorted, flag: Seq<char>, value: Seq<char>) -> Sorted {
    if flag == "--model"@ {
        Sorted { model: Some(value), ..sorted }
    } else if flag == "--grammar"@ {
        Sorted { grammar: Some(value), ..sorted }
    } else {
        Sorted { lifecycle_mode: Some(value), ..sorted }
    }
}

/// Reads `rest` on top of what is sorted already. A flag that takes a value
/// takes the next argument, whatever it is; other flags are passed over. The
/// error is the message for a flag whose value is missing.
pub open spec fn sort_args(rest: WordSeq, sorted: Sorted) -> Result<Sorted, Seq<char>>
    decreases rest.len(),
{
    if rest.len() == 0 {
        Ok(sorted)
    } else if takes_value(rest[0]) {
        if rest.len() == 1 {
            Err(rest[0] + " requires a value"@)
        } else {
            sort_args(rest.skip(2), with_value(sorted, rest[0], rest[1]))
        }
    } else if is_flag(rest[0]) {
        sort_args(rest.skip(1), sorted)
    } else {
        sort_args(
            rest.skip(1),
            Sorted { positional: sorted.positional.push(rest[0]), ..sorted },
        )
    }
}

/// A flag's value, or else the positional argument at `index`.
pub open spec fn flag_or_positional(
    value: Option<Seq<char>>,
    positional: WordSeq,
    index: int,
) -> Option<Seq<char>> {
    match value {
        Some(v) => Some(v),
        None => if index < positional.len() {
            Some(positional[index])
        } else {
            None
        },
    }
}

/// What the arguments ask for, or the message that says what is wrong.
pub open spec fn parsed(args: WordSeq) -> Result<StageArgsView, Seq<char>> {
    match sort_args(args, nothing_sorted()) {
        Err(message) => Err(message),
        Ok(sorted) => match flag_or_positional(sorted.model, sorted.positional, 0) {
            None => Err(
                "usage: vosk_commands <model-path> [grammar.json] or --model <path> [--grammar <path>]"@,
            ),
            Some(model) => Ok(
                StageArgsView {
                    model,
                    grammar: flag_or_positional(sorted.grammar, sorted.positional, 1),
                    lifecycle_mode: if sorted.lifecycle_mode == Some("continuous"@) {
                        LifecycleMode::Continuous
                    } else {
                        LifecycleMode::Session
                    },
                },
            ),
        },
    }
}

fn begins_with_dashes(arg: &str) -> (yes: bool)
    ensures
        yes == is_flag(arg@),
{
    arg.unicode_len() >= 2 && arg.get_char(0) == '-' && arg.get_char(1) == '-'
}

fn missing_value(flag: &str) -> (message: String)
    ensures
        message@ == flag@ + " requires a value"@,
{
    let mut message = flag.to_string();
    message.append(" requires a value");
    message
}

fn or_positional(value: Option<String>, positional: &Vec<String>, index: usize) -> (choice: Option<
    String,
>)
    ensures
        text_of(choice) == flag_or_positional(text_of(value), texts(positional@), index as int),
{
    match value {
        Some(v) => Some(v),
        None => if index < positional.len() {
            Some(positional[index].clone())
        } else {
            None
        },
    }
}

/// Reads the command line. A flag takes precedence over the positional argument
/// for the same thing, the last of several wins, and unknown flags are ignored.
pub fn parse_args(args: &[String]) -> (result: Result<StageArgs, String>)
    ensures
        match result {
            Ok(stage_args) => parsed(texts(args@)) == Ok::<StageArgsView, Seq<char>>(stage_args@),
            Err(message) => parsed(texts(args@)) == Err::<StageArgsView, Seq<char>>(message@),
        },
{
    let ghost all = texts(args@);
    let mut model: Option<String> = None;
    let mut grammar: Option<String> = None;
    let mut lifecycle_mode: Option<String> = None;
    let mut positional: Vec<String> = Vec::new();
    let mut i: usize = 0;
    assert(all.skip(0) =~= all);
    assert(texts(positional@) =~= nothing_sorted().positional);
    while i < args.len()
        invariant
            all == texts(args@),
            i <= all.len(),
            sort_args(all, nothing_sorted()) == sort_args(
                all.skip(i as int),
                Sorted {
                    model: text_of(model),
                    grammar: text_of(grammar),
                    lifecycle_mode: text_of(lifecycle_mode),
                    positional: texts(positional@),
                },
            ),
        decreases args@.len() - i,
    {
        let ghost rest = all.skip(i as int);
        let arg = args[i].as_str();
        assert(rest[0] == arg@);
        assert(rest.skip(1) =~= all.skip(i + 1));
        if i + 1 < args.len() {
            assert(rest[1] == args@[i + 1]@);
            assert(rest.skip(2) =~= all.skip(i + 2));
        }
        if same_text(arg, "--model") || same_text(arg, "--grammar") || same_text(
            arg,
            "--lifecycle_mode",
        ) {
            if i + 1 >= args.len() {
                return Err(missing_value(arg));
            }
            let value = args[i + 1].clone();
            if same_text(arg, "--model") {
                model = Some(value);
            } else if same_text(arg, "--grammar") {
                grammar = Some(value);
            } else {
                lifecycle_mode = Some(value);
            }
            i = i + 2;
        } else {
            if !begins_with_dashes(arg) {
                let ghost before = texts(positional@);
                positional.push(args[i].clone());
                assert(texts(positional@) =~= before.push(arg@));
            }
            i = i + 1;
        }
    }
    assert(all.skip(all.len() as int) =~= seq![]);
    let model_path = match or_positional(model, &positional, 0) {
        Some(path) => path,
        None => {
            return Err(
                "usage: vosk_commands <model-path> [grammar.json] or --model <path> [--grammar <path>]".to_string(),
            );
        },
    };
    let grammar_path = or_positional(grammar, &positional, 1);
    let mode = match lifecycle_mode {
        Some(name) => if same_text(name.as_str(), "continuous") {
            LifecycleMode::Continuous
        } else {
            LifecycleMode::Session
        },
        None => LifecycleMode::Session,
    };
    Ok(StageArgs { model: model_path, grammar: grammar_path, lifecycle_mode: mode })
}

proof fn lemma_sort_continues(head: WordSeq, tail: WordSeq, sorted: Sorted)
    requires
        sort_args(head, sorted) is Ok,
    ensures
        sort_args(head + tail, sorted) == sort_args(tail, sort_args(head, sorted)->Ok_0),
    decreases head.len(),
{
    let all = head + tail;
    if head.len() == 0 {
        assert(all =~= tail);
    } else if takes_value(head[0]) {
        assert(all.skip(2) =~= head.skip(2) + tail);
        lemma_sort_continues(head.skip(2), tail, with_value(sorted, head[0], head[1]));
    } else {
        assert(all.skip(1) =~= head.skip(1) + tail);
        if is_flag(head[0]) {
            lemma_sort_continues(head.skip(1), tail, sorted);
        } else {
            lemma_sort_continues(
                head.skip(1),
                tail,
                Sorted { positional: sorted.positional.push(head[0]), ..sorted },
            );
        }
    }
}

proof fn lemma_sort_positional(args: WordSeq, sorted: Sorted)
    requires
        forall|i: int| 0 <= i < args.len() ==> !is_flag(#[trigger] args[i]),
    ensures
        sort_args(args, sorted) == Ok::<Sorted, Seq<char>>(
            Sorted { positional: sorted.positional + args, ..sorted },
        ),
    decreases args.len(),
{
    if args.len() == 0 {
        assert(sorted.positional + args =~= sorted.positional);
    } else {
        assert(!is_flag(args[0]));
        assert(!takes_value(args[0])) by {
            lemma_value_flags_are_flags(args[0]);
        }
        let next = Sorted { positional: sorted.positional.push(args[0]), ..sorted };
        let rest = args.skip(1);
        assert forall|i: int| 0 <= i < rest.len() implies !is_flag(#[trigger] rest[i]) by {
            assert(rest[i] == args[i + 1]);
        }
        lemma_sort_positional(rest, next);
        assert(next.positional + rest =~= sorted.positional + args);
    }
}

proof fn lemma_value_flags_are_flags(arg: Seq<char>)
    ensures
        takes_value(arg) ==> is_flag(arg),
{
    reveal_strlit("--model");
    reveal_strlit("--grammar");
    reveal_strlit("--lifecycle_mode");
}

/// Arguments without flags name the model and then, where there are two or more,
/// the grammar.
pub proof fn law_positional_style(args: WordSeq)
    requires
        args.len() > 0,
        forall|i: int| 0 <= i < args.len() ==> !is_flag(#[trigger] args[i]),
    ensures
        parsed(args) == Ok::<StageArgsView, Seq<char>>(
            StageArgsView {
                model: args[0],
                grammar: if args.len() > 1 {
                    Some(args[1])
                } else {
                    None
                },
                lifecycle_mode: LifecycleMode::Session,
            },
        ),
{
    lemma_sort_positional(args, nothing_sorted());
    assert(nothing_sorted().positional + args =~= args);
}

/// Flags name the model and the grammar, whatever their values look like.
pub proof fn law_flag_style(model: Seq<char>, grammar: Seq<char>)
    ensures
        parsed(seq!["--model"@, model, "--grammar"@, grammar]) == Ok::<StageArgsView, Seq<char>>(
            StageArgsView {
                model,
                grammar: Some(grammar),
                lifecycle_mode: LifecycleMode::Session,
            },
        ),
{
    let args = seq!["--model"@, model, "--grammar"@, grammar];
    reveal_strlit("--model");
    reveal_strlit("--grammar");
    assert("--model"@.len() != "--grammar"@.len());
    assert(args.skip(2) =~= seq!["--grammar"@, grammar]);
    assert(args.skip(2).skip(2) =~= seq![]);
    let first = with_value(nothing_sorted(), "--model"@, model);
    let both = with_value(first, "--grammar"@, grammar);
    assert(sort_args(args.skip(2).skip(2), both) == Ok::<Sorted, Seq<char>>(both));
    assert(sort_args(args.skip(2), first) == Ok::<Sorted, Seq<char>>(both));
}

/// An unknown flag changes nothing, wherever it stands, unless a flag before it
/// takes it for its value.
pub proof fn law_unknown_flag_is_ignored(head: WordSeq, flag: Seq<char>, tail: WordSeq)
    requires
        sort_args(head, nothing_sorted()) is Ok,
        is_flag(flag),
        !takes_value(flag),
    ensures
        parsed(head + seq![flag] + tail) == parsed(head + tail),
{
    let sorted = sort_args(head, nothing_sorted())->Ok_0;
    let flagged = seq![flag] + tail;
    lemma_sort_continues(head, tail, nothing_sorted());
    lemma_sort_continues(head, flagged, nothing_sorted());
    assert(head + seq![flag] + tail =~= head + flagged);
    assert(flagged.skip(1) =~= tail);
    assert(flagged[0] == flag);
    assert(sort_args(flagged, sorted) == sort_args(tail, sorted));
}

/// Of several values for one flag, the last counts.
pub proof fn law_last_value_wins(head: WordSeq, flag: Seq<char>, value: Seq<char>)
    requires
        sort_args(head, nothing_sorted()) is Ok,
        takes_value(flag),
    ensures
        sort_args(head + seq![flag, value], nothing_sorted()) == Ok::<Sorted, Seq<char>>(
            with_value(sort_args(head, nothing_sorted())->Ok_0, flag, value),
        ),
{
    let pair = seq![flag, value];
    lemma_sort_continues(head, pair, nothing_sorted());
    assert(pair.skip(2) =~= seq![]);
    let after = with_value(sort_args(head, nothing_sorted())->Ok_0, flag, value);
    assert(sort_args(pair.skip(2), after) == Ok::<Sorted, Seq<char>>(after));
}

/// A flag that takes a value is refused at the end of the line.
pub proof fn law_value_is_required(head: WordSeq, flag: Seq<char>)
    requires
        sort_args(head, nothing_sorted()) is Ok,
        takes_value(flag),
    ensures
        parsed(head + seq![flag]) == Err::<StageArgsView, Seq<char>>(flag + " requires a value"@),
{
    lemma_sort_continues(head, seq![flag], nothing_sorted());
}

/// Flags take precedence: with `--model` and `--grammar` given, the positional
/// arguments do not matter.
pub proof fn law_flags_take_precedence(args: WordSeq, model: Seq<char>, grammar: Seq<char>)
    requires
        sort_args(args, nothing_sorted()) matches Ok(sorted) && sorted.model == Some(model)
            && sorted.grammar == Some(grammar),
    ensures
        parsed(args) matches Ok(found) && found.model == model && found.grammar == Some(grammar),
{
}

/// A piece of the command line.
pub enum Piece {
    /// A flag that takes a value, with its value.
    Value {
        /// The flag.
        flag: Seq<char>,
        /// Its value.
        value: Seq<char>,
    },
    /// Another flag.
    Unknown(Seq<char>),
    /// An argument that belongs to no flag.
    Positional(Seq<char>),
}

/// The flags that take a value.
pub open spec fn is_value_flag(flag: Seq<char>) -> bool {
    flag == "--model"@ || flag == "--grammar"@ || flag == "--lifecycle_mode"@
}

/// The piece is what it is called: a flag begins with two dashes, and the value of a
/// flag may be anything.
pub open spec fn is_proper(piece: Piece) -> bool {
    match piece {
        Piece::Value { flag, value } => is_value_flag(flag),
        Piece::Unknown(flag) => !is_value_flag(flag) && flag.len() >= 2 && flag[0] == '-' && flag[1]
            == '-',
        Piece::Positional(arg) => !(arg.len() >= 2 && arg[0] == '-' && arg[1] == '-'),
    }
}

/// The arguments that a piece is written as.
pub open spec fn piece_args(piece: Piece) -> WordSeq {
    match piece {
        Piece::Value { flag, value } => seq![flag, value],
        Piece::Unknown(arg) | Piece::Positional(arg) => seq![arg],
    }
}

/// The command line that pieces make up.
pub open spec fn line_of(pieces: Seq<Piece>) -> WordSeq
    decreases pieces.len(),
{
    if pieces.len() == 0 {
        seq![]
    } else {
        line_of(pieces.drop_last()) + piece_args(pieces.last())
    }
}

/// The value that a flag was given last.
pub open spec fn last_value(pieces: Seq<Piece>, wanted: Seq<char>) -> Option<Seq<char>>
    decreases pieces.len(),
{
    if pieces.len() == 0 {
        None
    } else {
        match pieces.last() {
            Piece::Value { flag, value } => if flag == wanted {
                Some(value)
            } else {
                last_value(pieces.drop_last(), wanted)
            },
            _ => last_value(pieces.drop_last(), wanted),
        }
    }
}

/// The arguments that belong to no flag, in order.
pub open spec fn free_args(pieces: Seq<Piece>) -> WordSeq
    decreases pieces.len(),
{
    if pieces.len() == 0 {
        seq![]
    } else {
        match pieces.last() {
            Piece::Positional(arg) => free_args(pieces.drop_last()).push(arg),
            _ => free_args(pieces.drop_last()),
        }
    }
}

proof fn lemma_flags_differ()
    ensures
        "--model"@ != "--grammar"@,
        "--model"@ != "--lifecycle_mode"@,
        "--grammar"@ != "--lifecycle_mode"@,
{
    reveal_strlit("--model");
    reveal_strlit("--grammar");
    reveal_strlit("--lifecycle_mode");
    assert("--model"@.len() == 7 && "--grammar"@.len() == 9 && "--lifecycle_mode"@.len() == 16);
}

proof fn lemma_pieces_sorted(pieces: Seq<Piece>)
    requires
        forall|i: int| 0 <= i < pieces.len() ==> is_proper(#[trigger] pieces[i]),
    ensures
        sort_args(line_of(pieces), nothing_sorted()) == Ok::<Sorted, Seq<char>>(
            Sorted {
                model: last_value(pieces, "--model"@),
                grammar: last_value(pieces, "--grammar"@),
                lifecycle_mode: last_value(pieces, "--lifecycle_mode"@),
                positional: free_args(pieces),
            },
        ),
    decreases pieces.len(),
{
    if pieces.len() > 0 {
        let front = pieces.drop_last();
        let last = pieces.last();
        assert(is_proper(pieces[pieces.len() - 1]));
        assert forall|i: int| 0 <= i < front.len() implies is_proper(#[trigger] front[i]) by {
            assert(front[i] == pieces[i]);
        }
        lemma_pieces_sorted(front);
        let before = sort_args(line_of(front), nothing_sorted())->Ok_0;
        let tail = piece_args(last);
        lemma_sort_continues(line_of(front), tail, nothing_sorted());
        lemma_flags_differ();
        match last {
            Piece::Value { flag, value } => {
                assert(tail.skip(2) =~= seq![]);
                let after = with_value(before, flag, value);
                assert(sort_args(tail.skip(2), after) == Ok::<Sorted, Seq<char>>(after));
            },
            Piece::Unknown(flag) => {
                assert(tail.skip(1) =~= seq![]);
                assert(sort_args(tail.skip(1), before) == Ok::<Sorted, Seq<char>>(before));
            },
            Piece::Positional(arg) => {
                lemma_value_flags_are_flags(arg);
                assert(tail.skip(1) =~= seq![]);
                let after = Sorted { positional: before.positional.push(arg), ..before };
                assert(sort_args(tail.skip(1), after) == Ok::<Sorted, Seq<char>>(after));
            },
        }
    }
}

/// What a command line asks for, piece by piece: the model is the last value of
/// `--model`, or else the first argument that belongs to no flag; the grammar is the
/// last value of `--grammar`, or else the second such argument, if there is one; audio
/// comes without end where the last value of `--lifecycle_mode` is `continuous`.
/// Without a model the line is refused, and so is one that ends in a flag whose value
/// is missing.
pub proof fn law_command_line_piece_by_piece(pieces: Seq<Piece>, flag: Seq<char>)
    requires
        forall|i: int| 0 <= i < pieces.len() ==> is_proper(#[trigger] pieces[i]),
        is_value_flag(flag),
    ensures
        ({
            let free = free_args(pieces);
            let model = last_value(pieces, "--model"@);
            let grammar = last_value(pieces, "--grammar"@);
            match parsed(line_of(pieces)) {
                Ok(found) => {
                    &&& model is Some || free.len() > 0
                    &&& found.model == (match model {
                        Some(path) => path,
                        None => free[0],
                    })
                    &&& found.grammar == (match grammar {
                        Some(path) => Some(path),
                        None => if free.len() > 1 {
                            Some(free[1])
                        } else {
                            None
                        },
                    })
                    &&& found.lifecycle_mode == LifecycleMode::Continuous <==> last_value(
                        pieces,
                        "--lifecycle_mode"@,
                    ) == Some("continuous"@)
                },
                Err(message) => model is None && free.len() == 0 && message
                    == "usage: vosk_commands <model-path> [grammar.json] or --model <path> [--grammar <path>]"@,
            }
        }),
        parsed(line_of(pieces) + seq![flag]) == Err::<StageArgsView, Seq<char>>(
            flag + " requires a value"@,
        ),
{
    lemma_pieces_sorted(pieces);
    lemma_sort_continues(line_of(pieces), seq![flag], nothing_sorted());
}

proof fn lemma_line_in_pieces(a: Seq<Piece>, b: Seq<Piece>)
    ensures
        line_of(a + b) == line_of(a) + line_of(b),
    decreases b.len(),
{
    if b.len() == 0 {
        assert(a + b =~= a);
        assert(line_of(a) + line_of(b) =~= line_of(a));
    } else {
        lemma_line_in_pieces(a, b.drop_last());
        assert((a + b).drop_last() =~= a + b.drop_last());
        assert(line_of(a + b) =~= line_of(a) + line_of(b));
    }
}

/// Every command line is made up of pieces, with at most a flag at its end whose
/// value is missing. Both are handed back.
pub proof fn law_every_line_is_made_of_pieces(args: WordSeq) -> (made: (Seq<Piece>, WordSeq))
    ensures
        args == line_of(made.0) + made.1,
        forall|i: int| 0 <= i < made.0.len() ==> is_proper(#[trigger] made.0[i]),
        made.1.len() == 0 || made.1.len() == 1 && is_value_flag(made.1[0]),
    decreases args.len(),
{
    if args.len() == 0 {
        assert(args =~= line_of(Seq::<Piece>::empty()) + WordSeq::empty());
        (Seq::<Piece>::empty(), WordSeq::empty())
    } else if is_value_flag(args[0]) && args.len() == 1 {
        assert(args =~= line_of(Seq::<Piece>::empty()) + args);
        (Seq::<Piece>::empty(), args)
    } else {
        let first = if is_value_flag(args[0]) {
            Piece::Value { flag: args[0], value: args[1] }
        } else if args[0].len() >= 2 && args[0][0] == '-' && args[0][1] == '-' {
            Piece::Unknown(args[0])
        } else {
            Piece::Positional(args[0])
        };
        lemma_value_flags_are_flags(args[0]);
        let taken = piece_args(first);
        let (rest, end) = law_every_line_is_made_of_pieces(args.skip(taken.len() as int));
        let one = seq![first];
        let pieces = one + rest;
        lemma_line_in_pieces(one, rest);
        assert(one.drop_last() =~= Seq::<Piece>::empty());
        assert(line_of(one) =~= taken);
        assert(args =~= taken + args.skip(taken.len() as int));
        assert(args =~= line_of(pieces) + end);
        assert forall|i: int| 0 <= i < pieces.len() implies is_proper(#[trigger] pieces[i]) by {
            if i > 0 {
                assert(pieces[i] == rest[i - 1]);
            }
        }
        (pieces, end)
    }
}

/// What the arguments say is what they hold.
pub proof fn law_arguments_say_what_they_hold(args: StageArgs)
    ensures
        args@.model == args.model@,
        args@.grammar is Some <==> args.grammar is Some,
        args.grammar matches Some(path) ==> args@.grammar == Some(path@),
        args@.lifecycle_mode == args.lifecycle_mode,
{
}

} // verus!
