use vosk_commands::args::{parse_args, LifecycleMode, StageArgs};

fn parse(items: &[&str]) -> Result<StageArgs, String> {
    let args: Vec<String> = items.iter().map(|s| s.to_string()).collect();
    parse_args(&args)
}

fn check(items: &[&str], model: &str, grammar: Option<&str>, mode: LifecycleMode) {
    let found = parse(items).unwrap();
    assert_eq!(found.model, model);
    assert_eq!(found.grammar.as_deref(), grammar);
    assert_eq!(found.lifecycle_mode, mode);
}

const USAGE: &str =
    "usage: vosk_commands <model-path> [grammar.json] or --model <path> [--grammar <path>]";

#[test]
fn positional_arguments() {
    check(&["m"], "m", None, LifecycleMode::Session);
    check(&["m", "g.json"], "m", Some("g.json"), LifecycleMode::Session);
    check(&["m", "g.json", "more"], "m", Some("g.json"), LifecycleMode::Session);
}

#[test]
fn flag_arguments() {
    check(&["--model", "m", "--grammar", "g"], "m", Some("g"), LifecycleMode::Session);
    check(&["--grammar", "g", "--model", "m"], "m", Some("g"), LifecycleMode::Session);
}

#[test]
fn lifecycle_mode_argument() {
    check(&["m", "--lifecycle_mode", "continuous"], "m", None, LifecycleMode::Continuous);
    check(&["m", "--lifecycle_mode", "session"], "m", None, LifecycleMode::Session);
    check(&["m", "--lifecycle_mode", "anything"], "m", None, LifecycleMode::Session);
}

#[test]
fn flags_beat_positional_arguments() {
    check(&["a", "b", "--model", "m", "--grammar", "g"], "m", Some("g"), LifecycleMode::Session);
    check(&["a", "b", "--model", "m"], "m", Some("b"), LifecycleMode::Session);
}

#[test]
fn last_value_wins() {
    check(&["--model", "m", "--model", "n"], "n", None, LifecycleMode::Session);
}

#[test]
fn unknown_flags_are_ignored() {
    check(&["--verbose", "m", "--x", "g", "--"], "m", Some("g"), LifecycleMode::Session);
    check(&["-m"], "-m", None, LifecycleMode::Session);
}

#[test]
fn a_flag_takes_the_next_argument_whatever_it_is() {
    // "g" is then the first positional argument, and there is no second.
    check(&["--model", "--grammar", "g"], "--grammar", None, LifecycleMode::Session);
}

#[test]
fn missing_values_are_refused() {
    assert_eq!(parse(&["m", "--model"]).unwrap_err(), "--model requires a value");
    assert_eq!(parse(&["m", "--grammar"]).unwrap_err(), "--grammar requires a value");
    assert_eq!(
        parse(&["--lifecycle_mode"]).unwrap_err(),
        "--lifecycle_mode requires a value",
    );
}

#[test]
fn missing_model_is_refused() {
    assert_eq!(parse(&[]).unwrap_err(), USAGE);
    assert_eq!(parse(&["--grammar", "g"]).unwrap_err(), USAGE);
    assert_eq!(parse(&["--verbose"]).unwrap_err(), USAGE);
}
