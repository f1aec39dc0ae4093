use vosk_commands::args::LifecycleMode;
use vosk_commands::handshake::{capability, opening_events, AudioFormat, OpeningEvent};
use vosk_commands::json::Json;
use vosk_commands::machine::{Action, Decoding, Input};
use vosk_commands::program::{Program, Signal, Task};
use vosk_commands::recognition::{
    Recognition, TranscriptAlternative, MAX_ALTERNATIVES, WITH_PARTIAL_WORDS, WITH_WORDS,
};

fn launch(args: &[&str]) -> (Program, Vec<Task>) {
    let args: Vec<String> = args.iter().map(|s| s.to_string()).collect();
    Program::start(&args)
}

fn tell(program: &mut Program, signal: Signal) -> Vec<Task> {
    assert!(program.is_welcome(&signal), "{:?}", signal);
    program.handle(signal)
}

/// A program whose stage is up.
fn running(args: &[&str]) -> Program {
    let (mut program, _) = launch(args);
    tell(&mut program, Signal::ModelLoaded);
    tell(&mut program, Signal::RecognizerBuilt(true));
    assert!(matches!(program, Program::Running(_)));
    program
}

fn start(session: &str) -> Signal {
    let id = Json::Text(session.to_string());
    Signal::Stage(Input::AudioStart(Json::Object(vec![("session_id".to_string(), id)])))
}

fn chunk() -> Signal {
    Signal::Stage(Input::AudioChunk { session_id: "c".to_string(), payload: vec![0; 320] })
}

fn heard(text: &str, confidence: f32) -> Signal {
    Signal::Stage(Input::Recognized(Recognition::Multiple(vec![TranscriptAlternative {
        text: text.to_string(),
        confidence: confidence.to_bits(),
    }])))
}

fn error(program: &Program) -> &str {
    match program {
        Program::Ended(Err(message)) => message,
        other => panic!("no error: {:?}", other),
    }
}

fn writes(task: &Task) -> bool {
    matches!(task, Task::Open(_) | Task::Act(Action::Send(_)) | Task::Act(Action::Grant { .. }))
}

#[test]
fn capability_is_that_of_a_command_recognizer() {
    let own = capability();
    assert_eq!(own.stage_type, "command_recognition");
    assert_eq!(own.stage_name, "vosk");
    assert_eq!(own.audio_formats, vec![AudioFormat::Pcm16kMono]);
    assert_eq!(own.lifecycle_modes, vec!["persistent".to_string()]);
    assert!(own.feature_flags.is_empty());
}

#[test]
fn recognizer_options() {
    assert_eq!(MAX_ALTERNATIVES, 3);
    assert!(WITH_WORDS);
    assert!(WITH_PARTIAL_WORDS);
}

#[test]
fn capability_comes_before_the_first_credit() {
    for (mode, expected) in [(LifecycleMode::Session, 16), (LifecycleMode::Continuous, 64)] {
        let (first, second) = opening_events(mode);
        assert!(matches!(first, OpeningEvent::Capability(_)));
        match second {
            OpeningEvent::Credit { frames, session_id } => {
                assert_eq!(frames, expected);
                assert_eq!(session_id, "");
            }
            other => panic!("no credit: {:?}", other),
        }
    }
}

#[test]
fn startup_goes_from_model_to_grammar_to_recognizer() {
    let (mut program, tasks) =
        launch(&["--model", "m", "--grammar", "g.json", "--lifecycle_mode", "continuous"]);
    assert!(matches!(tasks.as_slice(), [Task::LoadModel { path }] if path == "m"));
    let tasks = tell(&mut program, Signal::ModelLoaded);
    assert!(matches!(tasks.as_slice(), [Task::ReadGrammar { path }] if path == "g.json"));
    let tasks = tell(&mut program, Signal::GrammarRead("[\"go\", \"stop\"]".to_string()));
    match tasks.as_slice() {
        [Task::BuildRecognizer { words }] => {
            assert_eq!(words, &vec!["go".to_string(), "stop".to_string()]);
        }
        other => panic!("no build: {:?}", other),
    }
    let tasks = tell(&mut program, Signal::RecognizerBuilt(true));
    assert!(matches!(
        tasks.as_slice(),
        [Task::Open(OpeningEvent::Capability(_)), Task::Open(OpeningEvent::Credit { frames: 64, .. })]
    ));
    match &program {
        Program::Running(stage) => assert_eq!(stage.mode(), LifecycleMode::Continuous),
        other => panic!("not running: {:?}", other),
    }
}

#[test]
fn startup_without_a_grammar_file_uses_the_marker() {
    let (mut program, _) = launch(&["m"]);
    let tasks = tell(&mut program, Signal::ModelLoaded);
    match tasks.as_slice() {
        [Task::BuildRecognizer { words }] => assert_eq!(words, &vec!["[unk]".to_string()]),
        other => panic!("no build: {:?}", other),
    }
}

#[test]
fn failed_startup_tells_why_and_writes_nothing() {
    let (program, tasks) = launch(&["--model"]);
    assert_eq!(error(&program), "--model requires a value");
    assert!(tasks.is_empty());

    let (mut program, _) = launch(&["m"]);
    assert!(tell(&mut program, Signal::ModelFailed { path: "/x/m".to_string() }).is_empty());
    assert_eq!(error(&program), "failed to load model from /x/m");

    let (mut program, _) = launch(&["m", "g"]);
    tell(&mut program, Signal::ModelLoaded);
    let failed = Signal::GrammarFailed { path: "/x/g".to_string(), error: "no file".to_string() };
    assert!(tell(&mut program, failed).is_empty());
    assert_eq!(error(&program), "failed to read grammar file /x/g: no file");

    let (mut program, _) = launch(&["m", "g"]);
    tell(&mut program, Signal::ModelLoaded);
    assert!(tell(&mut program, Signal::GrammarRead("{}".to_string())).is_empty());
    let refusal = serde_json::from_str::<Vec<String>>("{}").unwrap_err();
    assert_eq!(
        error(&program),
        format!("grammar file must be a JSON array of strings: {refusal}")
    );

    let (mut program, _) = launch(&["m"]);
    tell(&mut program, Signal::ModelLoaded);
    assert!(tell(&mut program, Signal::RecognizerBuilt(false)).is_empty());
    assert_eq!(error(&program), "failed to create recognizer with grammar");
}

#[test]
fn signals_are_welcome_only_when_waited_for() {
    let (program, _) = launch(&["m", "g"]);
    assert!(program.is_welcome(&Signal::ModelLoaded));
    assert!(!program.is_welcome(&Signal::GrammarRead("[]".to_string())));
    assert!(!program.is_welcome(&Signal::RecognizerBuilt(true)));
    assert!(!program.is_welcome(&Signal::EndOfInput));
    assert!(!program.is_welcome(&start("one")));

    let mut program = running(&["m"]);
    assert!(!program.is_welcome(&Signal::ModelLoaded));
    assert!(program.is_welcome(&Signal::EndOfInput));
    tell(&mut program, chunk());
    // An event is taken through to its end first.
    assert!(!program.is_welcome(&Signal::EndOfInput));
}

#[test]
fn end_of_input_ends_the_program_well() {
    let mut program = running(&["m"]);
    assert!(tell(&mut program, Signal::EndOfInput).is_empty());
    assert!(matches!(program, Program::Ended(Ok(()))));
    assert!(!program.is_welcome(&Signal::EndOfInput));
    assert!(!program.is_welcome(&start("one")));
}

#[test]
fn session_start_is_noted_and_writes_one_credit() {
    let mut program = running(&["m"]);
    let tasks = tell(&mut program, start("0123456789"));
    assert!(matches!(&tasks[0], Task::NoteSession { short_id } if short_id == "01234567"));
    let events: Vec<&Task> = tasks.iter().filter(|t| writes(t)).collect();
    assert!(matches!(
        events.as_slice(),
        [Task::Act(Action::Grant { frames: 16, session_id })] if session_id.is_empty()
    ));
    // A start that names no session is not noted, but grants all the same.
    let tasks = tell(&mut program, Signal::Stage(Input::AudioStart(Json::Null)));
    assert!(!tasks.iter().any(|t| matches!(t, Task::NoteSession { .. })));
    assert_eq!(tasks.iter().filter(|t| writes(t)).count(), 1);
}

#[test]
fn session_ids_are_cut_between_characters_only() {
    let program = running(&["m"]);
    // The cut at byte 8 would go through the last character.
    assert!(!program.is_welcome(&start("abcdefg\u{e9}")));
    assert!(!program.is_welcome(&start("abcdefg\u{e9}hij")));
    // Here it falls right behind it.
    assert!(program.is_welcome(&start("abcdef\u{e9}")));
    assert!(program.is_welcome(&start("abcdef\u{e9}hij")));
    assert!(program.is_welcome(&start("\u{e9}")));
    assert!(program.is_welcome(&start("")));
    // Without sessions no id is cut.
    let mut program = running(&["m", "--lifecycle_mode", "continuous"]);
    assert!(tell(&mut program, start("abcdefg\u{e9}")).is_empty());
}

#[test]
fn every_result_of_a_run_is_written_in_order() {
    let mut program = running(&["m"]);
    let mut tasks = tell(&mut program, start("s"));
    for (text, confidence) in [("browser", 0.5), ("scroll", 0.25)] {
        tasks.extend(tell(&mut program, chunk()));
        tasks.extend(tell(&mut program, Signal::Stage(Input::Accepted(Decoding::Running))));
        tasks.extend(tell(&mut program, Signal::Stage(Input::Partial(text.to_string()))));
        tasks.extend(tell(&mut program, chunk()));
        tasks.extend(tell(&mut program, Signal::Stage(Input::Accepted(Decoding::Finalized))));
        tasks.extend(tell(&mut program, heard(text, confidence)));
    }
    tasks.extend(tell(&mut program, Signal::Stage(Input::AudioStop)));
    tasks.extend(tell(&mut program, heard("click", 0.75)));
    tasks.extend(tell(&mut program, start("t")));
    tasks.extend(tell(&mut program, Signal::Stage(Input::AudioStop)));
    let nothing = Signal::Stage(Input::Recognized(Recognition::Multiple(vec![])));
    tasks.extend(tell(&mut program, nothing));
    tasks.extend(tell(&mut program, Signal::EndOfInput));
    let sent: Vec<(String, f32)> = tasks
        .into_iter()
        .filter_map(|task| match task {
            Task::Act(Action::Send(t)) => Some((t.text, f32::from_bits(t.confidence.unwrap()))),
            _ => None,
        })
        .collect();
    let expected: Vec<(String, f32)> =
        [("browser", 0.5), ("scroll", 0.25), ("click", 0.75), ("", 0.0)]
            .iter()
            .map(|(text, confidence)| (text.to_string(), *confidence))
            .collect();
    assert_eq!(sent, expected);
}
