use vosk_commands::recognition::{
    extract_best_result, make_transcript, Recognition, TranscriptAlternative, FULL_CONFIDENCE,
    NO_CONFIDENCE,
};

fn alt(text: &str, confidence: f32) -> TranscriptAlternative {
    TranscriptAlternative { text: text.to_string(), confidence: confidence.to_bits() }
}

#[test]
fn confidence_constants() {
    assert_eq!(f32::from_bits(FULL_CONFIDENCE), 1.0);
    assert_eq!(f32::from_bits(NO_CONFIDENCE), 0.0);
}

#[test]
fn first_alternative_with_text_is_best() {
    let result = Recognition::Multiple(vec![
        alt(" [unk] ", 300.5),
        alt("open [unk] browser ", 200.25),
        alt("browser", 100.0),
    ]);
    let (text, confidence, alternatives) = extract_best_result(&result).unwrap();
    assert_eq!(text, "open browser");
    assert_eq!(confidence, 200.25f32.to_bits());
    assert_eq!(alternatives, vec![alt("open browser", 200.25), alt("browser", 100.0)]);
}

#[test]
fn confidence_of_the_first_where_no_alternative_has_text() {
    let result = Recognition::Multiple(vec![alt("[unk]", 7.5), alt("", 3.0)]);
    let (text, confidence, alternatives) = extract_best_result(&result).unwrap();
    assert_eq!(text, "");
    assert_eq!(confidence, 7.5f32.to_bits());
    assert_eq!(alternatives, vec![]);
}

#[test]
fn no_alternative_is_no_result() {
    assert!(extract_best_result(&Recognition::Multiple(vec![])).is_none());
}

#[test]
fn single_result_has_full_confidence() {
    let result = Recognition::Single(" click [unk]".to_string());
    let (text, confidence, alternatives) = extract_best_result(&result).unwrap();
    assert_eq!(text, "click");
    assert_eq!(confidence, FULL_CONFIDENCE);
    assert_eq!(alternatives, vec![]);
}

#[test]
fn transcript_with_text_drops_the_hint() {
    let result = Recognition::Multiple(vec![alt("click", 2.0)]);
    let t = make_transcript(&result, "s".to_string(), false, Some("cli".to_string()));
    assert_eq!(t.session_id, "s");
    assert_eq!(t.text, "click");
    assert!(!t.is_final);
    assert!(!t.partial);
    assert_eq!(t.confidence, Some(2.0f32.to_bits()));
    assert_eq!(t.alternatives, Some(vec![alt("click", 2.0)]));
    assert_eq!(t.last_partial, None);
}

#[test]
fn transcript_without_text_brings_the_hint() {
    let result = Recognition::Multiple(vec![]);
    let t = make_transcript(&result, "s".to_string(), true, Some("cli".to_string()));
    assert_eq!(t.text, "");
    assert!(t.is_final);
    assert_eq!(t.confidence, Some(NO_CONFIDENCE));
    assert_eq!(t.alternatives, None);
    assert_eq!(t.last_partial, Some("cli".to_string()));
}
