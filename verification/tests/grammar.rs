use vosk_commands::grammar::{
    canonicalize, collect_strings, contains_text, insert_sorted, list_lacking, read_update_words,
    sorts_before, startup_grammar, startup_list,
};
use vosk_commands::json::Json;

fn w(items: &[&str]) -> Vec<String> {
    items.iter().map(|s| s.to_string()).collect()
}

fn text(s: &str) -> Json {
    Json::Text(s.to_string())
}

#[test]
fn canonical_form_is_sorted_and_deduplicated() {
    assert_eq!(
        canonicalize(w(&["over", "dismiss", "over", "[unk]", "a", "dismiss"])),
        w(&["[unk]", "a", "dismiss", "over"]),
    );
    assert_eq!(canonicalize(vec![]), w(&[]));
}

#[test]
fn canonical_form_agrees_with_sort_and_dedup() {
    let lists = [
        w(&["b", "a", "c", "a"]),
        w(&["é", "z", "e", "\u{ffff}", "\u{10000}", "", "zz"]),
        w(&["ab", "a", "abc", "B", "b", "[unk]", "[unk]"]),
    ];
    for list in lists {
        let mut expected = list.clone();
        expected.sort();
        expected.dedup();
        assert_eq!(canonicalize(list), expected);
    }
}

#[test]
fn order_and_repetition_do_not_make_a_list_new() {
    assert_eq!(canonicalize(w(&["x", "y", "x"])), canonicalize(w(&["y", "x"])));
    assert_ne!(canonicalize(w(&["x", "y"])), canonicalize(w(&["y"])));
    let sorted = canonicalize(w(&["q", "p"]));
    assert_eq!(canonicalize(sorted.clone()), sorted);
}

#[test]
fn strings_order_by_bytes() {
    for (a, b) in [("a", "b"), ("a", "ab"), ("", "a"), ("Z", "a"), ("\u{ffff}", "\u{10000}")] {
        assert!(sorts_before(a, b));
        assert!(!sorts_before(b, a));
        assert!(!sorts_before(a, a));
        assert_eq!(a < b, sorts_before(a, b));
    }
}

#[test]
fn insertion_keeps_the_place_of_others() {
    let mut list = w(&["a", "c"]);
    insert_sorted(&mut list, "b".to_string());
    insert_sorted(&mut list, "b".to_string());
    insert_sorted(&mut list, "d".to_string());
    insert_sorted(&mut list, "".to_string());
    assert_eq!(list, w(&["", "a", "b", "c", "d"]));
}

#[test]
fn update_brings_its_strings_and_the_marker() {
    let data = Json::Object(vec![(
        "words".to_string(),
        Json::Array(vec![
            text("scroll"),
            Json::Unsigned(7),
            text("click"),
            Json::Null,
            text("scroll"),
        ]),
    )]);
    assert_eq!(read_update_words(&data), Some(w(&["[unk]", "click", "scroll"])));
}

#[test]
fn update_with_an_empty_array_still_has_the_marker() {
    let data = Json::Object(vec![("words".to_string(), Json::Array(vec![]))]);
    assert_eq!(read_update_words(&data), Some(w(&["[unk]"])));
}

#[test]
fn update_without_a_word_array_brings_nothing() {
    assert_eq!(read_update_words(&Json::Object(vec![])), None);
    assert_eq!(read_update_words(&Json::Null), None);
    let data = Json::Object(vec![("words".to_string(), text("click"))]);
    assert_eq!(read_update_words(&data), None);
}

#[test]
fn only_strings_are_collected() {
    let items = vec![Json::Bool(true), text("a"), Json::OtherNumber, text("a")];
    assert_eq!(collect_strings(&items), w(&["a", "a"]));
}

#[test]
fn difference_lists_what_came_and_went() {
    let old = w(&["[unk]", "a", "b"]);
    let new = w(&["[unk]", "b", "c", "d"]);
    let added = list_lacking(&new, &old);
    let removed = list_lacking(&old, &new);
    assert_eq!(added, w(&["c", "d"]));
    assert_eq!(removed, w(&["a"]));
    let mut rebuilt: Vec<String> =
        old.iter().filter(|x| !contains_text(&removed, x)).cloned().collect();
    rebuilt.extend(added);
    assert_eq!(canonicalize(rebuilt), new);
}

#[test]
fn startup_grammar_is_the_files_list() {
    assert_eq!(
        startup_grammar(Some(" [\"browser\", \"scroll\", \"a\\u00e9\"] ")),
        Ok(w(&["browser", "scroll", "aé"])),
    );
    assert_eq!(startup_grammar(Some("[]")), Ok(w(&[])));
}

#[test]
fn startup_grammar_defaults_to_the_marker() {
    assert_eq!(startup_grammar(None), Ok(w(&["[unk]"])));
}

#[test]
fn startup_grammar_refuses_anything_else() {
    for bad in ["{}", "[1]", "[\"a\"", "[\"a\"] x", ""] {
        let error = serde_json::from_str::<Vec<String>>(bad).unwrap_err().to_string();
        let message = startup_grammar(Some(bad)).unwrap_err();
        assert_eq!(message, format!("grammar file must be a JSON array of strings: {}", error));
    }
}

#[test]
fn startup_list_follows_the_parsed_file() {
    assert_eq!(startup_list(Some(Ok(w(&["b", "a", "b"])))), Ok(w(&["b", "a", "b"])));
    assert_eq!(
        startup_list(Some(Err("broken".to_string()))),
        Err("grammar file must be a JSON array of strings: broken".to_string()),
    );
    assert_eq!(startup_list(None), Ok(w(&["[unk]"])));
}
