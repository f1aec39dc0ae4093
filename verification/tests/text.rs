use vosk_commands::text::{
    can_shorten, characters, same_list, same_text, shorten, split_words, strip_unk, trim, unk_word,
    white_space,
};

#[test]
fn white_space_is_the_unicode_property() {
    let mut count = 0;
    for n in 0..=0x10ffffu32 {
        if let Some(c) = char::from_u32(n) {
            assert_eq!(white_space(c), c.is_whitespace(), "{:x}", n);
            if white_space(c) {
                count += 1;
            }
        }
    }
    assert_eq!(count, 25);
}

#[test]
fn strips_markers_and_closes_gaps() {
    assert_eq!(strip_unk("open [unk] browser"), "open browser");
    assert_eq!(strip_unk("[unk] [unk]"), "");
    assert_eq!(strip_unk("  click\t now\u{3000}[unk]\n"), "click now");
    assert_eq!(strip_unk(""), "");
    assert_eq!(strip_unk("[unk]x"), "[unk]x");
}

#[test]
fn stripping_agrees_with_the_standard_library() {
    for text in [
        "", " ", "a", "a b", " a  b ", "[unk]", "x[unk]", "[unk] [unk]a [unk]", "é [unk] ß",
        "\u{85}a\u{2028}b\u{a0}[unk]",
    ] {
        let expected = text
            .split_whitespace()
            .filter(|w| *w != "[unk]")
            .collect::<Vec<_>>()
            .join(" ");
        assert_eq!(strip_unk(text), expected);
        assert_eq!(trim(text), text.trim());
        let parts: Vec<String> = text.split_whitespace().map(String::from).collect();
        assert_eq!(split_words(text), parts);
    }
}

#[test]
fn stripping_twice_changes_nothing() {
    let once = strip_unk(" go  [unk] to [unk]  page ");
    assert_eq!(once, "go to page");
    assert_eq!(strip_unk(&once), once);
    assert_eq!(strip_unk(trim(" go  [unk] to [unk]  page ")), once);
}

#[test]
fn stripping_keeps_the_other_words() {
    let text = "\ta [unk] b  [unk]c ";
    let kept: Vec<String> =
        split_words(text).into_iter().filter(|w| w != "[unk]").collect();
    assert_eq!(split_words(&strip_unk(text)), kept);
}

#[test]
fn joined_words_split_again() {
    let parts = vec!["one".to_string(), "two".to_string(), "drei".to_string()];
    assert_eq!(split_words(&parts.join(" ")), parts);
}

#[test]
fn texts_compare_by_characters() {
    assert!(same_text("é", "\u{e9}"));
    assert!(!same_text("e", "é"));
    assert!(!same_text("ab", "a"));
    assert!(same_text("", ""));
    assert_eq!(characters("aé"), vec!['a', 'é']);
    assert_eq!(unk_word(), "[unk]");
}

#[test]
fn lists_compare_in_order() {
    let a = vec!["a".to_string(), "b".to_string()];
    let b = vec!["b".to_string(), "a".to_string()];
    assert!(same_list(&a, &a));
    assert!(!same_list(&a, &b));
    assert!(!same_list(&a, &a[..1]));
}

#[test]
fn marker_between_two_texts_makes_no_difference() {
    for (a, b) in [("go", "left"), ("", "left"), ("go ", ""), ("x[unk]", "[unk] y"), ("", "")] {
        let with = strip_unk(&format!("{a} [unk] {b}"));
        assert_eq!(with, strip_unk(&format!("{a} {b}")));
    }
    assert_eq!(strip_unk("go [unk] left"), "go left");
}

#[test]
fn short_form_is_the_first_eight_bytes() {
    assert_eq!(shorten("0123456789"), "01234567");
    assert_eq!(shorten("01234567"), "01234567");
    assert_eq!(shorten("0123"), "0123");
    assert_eq!(shorten(""), "");
    assert_eq!(shorten("abcdefé and more"), "abcdefé");
    for text in ["", "ascii only", "abcdefgé", "abcdefé", "éééé", "aéééé", "日本語", "日本"] {
        let end = 8.min(text.len());
        assert_eq!(can_shorten(text), text.is_char_boundary(end), "{}", text);
        if can_shorten(text) {
            assert_eq!(shorten(text), &text[..end]);
        }
    }
    assert!(!can_shorten("abcdefgé"));
}
