use harper::dictionary::Dictionary;
use harper::german_spell_check::{GermanSpellCheck, Lint, LintKind};
use harper::mask::Span;
use harper::{is_valid_compound, try_decompress_dictionary};

/// A small German word list holding the root words the tests rely on.
fn german_words() -> Dictionary {
    let mut dict = Dictionary::new();
    for word in ["Dampf", "Schiff", "Haus", "Boot", "Wort", "gehen", "der", "die", "das"] {
        dict.add_word(word);
    }
    dict
}

fn spelling_lint(start: usize, end: usize) -> Lint {
    Lint {
        span: Span::new(start, end),
        lint_kind: LintKind::Spelling,
        message: "Did you mean something else?".to_string(),
    }
}

#[test]
fn compound_splitting() {
    let dict = german_words();

    // "Dampfschiff" = "Dampf" + "Schiff"
    assert!(
        is_valid_compound("Dampfschiff", &dict),
        "Dampfschiff should be recognized as a compound"
    );
}

#[test]
fn rejects_non_compound() {
    let dict = german_words();
    assert!(!is_valid_compound("Xyzplqm", &dict));
}

#[test]
fn does_not_flag_compound_words() {
    let dict = german_words();
    let linter = GermanSpellCheck::new(dict);

    let source: Vec<char> = "Dampfschiff".chars().collect();
    let lints = linter.lint(&source, vec![spelling_lint(0, 11)]);

    // Dampfschiff = Dampf + Schiff, should not be flagged
    let spelling_lints: Vec<_> = lints
        .iter()
        .filter(|l| l.lint_kind == LintKind::Spelling)
        .collect();
    assert!(
        spelling_lints.is_empty(),
        "Dampfschiff should not be flagged as misspelled (it's a compound word)"
    );
}

#[test]
fn still_flags_nonsense() {
    let dict = german_words();
    let linter = GermanSpellCheck::new(dict);

    let source: Vec<char> = "Xyzplqmwort".chars().collect();
    let lints = linter.lint(&source, vec![spelling_lint(0, 11)]);

    let spelling_lints: Vec<_> = lints
        .iter()
        .filter(|l| l.lint_kind == LintKind::Spelling)
        .collect();
    assert!(
        !spelling_lints.is_empty(),
        "Nonsense words should still be flagged"
    );
}

#[test]
fn short_words_are_never_compounds() {
    let mut dict = Dictionary::new();
    dict.add_word("Ab");
    dict.add_word("C");
    dict.add_word("Cd");
    // Three bytes: too short, although "Ab" + "C" would split it.
    assert!(!is_valid_compound("Abc", &dict));
    // Four bytes split into two dictionary words.
    assert!(is_valid_compound("AbCd", &dict));
}

#[test]
fn titlecased_suffix_is_tried() {
    let dict = german_words();
    assert!(is_valid_compound("Hausboot", &dict));
    assert!(is_valid_compound("HausBoot", &dict));
}

#[test]
fn single_dictionary_word_is_not_a_compound() {
    let dict = german_words();
    assert!(!is_valid_compound("Schiff", &dict));
}

#[test]
fn other_lints_are_kept_in_order() {
    let linter = GermanSpellCheck::new(german_words());
    let source: Vec<char> = "Dampfschiff Dampfschiff Xyzplqm".chars().collect();
    let style = Lint {
        span: Span::new(0, 11),
        lint_kind: LintKind::Style,
        message: "style".to_string(),
    };
    let lints = linter.lint(
        &source,
        vec![spelling_lint(0, 11), style, spelling_lint(12, 23), spelling_lint(24, 31)],
    );
    assert_eq!(lints.len(), 2);
    assert_eq!(lints[0].lint_kind, LintKind::Style);
    assert_eq!(lints[0].message, "style");
    assert_eq!(lints[1].lint_kind, LintKind::Spelling);
    assert_eq!(lints[1].span, Span::new(24, 31));
}

#[test]
fn description_mentions_compounds() {
    let linter = GermanSpellCheck::new(Dictionary::new());
    assert_eq!(
        linter.description(),
        "Looks and provides corrections for misspelled words, with German compound word support."
    );
}

#[test]
fn dictionary_holds_added_words() {
    let dict = german_words();
    assert!(dict.contains_word(&['H', 'a', 'u', 's']));
    assert!(dict.contains_str("gehen"));
    assert!(!dict.contains_word(&['X', 'y', 'z', 'p', 'l', 'q', 'm']));
    assert!(!dict.contains_str("haus"));
}

#[test]
fn decompresses_raw_zstd_frame() {
    // A zstd frame holding one raw block with the bytes "Haus\n".
    let frame = [0x28, 0xb5, 0x2f, 0xfd, 0x20, 0x05, 0x29, 0x00, 0x00, b'H', b'a', b'u', b's', b'\n'];
    assert_eq!(try_decompress_dictionary(&frame).as_deref(), Some("Haus\n"));
    assert_eq!(harper::decompress_dictionary(&frame), "Haus\n");
}

#[test]
fn refuses_bad_compressed_dictionary() {
    assert_eq!(try_decompress_dictionary(b"not zstd at all"), None);
    // A well-formed frame whose content is not UTF-8.
    let frame = [0x28, 0xb5, 0x2f, 0xfd, 0x20, 0x01, 0x09, 0x00, 0x00, 0xff];
    assert_eq!(try_decompress_dictionary(&frame), None);
}
