use harper::Language;

#[test]
fn parses_language_names_loosely() {
    for name in ["english", "English", "EN", "en-US", "en-gb", "en-au", "en-ca", "en-in"] {
        assert_eq!(Language::from_str_loose(name), Some(Language::English), "{name}");
    }
    for name in ["german", "DE", "de-DE", "de-at", "de-ch", "Deutsch"] {
        assert_eq!(Language::from_str_loose(name), Some(Language::German), "{name}");
    }
}

#[test]
fn rejects_unknown_language_names() {
    for name in ["", "fr", "en_us", " english", "germanic", "deu"] {
        assert_eq!(Language::from_str_loose(name), None, "{name}");
    }
}

#[test]
fn lowercase_lookup_is_exact() {
    assert_eq!(Language::from_lowercase_name("en"), Some(Language::English));
    assert_eq!(Language::from_lowercase_name("deutsch"), Some(Language::German));
    assert_eq!(Language::from_lowercase_name("EN"), None);
}

#[test]
fn defaults_to_english() {
    assert_eq!(Language::default(), Language::English);
}
