use vstd::prelude::*;

use crate::chars::{chars_eq_str, str_to_chars};

verus! {

/// The language Harper is checking.
///
/// Currently supports English and German. Defaults to English.
#[derive(Debug, Clone, Copy, PartialEq, Eq, Hash, Structural)]
pub enum Language {
    English,
    German,
}

impl Default for Language {
    fn default() -> (lang: Self)
        ensures
            lang == Language::English,
    {
        Language::English
    }
}

/// What `str::to_lowercase` gives for a string: the Unicode lowercase mapping
/// of each of its characters, concatenated.
pub uninterp spec fn unicode_lowercase(s: Seq<char>) -> Seq<char>;

/// Calls `str::to_lowercase`. The contract says only that the result is the
/// lowercase form of the argument, as a function of the argument alone.
#[verifier::external_body]
fn to_lowercase(s: &str) -> (res: String)
    ensures
        res@ == unicode_lowercase(s@),
{
    s.to_lowercase()
}

/// The names and abbreviations (already lowercased) under which English is known.
pub open spec fn is_english_name(name: Seq<char>) -> bool {
    ||| name == "english"@
    ||| name == "en"@
    ||| name == "en-us"@
    ||| name == "en-gb"@
    ||| name == "en-au"@
    ||| name == "en-ca"@
    ||| name == "en-in"@
}

/// The names and abbreviations (already lowercased) under which German is known.
pub open spec fn is_german_name(name: Seq<char>) -> bool {
    ||| name == "german"@
    ||| name == "de"@
    ||| name == "de-de"@
    ||| name == "de-at"@
    ||| name == "de-ch"@
    ||| name == "deutsch"@
}

/// The language that a lowercased name stands for, if any.
pub open spec fn language_of_name(name: Seq<char>) -> Option<Language> {
    if is_english_name(name) {
        Some(Language::English)
    } else if is_german_name(name) {
        Some(Language::German)
    } else {
        None
    }
}

impl Language {
    /// Parse a language from a string abbreviation or name.
    pub fn from_str_loose(s: &str) -> (res: Option<Self>)
        ensures
            res == language_of_name(unicode_lowercase(s@)),
    {
        let lower = to_lowercase(s);
        Self::from_lowercase_name(lower.as_str())
    }

    /// Look up a language by a name or abbreviation that is already in lowercase.
    pub fn from_lowercase_name(name: &str) -> (res: Option<Self>)
        ensures
            res == language_of_name(name@),
    {
        let name = str_to_chars(name);
        let name = name.as_slice();
        if chars_eq_str(name, "english") || chars_eq_str(name, "en") || chars_eq_str(name, "en-us")
            || chars_eq_str(name, "en-gb") || chars_eq_str(name, "en-au") || chars_eq_str(
            name,
            "en-ca",
        ) || chars_eq_str(name, "en-in") {
            Some(Language::English)
        } else if chars_eq_str(name, "german") || chars_eq_str(name, "de") || chars_eq_str(
            name,
            "de-de",
        ) || chars_eq_str(name, "de-at") || chars_eq_str(name, "de-ch") || chars_eq_str(
            name,
            "deutsch",
        ) {
            Some(Language::German)
        } else {
            None
        }
    }
}

/// Strings with the same lowercase form name the same language, if any: the parse
/// looks only at the lowercase form.
pub proof fn same_lowercase_same_language(a: Seq<char>, b: Seq<char>)
    requires
        unicode_lowercase(a) == unicode_lowercase(b),
    ensures
        language_of_name(unicode_lowercase(a)) == language_of_name(unicode_lowercase(b)),
{
}

/// No name stands for both languages: every English name starts with `e`, every German
/// one with `g` or `d`.
pub proof fn names_are_unambiguous(name: Seq<char>)
    ensures
        !(is_english_name(name) && is_german_name(name)),
{
    reveal_strlit("english");
    reveal_strlit("en");
    reveal_strlit("en-us");
    reveal_strlit("en-gb");
    reveal_strlit("en-au");
    reveal_strlit("en-ca");
    reveal_strlit("en-in");
    reveal_strlit("german");
    reveal_strlit("de");
    reveal_strlit("de-de");
    reveal_strlit("de-at");
    reveal_strlit("de-ch");
    reveal_strlit("deutsch");
    if is_english_name(name) {
        assert(name.len() > 0 && name[0] == 'e');
    }
    if is_german_name(name) {
        assert(name.len() > 0 && (name[0] == 'g' || name[0] == 'd'));
    }
}

/// The names are exactly the listed ones: "english", "en", "en-us", "en-gb", "en-au",
/// "en-ca" and "en-in" name English; "german", "de", "de-de", "de-at", "de-ch" and
/// "deutsch" name German; every other (lowercase) name names no language.
pub proof fn language_names_are_the_listed_ones(name: Seq<char>)
    ensures
        language_of_name(name) == Some(Language::English) <==> {
            ||| name == "english"@
            ||| name == "en"@
            ||| name == "en-us"@
            ||| name == "en-gb"@
            ||| name == "en-au"@
            ||| name == "en-ca"@
            ||| name == "en-in"@
        },
        language_of_name(name) == Some(Language::German) <==> {
            ||| name == "german"@
            ||| name == "de"@
            ||| name == "de-de"@
            ||| name == "de-at"@
            ||| name == "de-ch"@
            ||| name == "deutsch"@
        },
        language_of_name(name) is None <==> !{
            ||| name == "english"@
            ||| name == "en"@
            ||| name == "en-us"@
            ||| name == "en-gb"@
            ||| name == "en-au"@
            ||| name == "en-ca"@
            ||| name == "en-in"@
            ||| name == "german"@
            ||| name == "de"@
            ||| name == "de-de"@
            ||| name == "de-at"@
            ||| name == "de-ch"@
            ||| name == "deutsch"@
        },
{
    names_are_unambiguous(name);
}

} // verus!
