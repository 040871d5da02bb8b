use vstd::prelude::*;
use vstd::utf8::encode_utf8;

use crate::compound::{self, is_compound};
use crate::dictionary::Dictionary;
use crate::mask::Span;

verus! {

/// The kind of problem that a lint reports.
#[derive(Debug, Clone, Copy, PartialEq, Eq, Structural)]
pub enum LintKind {
    Spelling,
    Capitalization,
    Formatting,
    Repetition,
    Readability,
    WordChoice,
    Style,
    Miscellaneous,
}

/// A problem found in a document: where it is, what kind it is, and what to tell the writer.
#[derive(Debug)]
pub struct Lint {
    pub span: Span,
    pub lint_kind: LintKind,
    pub message: String,
}

/// Calls `String::push`, which appends the character to the string.
#[verifier::external_body]
fn push_char(s: &mut String, c: char)
    ensures
        final(s)@ == old(s)@.push(c),
{
    s.push(c);
}

/// The text of a span of the document, as a string.
fn span_content_str(source: &[char], span: Span) -> (s: String)
    requires
        span.fits(source@.len() as int),
    ensures
        s@ == source@.subrange(span.start as int, span.end as int),
{
    let mut s = String::new();
    let mut i: usize = span.start;
    while i < span.end
        invariant
            span.start <= i <= span.end <= source@.len(),
            s@ == source@.subrange(span.start as int, i as int),
        decreases span.end - i,
    {
        push_char(&mut s, source[i]);
        i = i + 1;
        assert(s@ =~= source@.subrange(span.start as int, i as int));
    }
    s
}

/// A lint stays unless it is a spelling lint on a word that is a valid compound.
pub open spec fn keeps_lint(source: Seq<char>, words: Set<Seq<char>>, lint: Lint) -> bool {
    lint.lint_kind != LintKind::Spelling || !is_compound(
        source.subrange(lint.span.start as int, lint.span.end as int),
        words,
    )
}

/// The lints that the spell check keeps, in their order.
pub open spec fn kept_lints(source: Seq<char>, words: Set<Seq<char>>, lints: Seq<Lint>) -> Seq<
    Lint,
> {
    lints.filter(|l: Lint| keeps_lint(source, words, l))
}

/// A spell-checker that understands German compound words.
///
/// Takes the lints of the standard spell check and filters out false positives
/// for valid compound words (e.g., "Dampfschiff" = "Dampf" + "Schiff").
pub struct GermanSpellCheck {
    dict: Dictionary,
}

impl View for GermanSpellCheck {
    type V = Set<Seq<char>>;

    /// The words of its dictionary.
    closed spec fn view(&self) -> Set<Seq<char>> {
        self.dict@
    }
}

impl GermanSpellCheck {
    pub fn new(dictionary: Dictionary) -> (checker: Self)
        ensures
            checker@ == dictionary@,
    {
        GermanSpellCheck { dict: dictionary }
    }

    /// The lints of the standard spell check on `source`, without the spelling lints whose
    /// word is a valid compound; the other lints stay, in their order.
    pub fn lint(&self, source: &[char], lints: Vec<Lint>) -> (res: Vec<Lint>)
        requires
            forall|i: int| 0 <= i < lints@.len() ==> (#[trigger] lints@[i]).span.fits(source@.len() as int),
        ensures
            res@ == kept_lints(source@, self@, lints@),
    {
        let ghost pred = |l: Lint| keeps_lint(source@, self@, l);
        let ghost all = lints@;
        let mut kept: Vec<Lint> = Vec::new();
        for lint in it: lints.into_iter()
            invariant
                it.seq() == all,
                pred == (|l: Lint| keeps_lint(source@, self@, l)),
                forall|i: int| 0 <= i < all.len() ==> (#[trigger] all[i]).span.fits(source@.len() as int),
                kept@ == all.take(it.index() as int).filter(pred),
        {
            let ghost idx = it.index();
            let is_spelling = match lint.lint_kind {
                LintKind::Spelling => true,
                _ => false,
            };
            let keep = if !is_spelling {
                true
            } else {
                let word_str = span_content_str(source, lint.span);
                let word = word_str.as_str();
                assert(word@ == source@.subrange(lint.span.start as int, lint.span.end as int));
                let is_compound_word = compound::is_valid_compound(word, &self.dict);
                assert(is_compound_word == is_compound(word@, self@));
                !is_compound_word
            };
            assert(keep == pred(lint));
            proof {
                reveal(Seq::filter);
                assert(all.take(idx + 1).drop_last() =~= all.take(idx as int));
            }
            if keep {
                kept.push(lint);
            }
        }
        proof {
            assert(all.take(all.len() as int) =~= all);
        }
        kept
    }

    pub fn description(&self) -> (d: &'static str)
        ensures
            d@ == "Looks and provides corrections for misspelled words, with German compound word support."@,
    {
        "Looks and provides corrections for misspelled words, with German compound word support."
    }
}

/// The spell check only removes lints: every lint it returns was given to it, and is not a
/// spelling lint on a compound; every given lint that is not such a lint (every lint of
/// another kind, in particular) is returned.
pub proof fn lint_removes_only_compound_spelling(
    source: Seq<char>,
    words: Set<Seq<char>>,
    lints: Seq<Lint>,
)
    ensures
        forall|l: Lint| #[trigger]
            kept_lints(source, words, lints).contains(l) ==> {
                &&& lints.contains(l)
                &&& keeps_lint(source, words, l)
            },
        forall|i: int|
            0 <= i < lints.len() && keeps_lint(source, words, #[trigger] lints[i])
                ==> kept_lints(source, words, lints).contains(lints[i]),
        forall|i: int|
            0 <= i < lints.len() && (#[trigger] lints[i]).lint_kind != LintKind::Spelling
                ==> kept_lints(source, words, lints).contains(lints[i]),
        kept_lints(source, words, lints).len() <= lints.len(),
{
    let pred = |l: Lint| keeps_lint(source, words, l);
    assert(kept_lints(source, words, lints) == lints.filter(pred));
    assert forall|l: Lint| #[trigger] kept_lints(source, words, lints).contains(l) implies {
        &&& lints.contains(l)
        &&& keeps_lint(source, words, l)
    } by {
        lints.lemma_filter_contains_rev(pred, l);
        let k = choose|k: int| 0 <= k < lints.filter(pred).len() && lints.filter(pred)[k] == l;
        lints.lemma_filter_pred(pred, k);
    }
    assert forall|i: int| 0 <= i < lints.len() && keeps_lint(source, words, #[trigger] lints[i])
        implies kept_lints(source, words, lints).contains(lints[i]) by {
        lints.lemma_filter_contains(pred, i);
    }
    lints.lemma_filter_len(pred);
}

/// A spelling lint whose word is not a valid compound stays flagged (every one on a word
/// of fewer than four bytes, in particular), and a given lint is dropped only when it is a
/// spelling lint on a valid compound.
pub proof fn non_compound_spelling_lints_stay(
    source: Seq<char>,
    words: Set<Seq<char>>,
    lints: Seq<Lint>,
)
    ensures
        forall|i: int|
            0 <= i < lints.len() && (#[trigger] lints[i]).lint_kind == LintKind::Spelling
                && !is_compound(
                source.subrange(lints[i].span.start as int, lints[i].span.end as int),
                words,
            ) ==> kept_lints(source, words, lints).contains(lints[i]),
        forall|i: int|
            0 <= i < lints.len() && (#[trigger] lints[i]).lint_kind == LintKind::Spelling
                && encode_utf8(
                source.subrange(lints[i].span.start as int, lints[i].span.end as int),
            ).len() < 4 ==> kept_lints(source, words, lints).contains(lints[i]),
        forall|i: int|
            0 <= i < lints.len() && !kept_lints(source, words, lints).contains(#[trigger] lints[i])
                ==> lints[i].lint_kind == LintKind::Spelling && is_compound(
                source.subrange(lints[i].span.start as int, lints[i].span.end as int),
                words,
            ),
{
    let pred = |l: Lint| keeps_lint(source, words, l);
    assert(kept_lints(source, words, lints) == lints.filter(pred));
    assert forall|i: int| 0 <= i < lints.len() && keeps_lint(source, words, #[trigger] lints[i])
        implies kept_lints(source, words, lints).contains(lints[i]) by {
        lints.lemma_filter_contains(pred, i);
    }
}

} // verus!
