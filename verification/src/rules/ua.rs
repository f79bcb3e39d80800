//! User-Agent heuristics: a configurable list of words that give a tool away.

use crate::text::{self, cat2};
use aho_corasick::{AhoCorasick, AhoCorasickBuilder, MatchKind};
use vstd::prelude::*;

verus! {

/// `aho_corasick::AhoCorasick`, a collection of words that are searched for together.
#[verifier::external_type_specification]
#[verifier::external_body]
pub struct ExAhoCorasick(AhoCorasick);

/// `aho_corasick::BuildError`.
#[verifier::external_type_specification]
#[verifier::external_body]
pub struct ExBuildError(aho_corasick::BuildError);

/// The words that an automaton was built from.
pub uninterp spec fn words_of(ac: AhoCorasick) -> Seq<Seq<char>>;

/// Whether an automaton takes ASCII letters of either case as equal and searches a text from
/// every place in it.
pub uninterp spec fn folds_case(ac: AhoCorasick) -> bool;

/// Whether some word of the list occurs in a text, whatever the case of ASCII letters.
pub open spec fn some_word_occurs(words: Seq<Seq<char>>, s: Seq<char>) -> bool {
    exists|i: int|
        0 <= i < words.len() && text::has_text(text::lower_text(s), text::lower_text(#[trigger] words[i]))
}

/// `AhoCorasickBuilder::build`, with ASCII letters of either case taken as equal and, as the
/// builder has it by default, for searches that start anywhere. The automaton holds the given
/// words and is of that kind. Whether the call succeeds is left open: there is a limit on the
/// size.
#[verifier::external_body]
fn build_words(words: &Vec<String>) -> (r: Result<AhoCorasick, aho_corasick::BuildError>)
    ensures
        r matches Ok(ac) ==> words_of(ac) == words.deep_view() && folds_case(ac),
{
    AhoCorasickBuilder::new().ascii_case_insensitive(true).match_kind(MatchKind::LeftmostFirst).build(words)
}

/// `AhoCorasick::is_match`: whether some word occurs. An automaton of another kind can tell cases
/// apart, or panic here because it only searches from the start of a text.
#[verifier::external_body]
fn some_word(ac: &AhoCorasick, s: &str) -> (r: bool)
    requires
        folds_case(*ac),
    ensures
        r == some_word_occurs(words_of(*ac), s@),
{
    ac.is_match(s)
}

/// The text of an error of the builder.
pub uninterp spec fn error_text(e: aho_corasick::BuildError) -> Seq<char>;

/// `to_string` of a `BuildError`. The contract names the text, which depends on the error alone.
#[verifier::external_body]
fn describe_error(e: &aho_corasick::BuildError) -> (r: String)
    ensures
        r@ == error_text(*e),
{
    e.to_string()
}

/// The message for a list of words that could not be turned into a scanner.
pub open spec fn build_message(e: aho_corasick::BuildError) -> Seq<char> {
    "ua scanner build: "@ + error_text(e)
}

/// The list of words could not be turned into a scanner.
#[derive(Debug)]
pub struct UaError {
    pub message: String,
}

pub struct UaScanner {
    ac: Option<AhoCorasick>,
}

impl UaScanner {
    #[verifier::type_invariant]
    closed spec fn inv(self) -> bool {
        self.ac matches Some(ac) ==> folds_case(ac)
    }

    /// The words that are looked for.
    pub closed spec fn words(&self) -> Seq<Seq<char>> {
        match self.ac {
            Some(ac) => words_of(ac),
            None => seq![],
        }
    }

    /// A scanner for a list of words; an empty list needs no automaton and never fails.
    pub fn new(substrings: &Vec<String>) -> (r: Result<UaScanner, UaError>)
        ensures
            r matches Ok(s) ==> s.words() == substrings.deep_view(),
            substrings@.len() == 0 ==> r is Ok,
            r matches Err(e) ==> exists|x: aho_corasick::BuildError| e.message@ == #[trigger] build_message(x),
    {
        if substrings.len() == 0 {
            let s = UaScanner { ac: None };
            assert(s.words() =~= substrings.deep_view());
            return Ok(s);
        }
        UaScanner::of_outcome(build_words(substrings))
    }

    /// What the outcome of the builder comes to: the scanner, or its error with the text of the
    /// fault.
    pub fn of_outcome(outcome: Result<AhoCorasick, aho_corasick::BuildError>) -> (r: Result<UaScanner, UaError>)
        requires
            outcome matches Ok(ac) ==> folds_case(ac),
        ensures
            outcome matches Ok(ac) ==> (r matches Ok(s) && s.words() == words_of(ac)),
            outcome matches Err(x) ==> (r matches Err(e) && e.message@ == build_message(x)),
    {
        match outcome {
            Ok(ac) => Ok(UaScanner { ac: Some(ac) }),
            Err(x) => Err(UaError { message: cat2("ua scanner build: ", describe_error(&x).as_str()) }),
        }
    }

    pub fn is_suspicious(&self, ua: &str) -> (r: bool)
        ensures
            r == some_word_occurs(self.words(), ua@),
    {
        proof {
            use_type_invariant(self);
        }
        match &self.ac {
            Some(ac) => some_word(ac, ua),
            None => false,
        }
    }
}

// ---------------------------------------------------------------------------
// Laws
// ---------------------------------------------------------------------------

/// A word is found wherever it stands and in whatever case, and a list finds what one of its parts
/// finds; no words find nothing.
pub proof fn lemma_word_found(a: Seq<Seq<char>>, b: Seq<Seq<char>>, word: Seq<char>, s: Seq<char>)
    ensures
        some_word_occurs(a + b, s) <==> some_word_occurs(a, s) || some_word_occurs(b, s),
        some_word_occurs(seq![word], s) <==> text::has_text(text::lower_text(s), text::lower_text(word)),
        !some_word_occurs(seq![], s),
{
    let c = a + b;
    if some_word_occurs(a, s) {
        let i = choose|i: int|
            0 <= i < a.len() && text::has_text(text::lower_text(s), text::lower_text(#[trigger] a[i]));
        assert(text::has_text(text::lower_text(s), text::lower_text(c[i])));
    }
    if some_word_occurs(b, s) {
        let i = choose|i: int|
            0 <= i < b.len() && text::has_text(text::lower_text(s), text::lower_text(#[trigger] b[i]));
        assert(text::has_text(text::lower_text(s), text::lower_text(c[a.len() + i])));
    }
    if some_word_occurs(c, s) {
        let i = choose|i: int|
            0 <= i < c.len() && text::has_text(text::lower_text(s), text::lower_text(#[trigger] c[i]));
        if i < a.len() {
            assert(text::has_text(text::lower_text(s), text::lower_text(a[i])));
        } else {
            assert(text::has_text(text::lower_text(s), text::lower_text(b[i - a.len()])));
        }
    }
    if text::has_text(text::lower_text(s), text::lower_text(word)) {
        assert(text::has_text(text::lower_text(s), text::lower_text(seq![word][0])));
    }
}

} // verus!
