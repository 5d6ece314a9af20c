//! Fuzzy scoring of search text, done by the `nucleo-matcher` crate.
use vstd::prelude::*;
use nucleo_matcher::Matcher;
use vstd::utf8::encode_utf8;

verus! {

/// The matcher of `nucleo-matcher`, which holds its scratch memory.
#[verifier::external_type_specification]
#[verifier::external_body]
pub struct ExMatcher(Matcher);

/// The score of `haystack` for the search `query`, as `nucleo-matcher`
/// computes it with its default configuration and a pattern of fuzzy atoms
/// that ignores case and normalizes letters (`None` when it does not
/// match).
pub uninterp spec fn fuzzy_score(query: Seq<char>, haystack: Seq<char>) -> Option<u32>;

/// A matcher in its default configuration. Its matcher is private and made
/// only by `Scorer::new`; scoring sets the case and normalization settings
/// before each match and changes no other setting, so every `Scorer`
/// scores with the default configuration.
pub struct Scorer {
    matcher: Matcher,
}

/// `Matcher::new(Config::DEFAULT)`.
#[verifier::external_body]
fn new_matcher() -> Matcher {
    Matcher::new(nucleo_matcher::Config::DEFAULT)
}

/// `Pattern::new(query, CaseMatching::Ignore, Normalization::Smart,
/// AtomKind::Fuzzy).score(haystack, matcher)` with the scorer's matcher,
/// which is in the default configuration. The result depends on the two
/// texts alone; a pattern without atoms (an empty query) scores every
/// haystack 0. The matcher asserts that the haystack it scores has at most
/// `u32::MAX` units, and an ASCII haystack (or one whose graphemes all
/// start with an ASCII character) is scored byte by byte, so the UTF-8
/// length is bounded. The pattern adds its atoms' `u16` scores in a `u32`;
/// a query of at most 65536 characters has at most 32768 atoms, whose sum
/// fits.
#[verifier::external_body]
fn pattern_score(scorer: &mut Scorer, query: &str, haystack: &str) -> (r: Option<u32>)
    requires
        encode_utf8(haystack@).len() <= 0xffff_ffff,
        query@.len() <= 0x1_0000,
    ensures
        r == fuzzy_score(query@, haystack@),
        query@.len() == 0 ==> r == Some(0u32),
{
    let pattern = nucleo_matcher::pattern::Pattern::new(
        query,
        nucleo_matcher::pattern::CaseMatching::Ignore,
        nucleo_matcher::pattern::Normalization::Smart,
        nucleo_matcher::pattern::AtomKind::Fuzzy,
    );
    let mut buffer = Vec::new();
    pattern.score(nucleo_matcher::Utf32Str::new(haystack, &mut buffer), &mut scorer.matcher)
}

impl Scorer {
    /// A scorer in the default configuration.
    pub fn new() -> (r: Scorer) {
        Scorer { matcher: new_matcher() }
    }

    /// The score of `haystack` for `query` (see `fuzzy_score`).
    pub fn score(&mut self, query: &str, haystack: &str) -> (r: Option<u32>)
        requires
            encode_utf8(haystack@).len() <= 0xffff_ffff,
            query@.len() <= 0x1_0000,
        ensures
            r == fuzzy_score(query@, haystack@),
            query@.len() == 0 ==> r == Some(0u32),
    {
        pattern_score(self, query, haystack)
    }
}

} // verus!
