//! Token classification: rewriting word tokens as stop words by membership
//! lookup in a compact, immutable, sorted set of byte strings. The set comes
//! from an outside crate; lookup cost is proportional to the token's length,
//! independent of the set's size.

use vstd::prelude::*;
use crate::token::{SpecToken, Token, TokenKind};

verus! {

#[verifier::external_type_specification]
#[verifier::external_body]
#[verifier::reject_recursive_types(D)]
pub struct ExFstSet<D>(fst::Set<D>);

/// The texts held in a stop-word set: the character sequences whose UTF-8
/// encodings are keys of the set.
pub uninterp spec fn stop_words_of(s: fst::Set<Vec<u8>>) -> Set<Seq<char>>;

/// Relies on `fst::Set::contains`: exact membership of the word's bytes
/// among the set's keys.
#[verifier::external_body]
fn fst_contains(s: &fst::Set<Vec<u8>>, word: &str) -> (r: bool)
    ensures
        r == stop_words_of(*s).contains(word@),
{
    s.contains(word.as_bytes())
}

/// The token that classification turns `t` into: a word found among the stop
/// words is re-tagged as a stop word, everything else passes unchanged.
pub open spec fn spec_classify(stops: Set<Seq<char>>, t: SpecToken) -> SpecToken {
    if t.kind == TokenKind::Word && stops.contains(t.word) {
        SpecToken { kind: TokenKind::StopWord, ..t }
    } else {
        t
    }
}

/// Reclassifies word tokens against a stop-word set.
pub struct TokenClassifier<'a> {
    pub stop_words: &'a fst::Set<Vec<u8>>,
}

impl<'a> TokenClassifier<'a> {
    /// A classifier bound to the given stop-word set.
    pub fn new(stop_words: &'a fst::Set<Vec<u8>>) -> (r: Self)
        ensures
            r.stop_words == stop_words,
    {
        TokenClassifier { stop_words }
    }

    /// Re-tags a word token as a stop word when its (normalized) text is in
    /// the set; the word and the offsets stay untouched, and separators pass
    /// through unmodified.
    pub fn classify(&self, token: Token) -> (r: Token)
        ensures
            r@ == spec_classify(stop_words_of(*self.stop_words), token@),
    {
        let is_stop = token.is_word() && fst_contains(self.stop_words, token.text());
        if is_stop {
            let Token { kind: _, word, byte_start, byte_end, char_start, char_end } = token;
            Token { kind: TokenKind::StopWord, word, byte_start, byte_end, char_start, char_end }
        } else {
            token
        }
    }
}

} // verus!
