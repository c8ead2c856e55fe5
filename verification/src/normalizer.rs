//! Normalization: rewriting a token's display text without touching its kind
//! or its offsets. A normalizer is an ordered list of steps; the empty list
//! is the identity normalizer, and a list of normalizers composed in order is
//! itself a normalizer.

use vstd::prelude::*;
use crate::token::{SpecToken, Token};
use crate::unicode::{is_cjk, spec_is_cjk};

verus! {

/// What `str::to_lowercase` returns: the lowercase mapping of a text. It
/// depends on the characters of the text alone.
pub uninterp spec fn lower_of(s: Seq<char>) -> Seq<char>;

/// Relies on `str::to_lowercase`: the result depends on the characters of
/// the input alone.
#[verifier::external_body]
fn lowercase(s: &str) -> (r: String)
    ensures
        r@ == lower_of(s@),
{
    s.to_lowercase()
}

/// What `deunicode::deunicode` returns: the ASCII transliteration of a text.
/// It depends on the characters of the text alone.
pub uninterp spec fn deunicode_of(s: Seq<char>) -> Seq<char>;

/// Relies on `deunicode::deunicode`: the ASCII transliteration of a string
/// is a pure function of its characters.
#[verifier::external_body]
fn deunicode_str(s: &str) -> (r: String)
    ensures
        r@ == deunicode_of(s@),
{
    deunicode::deunicode(s)
}

/// One normalization step.
#[derive(Clone, Copy, Debug, PartialEq, Eq, Structural)]
pub enum NormalizerStep {
    /// Rewrite the word to its lowercase mapping.
    Lowercase,
    /// Rewrite the word to its ASCII transliteration. With `keep_cjk`, a word
    /// whose first character is CJK is left as it is, so that ideographs
    /// survive while stray half-width punctuation is still transliterated.
    Deunicode { keep_cjk: bool },
}

/// An ordered list of normalization steps, applied left to right. The empty
/// list leaves every token unchanged.
#[derive(Clone, Debug)]
pub struct Normalizer {
    pub steps: Vec<NormalizerStep>,
}

/// The word `step` rewrites `w` to.
pub open spec fn spec_step_word(step: NormalizerStep, w: Seq<char>) -> Seq<char> {
    match step {
        NormalizerStep::Lowercase => lower_of(w),
        NormalizerStep::Deunicode { keep_cjk } => {
            if keep_cjk && w.len() > 0 && spec_is_cjk(w[0]) {
                w
            } else {
                deunicode_of(w)
            }
        },
    }
}

/// The word that the steps, applied in order, rewrite `w` to.
pub open spec fn spec_norm_word(steps: Seq<NormalizerStep>, w: Seq<char>) -> Seq<char>
    decreases steps.len(),
{
    if steps.len() == 0 {
        w
    } else {
        spec_norm_word(steps.drop_first(), spec_step_word(steps[0], w))
    }
}

/// The token that a normalizer with the given steps turns `t` into: the word
/// is rewritten, the kind and the offsets stay.
pub open spec fn spec_normalize_token(steps: Seq<NormalizerStep>, t: SpecToken) -> SpecToken {
    SpecToken { word: spec_norm_word(steps, t.word), ..t }
}

impl Normalizer {
    /// The identity normalizer: no steps, every token is left unchanged.
    pub fn identity() -> (r: Normalizer)
        ensures
            r.steps@ == Seq::<NormalizerStep>::empty(),
    {
        Normalizer { steps: Vec::new() }
    }

    /// A normalizer applying the given steps in order.
    pub fn new(steps: Vec<NormalizerStep>) -> (r: Normalizer)
        ensures
            r.steps@ == steps@,
    {
        Normalizer { steps }
    }

    fn step_word(step: &NormalizerStep, w: String) -> (r: String)
        ensures
            r@ == spec_step_word(*step, w@),
    {
        match step {
            NormalizerStep::Lowercase => lowercase(w.as_str()),
            NormalizerStep::Deunicode { keep_cjk } => {
                let skip = *keep_cjk && w.as_str().unicode_len() > 0 && is_cjk(
                    w.as_str().get_char(0),
                );
                if skip {
                    w
                } else {
                    deunicode_str(w.as_str())
                }
            },
        }
    }

    /// The word that this normalizer rewrites `w` to.
    pub fn normalize_word(&self, w: String) -> (r: String)
        ensures
            r@ == spec_norm_word(self.steps@, w@),
    {
        let mut acc = w;
        let ghost w0 = acc@;
        let mut i: usize = 0;
        let n = self.steps.len();
        proof {
            assert(self.steps@.skip(0) =~= self.steps@);
        }
        while i < n
            invariant
                0 <= i <= n,
                n == self.steps@.len(),
                spec_norm_word(self.steps@, w0) == spec_norm_word(self.steps@.skip(i as int), acc@),
            decreases n - i,
        {
            proof {
                assert(self.steps@.skip(i as int).drop_first() =~= self.steps@.skip(i + 1));
                assert(self.steps@.skip(i as int)[0] == self.steps@[i as int]);
            }
            acc = Self::step_word(&self.steps[i], acc);
            i += 1;
        }
        proof {
            assert(self.steps@.skip(n as int) =~= Seq::<NormalizerStep>::empty());
        }
        acc
    }

    /// Rewrites the token's word; its kind and offsets are left untouched.
    pub fn normalize(&self, token: Token) -> (r: Token)
        ensures
            r@ == spec_normalize_token(self.steps@, token@),
    {
        let Token { kind, word, byte_start, byte_end, char_start, char_end } = token;
        let word = self.normalize_word(word);
        Token { kind, word, byte_start, byte_end, char_start, char_end }
    }
}

} // verus!
