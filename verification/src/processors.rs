//! Pre-processing: rewriting the raw text before segmentation. A
//! pre-processor may only substitute characters in place, never insert,
//! delete or reorder them, so that every byte offset into the processed text
//! is the same byte offset into the original; reconstruction always indexes
//! into the original. Here the invariant is checked outright rather than left
//! to the discipline of each implementation: a rewrite that would break the
//! alignment is discarded and the original text is analyzed as it is.

use vstd::prelude::*;
use crate::unicode::{aligned, char_len, char_width};

verus! {

/// What `character_converter::traditional_to_simplified` returns: the text
/// with traditional Chinese characters mapped to their simplified
/// counterparts. The crate's mapping tables are fixed at build time, so the
/// result depends on the characters of the input alone.
pub uninterp spec fn simplified_of(s: Seq<char>) -> Seq<char>;

/// Relies on `character_converter::traditional_to_simplified`: the mapping
/// is a pure function of the input, built from the crate's own dictionary.
#[verifier::external_body]
fn traditional_to_simplified(s: &str) -> (r: String)
    ensures
        r@ == simplified_of(s@),
{
    character_converter::traditional_to_simplified(s).into_owned()
}

/// Whether the characters of `a` and `b` are byte-aligned.
fn check_aligned(a: &str, b: &str) -> (r: bool)
    ensures
        r == aligned(a@, b@),
{
    let n = a.unicode_len();
    if n != b.unicode_len() {
        return false;
    }
    let mut i: usize = 0;
    while i < n
        invariant
            0 <= i <= n,
            n == a@.len(),
            n == b@.len(),
            forall|j: int| 0 <= j < i ==> #[trigger] char_width(a@[j]) == char_width(b@[j]),
        decreases n - i,
    {
        if char_len(a.get_char(i)) != char_len(b.get_char(i)) {
            return false;
        }
        i += 1;
    }
    true
}

/// A stage rewriting the raw input text before segmentation, subject to the
/// byte-alignment invariant.
#[derive(Clone, Copy, Debug, PartialEq, Eq, Structural)]
pub enum PreProcessor {
    /// Leaves the text unchanged.
    Identity,
    /// Maps traditional Chinese characters to simplified ones, keeping the
    /// text unchanged if the mapping would move any byte position.
    ChineseTranslation,
}

/// The processed text a pre-processor produces for input `t`.
pub open spec fn spec_process(p: PreProcessor, t: Seq<char>) -> Seq<char> {
    match p {
        PreProcessor::Identity => t,
        PreProcessor::ChineseTranslation => {
            if aligned(simplified_of(t), t) {
                simplified_of(t)
            } else {
                t
            }
        },
    }
}

/// The outcome of pre-processing: the possibly rewritten text next to the
/// untouched input, with both texts byte-aligned.
#[derive(Debug, Clone)]
pub struct ProcessedText {
    /// The text the segmenter will operate on.
    pub processed: String,
    /// The input exactly as it was handed to the analyzer.
    pub original: String,
}

impl ProcessedText {
    /// The byte-alignment invariant: offsets into `processed` are offsets
    /// into `original`.
    pub open spec fn wf(&self) -> bool {
        aligned(self.processed@, self.original@)
    }
}

impl PreProcessor {
    /// Pre-processes `text`. The result holds the rewritten text and the
    /// original side by side and always satisfies the alignment invariant.
    pub fn process(&self, text: &str) -> (r: ProcessedText)
        ensures
            r.original@ == text@,
            r.processed@ == spec_process(*self, text@),
            r.wf(),
    {
        match self {
            PreProcessor::Identity => ProcessedText {
                processed: text.to_owned(),
                original: text.to_owned(),
            },
            PreProcessor::ChineseTranslation => {
                let converted = traditional_to_simplified(text);
                if check_aligned(converted.as_str(), text) {
                    ProcessedText { processed: converted, original: text.to_owned() }
                } else {
                    ProcessedText { processed: text.to_owned(), original: text.to_owned() }
                }
            },
        }
    }
}

} // verus!
