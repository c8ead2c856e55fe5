//! The tagged value produced by an analysis pipeline: a word or separator,
//! its display text, and the char and byte range it occupies in the text the
//! segmenter operated on.

use vstd::prelude::*;
use crate::unicode::{aligned, byte_index, lemma_aligned_byte_index};

verus! {

/// Distinguishes strongly phrase-breaking punctuation from weakly-breaking
/// punctuation and whitespace.
#[derive(Clone, Copy, Debug, PartialEq, Eq, Structural)]
pub enum SeparatorKind {
    /// Sentence- or clause-breaking punctuation.
    Hard,
    /// Intra-phrase punctuation or plain whitespace.
    Soft,
}

/// Classification of a token.
#[derive(Clone, Copy, Debug, PartialEq, Eq, Structural)]
pub enum TokenKind {
    /// An ordinary word, to be indexed.
    Word,
    /// A word found in the stop-word set; it can be skipped to save space or
    /// still be indexed as a word.
    StopWord,
    /// A separator between words; not indexed, but used to determine word
    /// proximity.
    Separator(SeparatorKind),
}

/// Mathematical image of a [`Token`].
pub struct SpecToken {
    pub kind: TokenKind,
    pub word: Seq<char>,
    pub byte_start: int,
    pub byte_end: int,
    pub char_start: int,
    pub char_end: int,
}

/// One analyzed token. `word` holds the display/matching content, which may
/// diverge from the text slice after normalization; the offsets always
/// describe the token's position in the text the segmenter operated on.
#[derive(Debug, Clone)]
pub struct Token {
    pub kind: TokenKind,
    /// Display text of the token, possibly rewritten by normalizers.
    pub word: String,
    /// Byte offset of the first byte of the token.
    pub byte_start: usize,
    /// Byte offset one past the last byte of the token.
    pub byte_end: usize,
    /// Index of the first character of the token.
    pub char_start: usize,
    /// Index one past the last character of the token.
    pub char_end: usize,
}

/// The views of a sequence of tokens.
pub open spec fn views_of(ts: Seq<Token>) -> Seq<SpecToken> {
    ts.map_values(|t: Token| t@)
}

/// The token's offsets are consistent positions in the text `s`: the char
/// range lies inside the text and the byte offsets are the byte positions of
/// the char offsets.
pub open spec fn token_fits(t: SpecToken, s: Seq<char>) -> bool {
    &&& 0 <= t.char_start <= t.char_end <= s.len()
    &&& t.byte_start == byte_index(s, t.char_start)
    &&& t.byte_end == byte_index(s, t.char_end)
}

/// The tokens tile the character range `[from, to)` of `s`: each fits in
/// `s`, the first starts at `from`, each further one starts where the
/// previous ended, and the last ends at `to`.
pub open spec fn chained(toks: Seq<SpecToken>, s: Seq<char>, from: int, to: int) -> bool
    decreases toks.len(),
{
    if toks.len() == 0 {
        from == to
    } else {
        &&& toks[0].char_start == from
        &&& token_fits(toks[0], s)
        &&& chained(toks.drop_first(), s, toks[0].char_end, to)
    }
}

/// The concatenation of the text slices the tokens point at.
pub open spec fn slices_concat(toks: Seq<SpecToken>, s: Seq<char>) -> Seq<char>
    decreases toks.len(),
{
    if toks.len() == 0 {
        Seq::empty()
    } else {
        s.subrange(toks[0].char_start, toks[0].char_end) + slices_concat(toks.drop_first(), s)
    }
}

/// Tokens tiling `[from, to)` of `s` point at slices that concatenate to
/// exactly `s[from..to]`. Applied to tokens tiling all of a text, this is the
/// lossless-reconstruction guarantee.
pub proof fn lemma_chained_concat(toks: Seq<SpecToken>, s: Seq<char>, from: int, to: int)
    requires
        chained(toks, s, from, to),
        0 <= from,
        to <= s.len(),
    ensures
        from <= to,
        slices_concat(toks, s) == s.subrange(from, to),
    decreases toks.len(),
{
    if toks.len() == 0 {
        assert(s.subrange(from, to) =~= Seq::<char>::empty());
    } else {
        lemma_chained_concat(toks.drop_first(), s, toks[0].char_end, to);
        assert(s.subrange(from, toks[0].char_end) + s.subrange(toks[0].char_end, to) =~= s.subrange(
            from,
            to,
        ));
    }
}

/// Extending a tiling by one adjacent token.
pub proof fn lemma_chained_push(
    toks: Seq<SpecToken>,
    s: Seq<char>,
    from: int,
    to: int,
    t: SpecToken,
)
    requires
        chained(toks, s, from, to),
        token_fits(t, s),
        t.char_start == to,
    ensures
        chained(toks.push(t), s, from, t.char_end),
    decreases toks.len(),
{
    let pushed = toks.push(t);
    if toks.len() == 0 {
        assert(pushed[0] == t);
        assert(pushed.drop_first() =~= Seq::<SpecToken>::empty());
        assert(chained(pushed.drop_first(), s, t.char_end, t.char_end));
        assert(chained(pushed, s, from, t.char_end));
    } else {
        assert(pushed[0] == toks[0]);
        assert(chained(toks.drop_first(), s, toks[0].char_end, to));
        lemma_chained_push(toks.drop_first(), s, toks[0].char_end, to, t);
        assert(pushed.drop_first() =~= toks.drop_first().push(t));
        assert(chained(pushed.drop_first(), s, toks[0].char_end, t.char_end));
        assert(chained(pushed, s, from, t.char_end));
    }
}

/// A tiling only constrains the kinds' offsets, so any sequence of tokens
/// with the same offsets tiles the same range.
pub proof fn lemma_chained_same_offsets(
    a: Seq<SpecToken>,
    b: Seq<SpecToken>,
    s: Seq<char>,
    from: int,
    to: int,
)
    requires
        chained(a, s, from, to),
        a.len() == b.len(),
        forall|k: int|
            0 <= k < a.len() ==> {
                &&& (#[trigger] b[k]).char_start == a[k].char_start
                &&& b[k].char_end == a[k].char_end
                &&& b[k].byte_start == a[k].byte_start
                &&& b[k].byte_end == a[k].byte_end
            },
    ensures
        chained(b, s, from, to),
    decreases a.len(),
{
    if a.len() > 0 {
        lemma_chained_same_offsets(a.drop_first(), b.drop_first(), s, a[0].char_end, to);
    }
}

/// Every token of a tiling fits the text.
pub proof fn lemma_chained_index(toks: Seq<SpecToken>, s: Seq<char>, from: int, to: int, k: int)
    requires
        chained(toks, s, from, to),
        0 <= k < toks.len(),
    ensures
        token_fits(toks[k], s),
    decreases k,
{
    if k > 0 {
        lemma_chained_index(toks.drop_first(), s, toks[0].char_end, to, k - 1);
        assert(toks.drop_first()[k - 1] == toks[k]);
    }
}

/// A tiling of a text is also a tiling of any byte-aligned text, the byte
/// offsets included: this is what lets tokens cut from the processed text
/// index into the original one.
pub proof fn lemma_chained_aligned(
    toks: Seq<SpecToken>,
    a: Seq<char>,
    b: Seq<char>,
    from: int,
    to: int,
)
    requires
        chained(toks, a, from, to),
        aligned(a, b),
    ensures
        chained(toks, b, from, to),
    decreases toks.len(),
{
    if toks.len() > 0 {
        lemma_aligned_byte_index(a, b, toks[0].char_start);
        lemma_aligned_byte_index(a, b, toks[0].char_end);
        lemma_chained_aligned(toks.drop_first(), a, b, toks[0].char_end, to);
    }
}

impl View for Token {
    type V = SpecToken;

    open spec fn view(&self) -> SpecToken {
        SpecToken {
            kind: self.kind,
            word: self.word@,
            byte_start: self.byte_start as int,
            byte_end: self.byte_end as int,
            char_start: self.char_start as int,
            char_end: self.char_end as int,
        }
    }
}

impl Token {
    /// The display text of the token.
    pub fn text(&self) -> (r: &str)
        ensures
            r@ == self@.word,
    {
        self.word.as_str()
    }

    /// Length in bytes of the original-text range the token covers.
    pub fn byte_len(&self) -> (r: usize)
        requires
            self@.byte_start <= self@.byte_end,
        ensures
            r == self@.byte_end - self@.byte_start,
    {
        self.byte_end - self.byte_start
    }

    /// The token's classification.
    pub fn kind(&self) -> (r: TokenKind)
        ensures
            r == self@.kind,
    {
        self.kind
    }

    /// Whether the token is an ordinary word.
    pub fn is_word(&self) -> (r: bool)
        ensures
            r == (self@.kind == TokenKind::Word),
    {
        matches!(self.kind, TokenKind::Word)
    }

    /// Whether the token is a separator.
    pub fn is_separator(&self) -> (r: bool)
        ensures
            r == (self@.kind is Separator),
    {
        matches!(self.kind, TokenKind::Separator(_))
    }

    /// Whether the token is a stop word.
    pub fn is_stopword(&self) -> (r: bool)
        ensures
            r == (self@.kind == TokenKind::StopWord),
    {
        matches!(self.kind, TokenKind::StopWord)
    }
}

} // verus!
