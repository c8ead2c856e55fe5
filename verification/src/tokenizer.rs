//! Segmentation: splitting the processed text into raw tokens with accurate
//! char and byte offsets. Three segmenters are offered: generic Unicode word
//! segmentation, a legacy word/separator segmenter, and dictionary-based
//! Chinese segmentation. Every segmenter guarantees that its tokens tile the
//! whole text, which is what makes exact reconstruction possible.

use vstd::prelude::*;
use vstd::utf8::encode_utf8;
use crate::token::{
    chained, token_fits, views_of, SeparatorKind, SpecToken, Token, TokenKind,
};
use crate::unicode::{
    byte_index, char_len, char_width, is_cjk, lemma_byte_index_le_total, lemma_byte_index_step,
    lemma_byte_index_zero, lemma_char_width_range, spec_is_cjk,
};

verus! {

// ------------------------------------------------------------------
// Outside segmenters
// ------------------------------------------------------------------
/// The substrings that the generic Unicode segmenter splits a text into.
/// Splitting depends on the characters of the text alone.
pub uninterp spec fn unicode_pieces(s: Seq<char>) -> Seq<Seq<char>>;

/// Relies on `unicode_segmentation::UnicodeSegmentation::split_word_bounds`:
/// the split depends on the characters alone, and the concatenation of the
/// returned substrings is the original string.
#[verifier::external_body]
fn split_word_bounds(s: &str) -> (r: Vec<String>)
    ensures
        r.deep_view() == unicode_pieces(s@),
        concat_pieces(r.deep_view()) == s@,
{
    unicode_segmentation::UnicodeSegmentation::split_word_bounds(s).map(|p| p.to_string()).collect()
}

#[verifier::external_type_specification]
#[verifier::external_body]
pub struct ExJiebaRs(jieba_rs::Jieba);

/// Dictionary-based Chinese segmenter. It always carries the dictionary that
/// `jieba_rs::Jieba::new` bundles, so its segmentation is a function of the
/// input text alone.
pub struct JiebaSegmenter {
    dict: jieba_rs::Jieba,
}

impl JiebaSegmenter {
    /// Relies on `jieba_rs::Jieba::new`: builds the segmenter with the
    /// crate's bundled default dictionary.
    #[verifier::external_body]
    pub fn new() -> JiebaSegmenter {
        JiebaSegmenter { dict: jieba_rs::Jieba::new() }
    }
}

/// The words that the Chinese dictionary segmenter cuts a text into, using
/// its bundled dictionary. The cut depends on the characters of the text
/// alone.
pub uninterp spec fn jieba_pieces(s: Seq<char>) -> Seq<Seq<char>>;

/// Relies on `jieba_rs::Jieba::cut` with HMM, over the dictionary that
/// `jieba_rs::Jieba::new` loads: the cut is a pure function of the sentence,
/// and the returned segments concatenate back to the sentence.
#[verifier::external_body]
fn jieba_cut(j: &JiebaSegmenter, s: &str) -> (r: Vec<String>)
    ensures
        r.deep_view() == jieba_pieces(s@),
        concat_pieces(r.deep_view()) == s@,
{
    j.dict.cut(s, true).into_iter().map(|p| p.to_string()).collect()
}

/// What `deunicode::deunicode_char` returns: the ASCII transliteration of a
/// single character, or nothing when the crate's table has none. The table
/// is fixed, so the result depends on the character alone.
pub uninterp spec fn deunicode_char_of(c: char) -> Option<Seq<char>>;

/// Relies on `deunicode::deunicode_char`: the transliteration table is fixed
/// at build time.
#[verifier::external_body]
fn deunicode_char_str(c: char) -> (r: Option<&'static str>)
    ensures
        match r {
            Some(d) => deunicode_char_of(c) == Some(d@),
            None => deunicode_char_of(c) == None::<Seq<char>>,
        },
{
    deunicode::deunicode_char(c)
}

// ------------------------------------------------------------------
// Piece sequences
// ------------------------------------------------------------------
/// Concatenation of a sequence of texts.
pub open spec fn concat_pieces(ps: Seq<Seq<char>>) -> Seq<char>
    decreases ps.len(),
{
    if ps.len() == 0 {
        Seq::empty()
    } else {
        ps[0] + concat_pieces(ps.drop_first())
    }
}

/// Total number of characters over a sequence of texts.
pub open spec fn total_chars(ps: Seq<Seq<char>>) -> int
    decreases ps.len(),
{
    if ps.len() == 0 {
        0int
    } else {
        ps[0].len() + total_chars(ps.drop_first())
    }
}

pub proof fn lemma_concat_pieces_len(ps: Seq<Seq<char>>)
    ensures
        concat_pieces(ps).len() == total_chars(ps),
        total_chars(ps) >= 0,
    decreases ps.len(),
{
    if ps.len() > 0 {
        lemma_concat_pieces_len(ps.drop_first());
    }
}

/// The word token standing for the char range `[cs, ce)` of `s`.
pub open spec fn spec_word_token(s: Seq<char>, cs: int, ce: int) -> SpecToken {
    SpecToken {
        kind: TokenKind::Word,
        word: s.subrange(cs, ce),
        byte_start: byte_index(s, cs),
        byte_end: byte_index(s, ce),
        char_start: cs,
        char_end: ce,
    }
}

/// The raw tokens of a text whose segmenter produced the given pieces, one
/// word token per nonempty piece, laid out consecutively from char position
/// `cs`.
pub open spec fn pieces_tokens(ps: Seq<Seq<char>>, s: Seq<char>, cs: int) -> Seq<SpecToken>
    decreases ps.len(),
{
    if ps.len() == 0 {
        Seq::empty()
    } else {
        let n = ps[0].len() as int;
        let rest = pieces_tokens(ps.drop_first(), s, cs + n);
        if n == 0 {
            rest
        } else {
            seq![spec_word_token(s, cs, cs + n)] + rest
        }
    }
}

pub proof fn lemma_pieces_chained(ps: Seq<Seq<char>>, s: Seq<char>, cs: int)
    requires
        0 <= cs,
        cs + total_chars(ps) <= s.len(),
    ensures
        chained(pieces_tokens(ps, s, cs), s, cs, cs + total_chars(ps)),
    decreases ps.len(),
{
    if ps.len() > 0 {
        let n = ps[0].len() as int;
        lemma_concat_pieces_len(ps.drop_first());
        lemma_pieces_chained(ps.drop_first(), s, cs + n);
        let rest = pieces_tokens(ps.drop_first(), s, cs + n);
        if n > 0 {
            let t = spec_word_token(s, cs, cs + n);
            let whole = seq![t] + rest;
            assert(whole[0] == t);
            assert(whole.drop_first() =~= rest);
        }
    }
}

// ------------------------------------------------------------------
// Legacy segmentation
// ------------------------------------------------------------------
/// Whether `c` has the Unicode `White_Space` property, as documented for
/// `char::is_whitespace`.
pub open spec fn spec_is_white(c: char) -> bool {
    ||| 0x09 <= c as u32 <= 0x0D
    ||| c as u32 == 0x20
    ||| c as u32 == 0x85
    ||| c as u32 == 0xA0
    ||| c as u32 == 0x1680
    ||| 0x2000 <= c as u32 <= 0x200A
    ||| c as u32 == 0x2028
    ||| c as u32 == 0x2029
    ||| c as u32 == 0x202F
    ||| c as u32 == 0x205F
    ||| c as u32 == 0x3000
}

/// Whether `c` is a whitespace character.
fn is_white(c: char) -> (r: bool)
    ensures
        r == spec_is_white(c),
{
    let u = c as u32;
    (0x09 <= u && u <= 0x0D) || u == 0x20 || u == 0x85 || u == 0xA0 || u == 0x1680 || (0x2000 <= u
        && u <= 0x200A) || u == 0x2028 || u == 0x2029 || u == 0x202F || u == 0x205F || u == 0x3000
}

/// The separator class of an ASCII transliteration's first character.
pub open spec fn spec_ascii_sep(c: char) -> Option<SeparatorKind> {
    if c == '-' || c == '_' || c == '\'' || c == ':' || c == '"' {
        Some(SeparatorKind::Soft)
    } else if c == '.' || c == ';' || c == ',' || c == '!' || c == '?' || c == '(' || c == ')' {
        Some(SeparatorKind::Hard)
    } else {
        Option::None
    }
}

fn ascii_sep(c: char) -> (r: Option<SeparatorKind>)
    ensures
        r == spec_ascii_sep(c),
{
    if c == '-' || c == '_' || c == '\'' || c == ':' || c == '"' {
        Some(SeparatorKind::Soft)
    } else if c == '.' || c == ';' || c == ',' || c == '!' || c == '?' || c == '(' || c == ')' {
        Some(SeparatorKind::Hard)
    } else {
        None
    }
}

/// The separator class of a character: whitespace is a soft separator, and
/// otherwise the character's ASCII transliteration decides, so that
/// typographic punctuation separates like its plain counterpart.
pub open spec fn spec_sep_kind(c: char) -> Option<SeparatorKind> {
    if spec_is_white(c) {
        Some(SeparatorKind::Soft)
    } else {
        match deunicode_char_of(c) {
            Option::None => Option::None,
            Some(d) => if d.len() == 0 {
                Option::None
            } else {
                spec_ascii_sep(d[0])
            },
        }
    }
}

fn sep_kind(c: char) -> (r: Option<SeparatorKind>)
    ensures
        r == spec_sep_kind(c),
{
    if is_white(c) {
        return Some(SeparatorKind::Soft);
    }
    match deunicode_char_str(c) {
        None => None,
        Some(d) => {
            if d.unicode_len() == 0 {
                None
            } else {
                ascii_sep(d.get_char(0))
            }
        },
    }
}

/// How the legacy segmenter treats one character.
#[derive(Clone, Copy, Debug, PartialEq, Eq, Structural)]
pub enum CharCat {
    /// Part of a word; consecutive such characters form one word token.
    Other,
    /// A CJK character; each forms a word token of its own.
    Cjk,
    /// A separator; consecutive separators form one separator token.
    Separator(SeparatorKind),
}

/// The category of `c`: separator first, then CJK, else word material.
pub open spec fn spec_cat_of(c: char) -> CharCat {
    match spec_sep_kind(c) {
        Some(k) => CharCat::Separator(k),
        Option::None => if spec_is_cjk(c) {
            CharCat::Cjk
        } else {
            CharCat::Other
        },
    }
}

fn cat_of(c: char) -> (r: CharCat)
    ensures
        r == spec_cat_of(c),
{
    match sep_kind(c) {
        Some(k) => CharCat::Separator(k),
        None => {
            if is_cjk(c) {
                CharCat::Cjk
            } else {
                CharCat::Other
            }
        },
    }
}

/// Whether the token that the legacy segmenter is building can still grow.
#[derive(Clone, Copy, Debug, PartialEq, Eq, Structural)]
pub enum RunState {
    /// The last token cannot be extended.
    NoRun,
    /// The last token is a growing word.
    WordRun,
    /// The last token is a growing separator.
    SepRun,
}

/// Intermediate state of the legacy segmentation: the tokens built so far
/// and whether the last one can still grow.
pub struct LegacyAcc {
    pub toks: Seq<SpecToken>,
    pub run: RunState,
}

pub open spec fn sep_combine(a: SeparatorKind, b: SeparatorKind) -> SeparatorKind {
    if a == SeparatorKind::Hard || b == SeparatorKind::Hard {
        SeparatorKind::Hard
    } else {
        SeparatorKind::Soft
    }
}

pub open spec fn spec_kind_sep(k: TokenKind) -> SeparatorKind {
    match k {
        TokenKind::Separator(x) => x,
        _ => SeparatorKind::Soft,
    }
}

/// The last token, grown by the characters up to position `ce`, with its
/// kind combined with `k` when it is a separator.
pub open spec fn extend_token(t: SpecToken, s: Seq<char>, ce: int, kind: TokenKind) -> SpecToken {
    SpecToken {
        kind: kind,
        word: s.subrange(t.char_start, ce),
        byte_end: byte_index(s, ce),
        char_end: ce,
        ..t
    }
}

/// One step of the legacy segmentation: consume the character at position
/// `j`, either growing the last token or starting a new one.
pub open spec fn legacy_step(acc: LegacyAcc, s: Seq<char>, j: int) -> LegacyAcc {
    let c = s[j];
    match spec_cat_of(c) {
        CharCat::Other => {
            if acc.run == RunState::WordRun {
                let last = acc.toks.last();
                LegacyAcc {
                    toks: acc.toks.update(
                        acc.toks.len() - 1,
                        extend_token(last, s, j + 1, TokenKind::Word),
                    ),
                    run: RunState::WordRun,
                }
            } else {
                LegacyAcc {
                    toks: acc.toks.push(spec_word_token(s, j, j + 1)),
                    run: RunState::WordRun,
                }
            }
        },
        CharCat::Cjk => LegacyAcc {
            toks: acc.toks.push(spec_word_token(s, j, j + 1)),
            run: RunState::NoRun,
        },
        CharCat::Separator(k) => {
            if acc.run == RunState::SepRun {
                let last = acc.toks.last();
                let nk = TokenKind::Separator(sep_combine(spec_kind_sep(last.kind), k));
                LegacyAcc {
                    toks: acc.toks.update(acc.toks.len() - 1, extend_token(last, s, j + 1, nk)),
                    run: RunState::SepRun,
                }
            } else {
                let t = SpecToken {
                    kind: TokenKind::Separator(k),
                    ..spec_word_token(s, j, j + 1)
                };
                LegacyAcc { toks: acc.toks.push(t), run: RunState::SepRun }
            }
        },
    }
}

/// The legacy segmentation of the first `i` characters of `s`.
pub open spec fn legacy_fold(s: Seq<char>, i: int) -> LegacyAcc
    decreases i,
{
    if i <= 0 {
        LegacyAcc { toks: Seq::empty(), run: RunState::NoRun }
    } else {
        legacy_step(legacy_fold(s, i - 1), s, i - 1)
    }
}

/// The raw tokens the legacy segmenter produces for `s`: maximal runs of
/// word characters become words, each CJK character becomes a word of its
/// own, and maximal runs of separators become one separator token, hard as
/// soon as one of its characters is hard.
pub open spec fn legacy_tokens(s: Seq<char>) -> Seq<SpecToken> {
    legacy_fold(s, s.len() as int).toks
}

/// In a tiling, the last token fits the text and ends where the tiling ends.
pub proof fn lemma_chained_last(toks: Seq<SpecToken>, s: Seq<char>, from: int, to: int)
    requires
        chained(toks, s, from, to),
        toks.len() > 0,
    ensures
        token_fits(toks.last(), s),
        toks.last().char_end == to,
        from <= to,
    decreases toks.len(),
{
    if toks.len() == 1 {
        assert(toks.last() == toks[0]);
        assert(chained(toks.drop_first(), s, toks[0].char_end, to));
        assert(toks.drop_first().len() == 0);
    } else {
        lemma_chained_last(toks.drop_first(), s, toks[0].char_end, to);
        assert(toks.drop_first().last() == toks.last());
    }
}

/// The legacy segmentation of a prefix is a tiling of that prefix, and the
/// still-growing last token always ends at the prefix's end.
pub proof fn lemma_legacy_fold_wf(s: Seq<char>, i: int)
    requires
        0 <= i <= s.len(),
    ensures
        ({
            let acc = legacy_fold(s, i);
            &&& chained(acc.toks, s, 0, i)
            &&& acc.run != RunState::NoRun ==> acc.toks.len() > 0 && acc.toks.last().char_end == i
            &&& acc.run == RunState::WordRun ==> acc.toks.last().kind == TokenKind::Word
            &&& acc.run == RunState::SepRun ==> acc.toks.last().kind is Separator
        }),
    decreases i,
{
    if i > 0 {
        lemma_legacy_fold_wf(s, i - 1);
        let acc = legacy_fold(s, i - 1);
        let c = s[i - 1];
        lemma_byte_index_step(s, i - 1);
        if acc.toks.len() > 0 {
            lemma_chained_last(acc.toks, s, 0, i - 1);
        }
        match spec_cat_of(c) {
            CharCat::Other => {
                if acc.run == RunState::WordRun {
                    let last = acc.toks.last();
                    let t2 = extend_token(last, s, i, TokenKind::Word);
                    lemma_chained_extend_last(acc.toks, s, 0, i - 1, t2);
                    assert(acc.toks.update(acc.toks.len() - 1, t2).last() == t2);
                } else {
                    let t = spec_word_token(s, i - 1, i);
                    crate::token::lemma_chained_push(acc.toks, s, 0, i - 1, t);
                    assert(acc.toks.push(t).last() == t);
                }
            },
            CharCat::Cjk => {
                let t = spec_word_token(s, i - 1, i);
                crate::token::lemma_chained_push(acc.toks, s, 0, i - 1, t);
                assert(acc.toks.push(t).last() == t);
            },
            CharCat::Separator(k) => {
                if acc.run == RunState::SepRun {
                    let last = acc.toks.last();
                    let nk = TokenKind::Separator(sep_combine(spec_kind_sep(last.kind), k));
                    let t2 = extend_token(last, s, i, nk);
                    lemma_chained_extend_last(acc.toks, s, 0, i - 1, t2);
                    assert(acc.toks.update(acc.toks.len() - 1, t2).last() == t2);
                } else {
                    let t = SpecToken {
                        kind: TokenKind::Separator(k),
                        ..spec_word_token(s, i - 1, i)
                    };
                    crate::token::lemma_chained_push(acc.toks, s, 0, i - 1, t);
                    assert(acc.toks.push(t).last() == t);
                }
            },
        }
    }
}

/// Replacing the last token of a tiling by one that starts at the same
/// place and reaches farther extends the tiling.
pub proof fn lemma_chained_extend_last(
    toks: Seq<SpecToken>,
    s: Seq<char>,
    from: int,
    to: int,
    t2: SpecToken,
)
    requires
        chained(toks, s, from, to),
        toks.len() > 0,
        t2.char_start == toks.last().char_start,
        token_fits(t2, s),
    ensures
        chained(toks.update(toks.len() - 1, t2), s, from, t2.char_end),
    decreases toks.len(),
{
    let upd = toks.update(toks.len() - 1, t2);
    if toks.len() == 1 {
        assert(upd[0] == t2);
        assert(toks.last() == toks[0]);
        assert(upd.drop_first() =~= Seq::<SpecToken>::empty());
        assert(chained(upd.drop_first(), s, t2.char_end, t2.char_end));
        assert(chained(upd, s, from, t2.char_end));
    } else {
        assert(upd[0] == toks[0]);
        assert(toks.drop_first().last() == toks.last());
        lemma_chained_extend_last(toks.drop_first(), s, toks[0].char_end, to, t2);
        assert(upd.drop_first() =~= toks.drop_first().update(toks.drop_first().len() - 1, t2));
    }
}


// ------------------------------------------------------------------
// Building tokens
// ------------------------------------------------------------------
/// Walks the characters of `s` from position `from` (at byte offset `bfrom`)
/// to position `to` and returns the byte offset of `to`.
fn byte_at(s: &str, from: usize, bfrom: usize, to: usize) -> (r: usize)
    requires
        from <= to <= s@.len(),
        bfrom == byte_index(s@, from as int),
        encode_utf8(s@).len() <= usize::MAX,
    ensures
        r == byte_index(s@, to as int),
{
    let mut i = from;
    let mut b = bfrom;
    while i < to
        invariant
            from <= i <= to <= s@.len(),
            b == byte_index(s@, i as int),
            encode_utf8(s@).len() <= usize::MAX,
        decreases to - i,
    {
        proof {
            lemma_byte_index_step(s@, i as int);
            lemma_byte_index_le_total(s@, i as int + 1);
            lemma_char_width_range(s@[i as int]);
        }
        b = b + char_len(s.get_char(i));
        i = i + 1;
    }
    b
}

/// Lays the pieces a segmenter produced out as word tokens over `s`, one per
/// nonempty piece, with exact char and byte offsets.
fn tokens_from_pieces(s: &str, pieces: &Vec<String>) -> (r: Vec<Token>)
    requires
        concat_pieces(pieces.deep_view()) == s@,
    ensures
        views_of(r@) == pieces_tokens(pieces.deep_view(), s@, 0),
        chained(views_of(r@), s@, 0, s@.len() as int),
{
    let ghost ps = pieces.deep_view();
    proof {
        lemma_concat_pieces_len(ps);
        lemma_byte_index_zero(s@);
        assert(ps.skip(0) =~= ps);
    }
    let n = s.unicode_len();
    let total_bytes = s.as_bytes().len();
    proof {
        assert(total_bytes == encode_utf8(s@).len());
    }
    let mut toks: Vec<Token> = Vec::new();
    let mut cpos: usize = 0;
    let mut bpos: usize = 0;
    let mut i: usize = 0;
    proof {
        assert(views_of(toks@) + pieces_tokens(ps, s@, 0) =~= pieces_tokens(ps, s@, 0));
    }
    while i < pieces.len()
        invariant
            0 <= i <= pieces@.len(),
            ps == pieces.deep_view(),
            n == s@.len(),
            total_bytes == encode_utf8(s@).len(),
            cpos <= n,
            cpos + total_chars(ps.skip(i as int)) == n,
            bpos == byte_index(s@, cpos as int),
            views_of(toks@) + pieces_tokens(ps.skip(i as int), s@, cpos as int) == pieces_tokens(
                ps,
                s@,
                0,
            ),
        decreases pieces@.len() - i,
    {
        let ghost rem = ps.skip(i as int);
        proof {
            assert(rem[0] == ps[i as int]);
            assert(ps[i as int] == pieces@[i as int]@);
            assert(rem.drop_first() =~= ps.skip(i as int + 1));
            lemma_concat_pieces_len(ps.skip(i as int + 1));
        }
        let m = pieces[i].as_str().unicode_len();
        let ce = cpos + m;
        let be = byte_at(s, cpos, bpos, ce);
        let ghost prev = toks@;
        if m > 0 {
            let word = s.substring_char(cpos, ce).to_owned();
            let t = Token {
                kind: TokenKind::Word,
                word,
                byte_start: bpos,
                byte_end: be,
                char_start: cpos,
                char_end: ce,
            };
            let ghost tv = t@;
            toks.push(t);
            proof {
                assert(tv == spec_word_token(s@, cpos as int, ce as int));
                assert(views_of(toks@) =~= views_of(prev).push(tv));
                assert(pieces_tokens(rem, s@, cpos as int) == seq![tv] + pieces_tokens(
                    ps.skip(i as int + 1),
                    s@,
                    ce as int,
                ));
                assert(views_of(prev).push(tv) + pieces_tokens(ps.skip(i as int + 1), s@, ce as int)
                    =~= views_of(prev) + (seq![tv] + pieces_tokens(
                    ps.skip(i as int + 1),
                    s@,
                    ce as int,
                )));
            }
        } else {
            proof {
                assert(pieces_tokens(rem, s@, cpos as int) == pieces_tokens(
                    ps.skip(i as int + 1),
                    s@,
                    ce as int,
                ));
            }
        }
        cpos = ce;
        bpos = be;
        i = i + 1;
    }
    proof {
        assert(ps.skip(ps.len() as int) =~= Seq::<Seq<char>>::empty());
        assert(views_of(toks@) + pieces_tokens(ps.skip(ps.len() as int), s@, cpos as int)
            =~= views_of(toks@));
        lemma_pieces_chained(ps, s@, 0);
    }
    toks
}

/// Segments `s` with the legacy rules: runs of word characters, single CJK
/// characters, and runs of separators.
fn legacy_tokenize(s: &str) -> (r: Vec<Token>)
    ensures
        views_of(r@) == legacy_tokens(s@),
        chained(views_of(r@), s@, 0, s@.len() as int),
{
    let n = s.unicode_len();
    let total_bytes = s.as_bytes().len();
    proof {
        assert(total_bytes == encode_utf8(s@).len());
        lemma_byte_index_zero(s@);
    }
    let mut toks: Vec<Token> = Vec::new();
    let mut run = RunState::NoRun;
    let mut bpos: usize = 0;
    let mut i: usize = 0;
    proof {
        assert(views_of(toks@) =~= legacy_fold(s@, 0).toks);
    }
    while i < n
        invariant
            0 <= i <= n,
            n == s@.len(),
            total_bytes == encode_utf8(s@).len(),
            views_of(toks@) == legacy_fold(s@, i as int).toks,
            run == legacy_fold(s@, i as int).run,
            bpos == byte_index(s@, i as int),
        decreases n - i,
    {
        let ghost acc = legacy_fold(s@, i as int);
        proof {
            lemma_legacy_fold_wf(s@, i as int);
            lemma_byte_index_step(s@, i as int);
            lemma_byte_index_le_total(s@, i as int + 1);
            lemma_char_width_range(s@[i as int]);
            if acc.toks.len() > 0 {
                lemma_chained_last(acc.toks, s@, 0, i as int);
            }
        }
        let c = s.get_char(i);
        let bnext = bpos + char_len(c);
        let ghost prev = toks@;
        match cat_of(c) {
            CharCat::Other => {
                if matches!(run, RunState::WordRun) {
                    proof {
                        assert(views_of(prev).len() == prev.len());
                        assert(views_of(prev).last() == prev.last()@);
                    }
                    let last = toks.pop().unwrap();
                    proof {
                        assert(last == prev.last());
                        assert(last@ == acc.toks.last());
                        assert(last.char_start <= i);
                    }
                    let cs = last.char_start;
                    let word = s.substring_char(cs, i + 1).to_owned();
                    let t = Token {
                        kind: TokenKind::Word,
                        word,
                        byte_start: last.byte_start,
                        byte_end: bnext,
                        char_start: cs,
                        char_end: i + 1,
                    };
                    let ghost tv = t@;
                    toks.push(t);
                    proof {
                        assert(tv == extend_token(acc.toks.last(), s@, i as int + 1, TokenKind::Word));
                        assert(views_of(toks@) =~= views_of(prev).update(
                            views_of(prev).len() - 1,
                            tv,
                        ));
                    }
                } else {
                    let word = s.substring_char(i, i + 1).to_owned();
                    let t = Token {
                        kind: TokenKind::Word,
                        word,
                        byte_start: bpos,
                        byte_end: bnext,
                        char_start: i,
                        char_end: i + 1,
                    };
                    let ghost tv = t@;
                    toks.push(t);
                    proof {
                        assert(tv == spec_word_token(s@, i as int, i as int + 1));
                        assert(views_of(toks@) =~= views_of(prev).push(tv));
                    }
                }
                run = RunState::WordRun;
            },
            CharCat::Cjk => {
                let word = s.substring_char(i, i + 1).to_owned();
                let t = Token {
                    kind: TokenKind::Word,
                    word,
                    byte_start: bpos,
                    byte_end: bnext,
                    char_start: i,
                    char_end: i + 1,
                };
                let ghost tv = t@;
                toks.push(t);
                proof {
                    assert(tv == spec_word_token(s@, i as int, i as int + 1));
                    assert(views_of(toks@) =~= views_of(prev).push(tv));
                }
                run = RunState::NoRun;
            },
            CharCat::Separator(k) => {
                if matches!(run, RunState::SepRun) {
                    proof {
                        assert(views_of(prev).len() == prev.len());
                        assert(views_of(prev).last() == prev.last()@);
                    }
                    let last = toks.pop().unwrap();
                    proof {
                        assert(last == prev.last());
                        assert(last@ == acc.toks.last());
                        assert(last.char_start <= i);
                    }
                    let cs = last.char_start;
                    let k0 = match last.kind {
                        TokenKind::Separator(x) => x,
                        _ => SeparatorKind::Soft,
                    };
                    let nk = if matches!(k0, SeparatorKind::Hard) || matches!(
                        k,
                        SeparatorKind::Hard,
                    ) {
                        SeparatorKind::Hard
                    } else {
                        SeparatorKind::Soft
                    };
                    let word = s.substring_char(cs, i + 1).to_owned();
                    let t = Token {
                        kind: TokenKind::Separator(nk),
                        word,
                        byte_start: last.byte_start,
                        byte_end: bnext,
                        char_start: cs,
                        char_end: i + 1,
                    };
                    let ghost tv = t@;
                    toks.push(t);
                    proof {
                        assert(k0 == spec_kind_sep(acc.toks.last().kind));
                        assert(tv == extend_token(
                            acc.toks.last(),
                            s@,
                            i as int + 1,
                            TokenKind::Separator(sep_combine(spec_kind_sep(acc.toks.last().kind), k)),
                        ));
                        assert(views_of(toks@) =~= views_of(prev).update(
                            views_of(prev).len() - 1,
                            tv,
                        ));
                    }
                } else {
                    let word = s.substring_char(i, i + 1).to_owned();
                    let t = Token {
                        kind: TokenKind::Separator(k),
                        word,
                        byte_start: bpos,
                        byte_end: bnext,
                        char_start: i,
                        char_end: i + 1,
                    };
                    let ghost tv = t@;
                    toks.push(t);
                    proof {
                        assert(tv == SpecToken {
                            kind: TokenKind::Separator(k),
                            ..spec_word_token(s@, i as int, i as int + 1)
                        });
                        assert(views_of(toks@) =~= views_of(prev).push(tv));
                    }
                }
                run = RunState::SepRun;
            },
        }
        bpos = bnext;
        i = i + 1;
    }
    proof {
        lemma_legacy_fold_wf(s@, n as int);
    }
    toks
}

// ------------------------------------------------------------------
// The segmenter stage
// ------------------------------------------------------------------
/// A stage splitting the processed text into raw tokens with byte offsets.
pub enum Tokenizer {
    /// Generic segmentation on Unicode word boundaries.
    Unicode,
    /// The legacy word/separator segmenter.
    Legacy,
    /// Dictionary-based Chinese segmentation.
    Jieba(JiebaSegmenter),
}

/// The raw tokens a tokenizer produces over the processed text `s`.
pub open spec fn spec_raw_tokens(t: Tokenizer, s: Seq<char>) -> Seq<SpecToken> {
    match t {
        Tokenizer::Unicode => pieces_tokens(unicode_pieces(s), s, 0),
        Tokenizer::Legacy => legacy_tokens(s),
        Tokenizer::Jieba(_) => pieces_tokens(jieba_pieces(s), s, 0),
    }
}

impl Tokenizer {
    /// Splits `text` into raw word and separator tokens whose offsets tile
    /// the whole text from its first character to its last.
    pub fn tokenize(&self, text: &str) -> (r: Vec<Token>)
        ensures
            views_of(r@) == spec_raw_tokens(*self, text@),
            chained(views_of(r@), text@, 0, text@.len() as int),
    {
        match self {
            Tokenizer::Unicode => {
                let pieces = split_word_bounds(text);
                tokens_from_pieces(text, &pieces)
            },
            Tokenizer::Legacy => legacy_tokenize(text),
            Tokenizer::Jieba(j) => {
                let pieces = jieba_cut(j, text);
                tokens_from_pieces(text, &pieces)
            },
        }
    }
}

} // verus!
