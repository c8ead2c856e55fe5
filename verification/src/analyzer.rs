//! The orchestrator: pipelines, the registry keyed by script and language,
//! the fallback resolution that always yields exactly one pipeline, and the
//! analyzed text with its repeatable token stream and its lossless
//! reconstruction view.

use vstd::prelude::*;
use crate::classifier::{spec_classify, stop_words_of, TokenClassifier};
use crate::detection::{detect_lang, detect_script, spec_detect_script, Language, Script};
use crate::normalizer::{spec_normalize_token, Normalizer, NormalizerStep};
use crate::processors::{spec_process, PreProcessor, ProcessedText};
use crate::token::{
    chained, lemma_chained_aligned, lemma_chained_concat, lemma_chained_same_offsets,
    slices_concat, views_of, SpecToken, Token,
};
use crate::tokenizer::{spec_raw_tokens, JiebaSegmenter, Tokenizer};

verus! {

/// An immutable triple of stages used to analyze one category of text. Built
/// from the defaults by overriding single stages; shared by reference across
/// analyses and never mutated afterwards.
pub struct Pipeline {
    pub pre_processor: PreProcessor,
    pub tokenizer: Tokenizer,
    pub normalizer: Normalizer,
}

impl Default for Pipeline {
    /// The built-in default: identity pre-processor, generic Unicode
    /// segmenter, identity normalizer.
    fn default() -> (r: Self)
        ensures
            r.pre_processor == PreProcessor::Identity,
            r.tokenizer is Unicode,
            r.normalizer.steps@ == Seq::<NormalizerStep>::empty(),
    {
        Pipeline {
            pre_processor: PreProcessor::Identity,
            tokenizer: Tokenizer::Unicode,
            normalizer: Normalizer::identity(),
        }
    }
}

impl Pipeline {
    /// Replaces the pre-processing stage.
    pub fn set_pre_processor(self, pre_processor: PreProcessor) -> (r: Self)
        ensures
            r.pre_processor == pre_processor,
            r.tokenizer == self.tokenizer,
            r.normalizer == self.normalizer,
    {
        Pipeline { pre_processor, ..self }
    }

    /// Replaces the segmentation stage.
    pub fn set_tokenizer(self, tokenizer: Tokenizer) -> (r: Self)
        ensures
            r.tokenizer == tokenizer,
            r.pre_processor == self.pre_processor,
            r.normalizer == self.normalizer,
    {
        Pipeline { tokenizer, ..self }
    }

    /// Replaces the normalization stage.
    pub fn set_normalizer(self, normalizer: Normalizer) -> (r: Self)
        ensures
            r.normalizer == normalizer,
            r.pre_processor == self.pre_processor,
            r.tokenizer == self.tokenizer,
    {
        Pipeline { normalizer, ..self }
    }
}

/// The tokens a pipeline emits for an already pre-processed text: raw
/// segmentation, then normalization, then stop-word classification.
pub open spec fn spec_pipeline_tokens(
    p: Pipeline,
    stops: Set<Seq<char>>,
    processed: Seq<char>,
) -> Seq<SpecToken> {
    spec_raw_tokens(p.tokenizer, processed).map_values(
        |t: SpecToken| spec_classify(stops, spec_normalize_token(p.normalizer.steps@, t)),
    )
}

/// The registry: a mapping from (script, language) to pipeline with unique
/// keys intended, plus the stop-word set. Built once, read-only thereafter.
pub struct AnalyzerConfig {
    /// Language-specialized pipelines; looked up by the resolution chain.
    pub pipeline_map: Vec<((Script, Language), Pipeline)>,
    /// Membership set for stop-word classification.
    pub stop_words: fst::Set<Vec<u8>>,
}

/// First pipeline registered under key `k`, if any.
pub open spec fn map_get(
    entries: Seq<((Script, Language), Pipeline)>,
    k: (Script, Language),
) -> Option<Pipeline>
    decreases entries.len(),
{
    if entries.len() == 0 {
        Option::None
    } else if entries[0].0 == k {
        Some(entries[0].1)
    } else {
        map_get(entries.drop_first(), k)
    }
}

/// The resolution chain: the exact (script, language) entry, else the
/// script's catch-all, else the user's global catch-all, else the built-in
/// default. Total: every text gets exactly one pipeline.
pub open spec fn spec_resolve(
    entries: Seq<((Script, Language), Pipeline)>,
    dflt: Pipeline,
    s: Script,
    l: Language,
) -> Pipeline {
    match map_get(entries, (s, l)) {
        Some(p) => p,
        Option::None => match map_get(entries, (s, Language::Other)) {
            Some(p) => p,
            Option::None => match map_get(entries, (Script::Other, Language::Other)) {
                Some(p) => p,
                Option::None => dflt,
            },
        },
    }
}

impl AnalyzerConfig {
    /// A registry from a caller-supplied pipeline map and stop-word set.
    pub fn new(
        pipeline_map: Vec<((Script, Language), Pipeline)>,
        stop_words: fst::Set<Vec<u8>>,
    ) -> (r: Self)
        ensures
            r.pipeline_map == pipeline_map,
            r.stop_words == stop_words,
    {
        Self { pipeline_map, stop_words }
    }

    /// The default registry: a Latin specialization (legacy segmenter with
    /// transliterating and lowercasing normalizers) and a Mandarin
    /// specialization (traditional-to-simplified pre-processor, dictionary
    /// segmenter, CJK-keeping transliteration and lowercasing).
    pub fn default_with_stopwords(stop_words: fst::Set<Vec<u8>>) -> (r: Self)
        ensures
            r.stop_words == stop_words,
            r.pipeline_map@.len() == 2,
            r.pipeline_map@[0].0 == (Script::Latin, Language::Other),
            r.pipeline_map@[0].1.pre_processor == PreProcessor::Identity,
            r.pipeline_map@[0].1.tokenizer is Legacy,
            r.pipeline_map@[0].1.normalizer.steps@ == seq![
                NormalizerStep::Deunicode { keep_cjk: false },
                NormalizerStep::Lowercase,
            ],
            r.pipeline_map@[1].0 == (Script::Mandarin, Language::Other),
            r.pipeline_map@[1].1.pre_processor == PreProcessor::ChineseTranslation,
            r.pipeline_map@[1].1.tokenizer is Jieba,
            r.pipeline_map@[1].1.normalizer.steps@ == seq![
                NormalizerStep::Deunicode { keep_cjk: true },
                NormalizerStep::Lowercase,
            ],
    {
        let mut latin_steps: Vec<NormalizerStep> = Vec::new();
        latin_steps.push(NormalizerStep::Deunicode { keep_cjk: false });
        latin_steps.push(NormalizerStep::Lowercase);
        let latin = Pipeline::default().set_tokenizer(Tokenizer::Legacy).set_normalizer(
            Normalizer::new(latin_steps),
        );

        let mut chinese_steps: Vec<NormalizerStep> = Vec::new();
        chinese_steps.push(NormalizerStep::Deunicode { keep_cjk: true });
        chinese_steps.push(NormalizerStep::Lowercase);
        let chinese = Pipeline::default().set_pre_processor(
            PreProcessor::ChineseTranslation,
        ).set_tokenizer(Tokenizer::Jieba(JiebaSegmenter::new())).set_normalizer(
            Normalizer::new(chinese_steps),
        );

        let mut pipeline_map: Vec<((Script, Language), Pipeline)> = Vec::new();
        pipeline_map.push(((Script::Latin, Language::Other), latin));
        pipeline_map.push(((Script::Mandarin, Language::Other), chinese));
        proof {
            assert(pipeline_map@[0].1.normalizer.steps@ =~= seq![
                NormalizerStep::Deunicode { keep_cjk: false },
                NormalizerStep::Lowercase,
            ]);
            assert(pipeline_map@[1].1.normalizer.steps@ =~= seq![
                NormalizerStep::Deunicode { keep_cjk: true },
                NormalizerStep::Lowercase,
            ]);
        }
        Self { pipeline_map, stop_words }
    }
}

/// The analyzer: a registry plus the built-in default pipeline, constructed
/// once at startup and reused for every analysis.
pub struct Analyzer {
    pub config: AnalyzerConfig,
    /// The library's last-resort pipeline, built once here and never rebuilt
    /// or mutated.
    pub default_pipeline: Pipeline,
}

/// An ephemeral analysis of one text: the pre-processed text, the resolved
/// pipeline, and a classifier bound to the registry's stop words.
pub struct AnalyzedText<'a> {
    pub processed: ProcessedText,
    pub pipeline: &'a Pipeline,
    pub classifier: TokenClassifier<'a>,
}

/// The token views an analyzer produces for a text: resolve, pre-process,
/// segment, normalize, classify.
pub open spec fn spec_analyzer_views(an: Analyzer, text: Seq<char>) -> Seq<SpecToken> {
    let p = spec_resolve(
        an.config.pipeline_map@,
        an.default_pipeline,
        spec_detect_script(text),
        Language::Other,
    );
    spec_pipeline_tokens(p, stop_words_of(an.config.stop_words), spec_process(p.pre_processor, text))
}

impl<'a> AnalyzedText<'a> {
    /// The pre-processed text is byte-aligned with the original and is what
    /// the resolved pre-processor makes of it.
    pub open spec fn wf(&self) -> bool {
        &&& self.processed.wf()
        &&& self.processed.processed@ == spec_process(
            self.pipeline.pre_processor,
            self.processed.original@,
        )
    }

    /// The views of the tokens this analysis carries.
    pub open spec fn spec_token_views(&self) -> Seq<SpecToken> {
        spec_pipeline_tokens(
            *self.pipeline,
            stop_words_of(*self.classifier.stop_words),
            self.processed.processed@,
        )
    }

    /// A fresh token stream for the analyzed text. Stages are pure, so every
    /// call yields the same sequence: segmentation, normalization and
    /// classification composed, with offsets that tile the original text.
    pub fn tokens(&self) -> (r: TokenStream)
        requires
            self.wf(),
        ensures
            views_of(r.tokens@) == self.spec_token_views(),
            chained(
                views_of(r.tokens@),
                self.processed.original@,
                0,
                self.processed.original@.len() as int,
            ),
    {
        let raw = self.pipeline.tokenizer.tokenize(self.processed.processed.as_str());
        let ghost raw_views = views_of(raw@);
        let ghost stops = stop_words_of(*self.classifier.stop_words);
        let ghost steps = self.pipeline.normalizer.steps@;
        let mut out: Vec<Token> = Vec::new();
        let mut i: usize = 0;
        let n = raw.len();
        let mut rest = raw;
        proof {
            assert(views_of(rest@) =~= raw_views);
        }
        // consume the raw tokens front to back, rewriting each
        while i < n
            invariant
                0 <= i <= n,
                n == raw_views.len(),
                rest@.len() == n - i,
                views_of(rest@) =~= raw_views.skip(i as int),
                out@.len() == i,
                forall|k: int|
                    0 <= k < i ==> views_of(out@)[k] == spec_classify(
                        stops,
                        spec_normalize_token(steps, raw_views[k]),
                    ),
                stops == stop_words_of(*self.classifier.stop_words),
                steps == self.pipeline.normalizer.steps@,
            decreases n - i,
        {
            let ghost prev_out = out@;
            let ghost prev_rest = rest@;
            let t = rest.remove(0);
            proof {
                assert(views_of(prev_rest)[0] == prev_rest[0]@);
                assert(t@ == raw_views.skip(i as int)[0]);
                assert(t@ == raw_views[i as int]);
                assert(views_of(rest@) =~= views_of(prev_rest).drop_first());
                assert(views_of(rest@) =~= raw_views.skip(i as int + 1));
            }
            let t = self.pipeline.normalizer.normalize(t);
            let t = self.classifier.classify(t);
            out.push(t);
            proof {
                assert(views_of(out@) =~= views_of(prev_out).push(t@));
            }
            i += 1;
        }
        proof {
            assert(views_of(out@) =~= self.spec_token_views());
            lemma_chained_same_offsets(
                raw_views,
                views_of(out@),
                self.processed.processed@,
                0,
                self.processed.processed@.len() as int,
            );
            lemma_chained_aligned(
                views_of(out@),
                self.processed.processed@,
                self.processed.original@,
                0,
                self.processed.processed@.len() as int,
            );
        }
        TokenStream { tokens: out }
    }

    /// Attaches each token to the slice of the original text its offsets
    /// cover. Concatenating the slices in order reproduces the original text
    /// exactly; that equality is this function's contract, not a hope.
    pub fn reconstruct(&self) -> (r: Vec<(String, Token)>)
        requires
            self.wf(),
        ensures
            r@.len() == self.spec_token_views().len(),
            forall|k: int| 0 <= k < r@.len() ==> (#[trigger] r@[k]).1@ == self.spec_token_views()[k],
            forall|k: int|
                0 <= k < r@.len() ==> (#[trigger] r@[k]).0@ == self.processed.original@.subrange(
                    self.spec_token_views()[k].char_start,
                    self.spec_token_views()[k].char_end,
                ),
            slices_concat(self.spec_token_views(), self.processed.original@)
                == self.processed.original@,
    {
        let stream = self.tokens();
        let ghost tvs = self.spec_token_views();
        proof {
            lemma_chained_concat(
                tvs,
                self.processed.original@,
                0,
                self.processed.original@.len() as int,
            );
            assert(self.processed.original@.subrange(0, self.processed.original@.len() as int)
                =~= self.processed.original@);
        }
        let mut toks = stream.tokens;
        let mut r: Vec<(String, Token)> = Vec::new();
        let n = toks.len();
        let mut i: usize = 0;
        proof {
            assert(views_of(toks@) =~= tvs);
        }
        while i < n
            invariant
                0 <= i <= n,
                n == tvs.len(),
                toks@.len() == n - i,
                views_of(toks@) =~= tvs.skip(i as int),
                chained(tvs, self.processed.original@, 0, self.processed.original@.len() as int),
                r@.len() == i,
                forall|k: int| 0 <= k < i ==> (#[trigger] r@[k]).1@ == tvs[k],
                forall|k: int|
                    0 <= k < i ==> (#[trigger] r@[k]).0@ == self.processed.original@.subrange(
                        tvs[k].char_start,
                        tvs[k].char_end,
                    ),
            decreases n - i,
        {
            let ghost prev = r@;
            let ghost prev_toks = toks@;
            let t = toks.remove(0);
            proof {
                assert(views_of(prev_toks)[0] == prev_toks[0]@);
                assert(t@ == tvs.skip(i as int)[0]);
                assert(t@ == tvs[i as int]);
                assert(views_of(toks@) =~= views_of(prev_toks).drop_first());
                assert(views_of(toks@) =~= tvs.skip(i as int + 1));
                crate::token::lemma_chained_index(
                    tvs,
                    self.processed.original@,
                    0,
                    self.processed.original@.len() as int,
                    i as int,
                );
            }
            let slice = self.processed.original.as_str().substring_char(t.char_start, t.char_end);
            let pair = (slice.to_owned(), t);
            r.push(pair);
            proof {
                assert(r@ == prev.push(pair));
            }
            i += 1;
        }
        r
    }
}

/// A pull-based stream over the tokens of one analysis.
pub struct TokenStream {
    pub tokens: Vec<Token>,
}

impl TokenStream {
    /// The next token, or nothing when the stream is exhausted.
    pub fn next(&mut self) -> (r: Option<Token>)
        ensures
            old(self).tokens@.len() == 0 ==> r is None && final(self).tokens@ == old(self).tokens@,
            old(self).tokens@.len() > 0 ==> r == Some(old(self).tokens@[0]) && final(self).tokens@
                == old(self).tokens@.drop_first(),
    {
        if self.tokens.len() == 0 {
            None
        } else {
            let ghost prev = self.tokens@;
            let t = self.tokens.remove(0);
            proof {
                assert(self.tokens@ =~= prev.drop_first());
            }
            Some(t)
        }
    }
}

impl Analyzer {
    /// An analyzer over the given registry. The built-in default pipeline is
    /// constructed here, once, and reused by every resolution that falls all
    /// the way through.
    pub fn new(config: AnalyzerConfig) -> (r: Self)
        ensures
            r.config == config,
            r.default_pipeline.pre_processor == PreProcessor::Identity,
            r.default_pipeline.tokenizer is Unicode,
            r.default_pipeline.normalizer.steps@ == Seq::<NormalizerStep>::empty(),
    {
        Self { config, default_pipeline: Pipeline::default() }
    }

    /// First pipeline registered under the key, if any.
    fn lookup(&self, script: Script, lang: Language) -> (r: Option<&Pipeline>)
        ensures
            match r {
                Some(p) => map_get(self.config.pipeline_map@, (script, lang)) == Some(*p),
                Option::None => map_get(self.config.pipeline_map@, (script, lang))
                    == Option::None::<Pipeline>,
            },
    {
        let entries = &self.config.pipeline_map;
        let n = entries.len();
        let mut i: usize = 0;
        proof {
            assert(entries@.skip(0) =~= entries@);
        }
        while i < n
            invariant
                0 <= i <= n,
                n == entries@.len(),
                entries == self.config.pipeline_map,
                map_get(entries@, (script, lang)) == map_get(entries@.skip(i as int), (script, lang)),
            decreases n - i,
        {
            proof {
                assert(entries@.skip(i as int)[0] == entries@[i as int]);
                assert(entries@.skip(i as int).drop_first() =~= entries@.skip(i as int + 1));
            }
            let key = &entries[i].0;
            if key.0 == script && key.1 == lang {
                return Some(&entries[i].1);
            }
            i += 1;
        }
        proof {
            assert(entries@.skip(n as int) =~= Seq::<((Script, Language), Pipeline)>::empty());
        }
        None
    }

    /// Detects script and language and walks the fallback chain: the exact
    /// pair, then the script's catch-all, then the user's global catch-all,
    /// then the built-in default. Total and deterministic.
    fn pipeline_from(&self, text: &str) -> (r: &Pipeline)
        ensures
            *r == spec_resolve(
                self.config.pipeline_map@,
                self.default_pipeline,
                spec_detect_script(text@),
                Language::Other,
            ),
    {
        let script = detect_script(text);
        let lang = detect_lang(text);
        match self.lookup(script, lang) {
            Some(p) => p,
            None => match self.lookup(script, Language::Other) {
                Some(p) => p,
                None => match self.lookup(Script::Other, Language::Other) {
                    Some(p) => p,
                    None => &self.default_pipeline,
                },
            },
        }
    }

    /// Analyzes one text: resolves a pipeline, pre-processes the text once,
    /// and binds a classifier to the registry's stop words. The returned
    /// value borrows the pipeline and stop words and is discarded after its
    /// streams are consumed.
    pub fn analyze<'t>(&'t self, text: &str) -> (r: AnalyzedText<'t>)
        ensures
            r.wf(),
            r.processed.original@ == text@,
            *r.pipeline == spec_resolve(
                self.config.pipeline_map@,
                self.default_pipeline,
                spec_detect_script(text@),
                Language::Other,
            ),
            r.classifier.stop_words == &self.config.stop_words,
            r.spec_token_views() == spec_analyzer_views(*self, text@),
    {
        let pipeline = self.pipeline_from(text);
        let processed = pipeline.pre_processor.process(text);
        let classifier = TokenClassifier::new(&self.config.stop_words);
        AnalyzedText { processed, pipeline, classifier }
    }
}

// ------------------------------------------------------------------
// Laws
// ------------------------------------------------------------------
/// Round trip: tokens tiling a text point at slices whose concatenation is
/// exactly that text. Every analysis satisfies the hypothesis: `tokens`
/// guarantees its tokens tile the original text from end to end.
pub proof fn lemma_round_trip(toks: Seq<SpecToken>, text: Seq<char>)
    requires
        chained(toks, text, 0, text.len() as int),
    ensures
        slices_concat(toks, text) == text,
{
    lemma_chained_concat(toks, text, 0, text.len() as int);
    assert(text.subrange(0, text.len() as int) =~= text);
}

/// Fallback totality: with an empty registry, every script and language
/// resolves to the built-in default pipeline.
pub proof fn lemma_fallback_totality(
    entries: Seq<((Script, Language), Pipeline)>,
    dflt: Pipeline,
    s: Script,
    l: Language,
)
    requires
        entries.len() == 0,
    ensures
        spec_resolve(entries, dflt, s, l) == dflt,
{
}

/// Determinism: two analyses made by the same analyzer for the same text
/// carry identical token sequences, since `analyze` pins the views down to a
/// function of the analyzer and the text alone.
pub proof fn lemma_determinism(an: Analyzer, text: Seq<char>, a: AnalyzedText, b: AnalyzedText)
    requires
        a.spec_token_views() == spec_analyzer_views(an, text),
        b.spec_token_views() == spec_analyzer_views(an, text),
    ensures
        a.spec_token_views() == b.spec_token_views(),
{
}

} // verus!
