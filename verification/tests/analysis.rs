use text_analyzer::analyzer::{Analyzer, AnalyzerConfig, Pipeline, TokenStream};
use text_analyzer::normalizer::{Normalizer, NormalizerStep};
use text_analyzer::token::Token;
use text_analyzer::detection::{Language, Script};

fn words(mut stream: TokenStream) -> Vec<String> {
    let mut out = Vec::new();
    while let Some(t) = stream.next() {
        out.push(t.word);
    }
    out
}

fn tokens(mut stream: TokenStream) -> Vec<Token> {
    let mut out = Vec::new();
    while let Some(t) = stream.next() {
        out.push(t);
    }
    out
}

fn reconstructed(analyzed: &text_analyzer::analyzer::AnalyzedText) -> String {
    analyzed.reconstruct().iter().map(|(s, _)| s.as_str()).collect::<String>()
}

const CHINESE_EXPECTED: [&str; 25] = [
    "人人",
    "生而自由",
    ",",
    "在",
    "尊严",
    "和",
    "权利",
    "上",
    "一律平等",
    "。",
    "他们",
    "赋有",
    "理性",
    "和",
    "良心",
    ",",
    "并",
    "应以",
    "兄弟",
    "关系",
    "的",
    "精神",
    "互相",
    "对待",
    "。",
];

#[test]
fn test_simple_latin() {
    let stop_words = fst::Set::default();
    let analyzer = Analyzer::new(AnalyzerConfig::default_with_stopwords(stop_words));

    let orig = "The quick (\"brown\") fox can't jump 32.3 feet, right? Brr, it's 29.3°F!";
    let analyzed = analyzer.analyze(orig);
    let mut analyzed = analyzed.tokens();
    assert_eq!("the", analyzed.next().unwrap().text());
    assert_eq!(" ", analyzed.next().unwrap().text());
    assert_eq!("quick", analyzed.next().unwrap().text());
    assert_eq!(" (\"", analyzed.next().unwrap().text());
    assert_eq!("brown", analyzed.next().unwrap().text());
}

#[test]
fn test_simple_chinese() {
    let stop_words = fst::Set::default();
    let analyzer = Analyzer::new(AnalyzerConfig::default_with_stopwords(stop_words));

    let orig = "人人生而自由﹐在尊严和权利上一律平等。他们赋有理性和良心﹐并应以兄弟关系的精神互相对待。";
    let analyzed = analyzer.analyze(orig);
    let analyzed = words(analyzed.tokens());
    assert_eq!(analyzed, CHINESE_EXPECTED.iter().map(|s| s.to_string()).collect::<Vec<_>>());
}

#[test]
fn test_traditional_chinese() {
    let stop_words = fst::Set::default();
    let analyzer = Analyzer::new(AnalyzerConfig::default_with_stopwords(stop_words));

    let traditional = "人人生而自由﹐在尊嚴和權利上一律平等。他們賦有理性和良心﹐並應以兄弟關係的精神互相對待。";

    let analyzed = analyzer.analyze(traditional);
    let analyzed = words(analyzed.tokens());
    assert_eq!(analyzed, CHINESE_EXPECTED.iter().map(|s| s.to_string()).collect::<Vec<_>>());
}

#[test]
fn test_simple_latin_with_lowercase_normalizer() {
    let mut pipeline_map: Vec<((Script, Language), Pipeline)> = Vec::new();
    pipeline_map.push((
        (Script::Latin, Language::Other),
        Pipeline::default().set_normalizer(Normalizer::new(vec![NormalizerStep::Lowercase])),
    ));

    let stop_words = fst::Set::default();
    let analyzer = Analyzer::new(AnalyzerConfig::new(pipeline_map, stop_words));
    let orig = "The quick (\"brown\") fox can't jump 32.3 feet, right? Brr, it's 29.3°F!";
    let analyzed = analyzer.analyze(orig);
    assert_eq!("the", analyzed.tokens().next().unwrap().text());
}

#[test]
fn test_reconstruct_latin() {
    let stop_words = fst::Set::default();
    let analyzer = Analyzer::new(AnalyzerConfig::default_with_stopwords(stop_words));
    let orig = "The quick (\"brown\") fox can't jump 32.3 feet, right? Brr, it's 29.3°F!";
    let tokens = analyzer.analyze(orig);
    assert_eq!(orig, reconstructed(&tokens));
}

#[test]
fn test_reconstruct_chinese() {
    let stop_words = fst::Set::default();
    let analyzer = Analyzer::new(AnalyzerConfig::default_with_stopwords(stop_words));
    let orig = "人人生而自由﹐在尊严和权利上一律平等。他们赋有理性和良心﹐并应以兄弟关系的精神互相对待。";
    let tokens = analyzer.analyze(orig);
    assert_eq!(orig, reconstructed(&tokens));
}

#[test]
fn test_reconstruct_traditional_chinese() {
    let stop_words = fst::Set::default();
    let analyzer = Analyzer::new(AnalyzerConfig::default_with_stopwords(stop_words));
    let traditional = "人人生而自由﹐在尊嚴和權利上一律平等。他們賦有理性和良心﹐並應以兄弟關係的精神互相對待。";
    let tokens = analyzer.analyze(traditional);
    assert_eq!(traditional, reconstructed(&tokens));
}

#[test]
fn test_simple() {
    let analyzer = Analyzer::new(AnalyzerConfig::new(Vec::new(), fst::Set::default()));
    let orig = "The quick (\"brown\") fox can't jump 32.3 feet, right? Brr, it's 29.3°F!";
    let analyzed = analyzer.analyze(orig);
    assert_eq!(
        orig,
        tokens(analyzed.tokens())
            .iter()
            .map(|t| &orig[t.byte_start..t.byte_end])
            .collect::<String>()
    );
}

#[test]
fn test_fallback_default_pipeline() {
    // with an empty registry every text resolves to the built-in default,
    // which leaves the token text unchanged
    let analyzer = Analyzer::new(AnalyzerConfig::new(Vec::new(), fst::Set::default()));
    let analyzed = analyzer.analyze("Hello");
    let mut stream = analyzed.tokens();
    let first = stream.next().unwrap();
    assert_eq!("Hello", first.text());
    assert!(stream.next().is_none());

    let analyzed = analyzer.analyze("Hello world");
    assert_eq!(words(analyzed.tokens()), vec!["Hello", " ", "world"]);
}

#[test]
fn test_empty_input() {
    let stop_words = fst::Set::default();
    let analyzer = Analyzer::new(AnalyzerConfig::default_with_stopwords(stop_words));
    let analyzed = analyzer.analyze("");
    let mut stream = analyzed.tokens();
    assert!(stream.next().is_none());
    assert_eq!("", reconstructed(&analyzed));
}

#[test]
fn test_transliteration_in_words() {
    // the Latin pipeline transliterates before lowercasing
    let stop_words = fst::Set::default();
    let analyzer = Analyzer::new(AnalyzerConfig::default_with_stopwords(stop_words));
    let analyzed = analyzer.analyze("Ça va");
    let got = words(analyzed.tokens());
    assert_eq!(got[0], "ca");
    assert_eq!(got[1], " ");
    assert_eq!(got[2], "va");
}

#[test]
fn test_typographic_quote_separates() {
    // a typographic quote classifies like its ASCII transliteration: it
    // separates the two words instead of joining them
    let stop_words = fst::Set::default();
    let analyzer = Analyzer::new(AnalyzerConfig::default_with_stopwords(stop_words));
    let analyzed = analyzer.analyze("it\u{2019}s fine");
    let got = words(analyzed.tokens());
    assert_eq!(got[0], "it");
    assert_eq!(got[1], "'");
    assert_eq!(got[2], "s");
}

#[test]
fn test_byte_and_char_offsets() {
    let analyzer = Analyzer::new(AnalyzerConfig::new(Vec::new(), fst::Set::default()));
    let orig = "a°b";
    let analyzed = analyzer.analyze(orig);
    let got = tokens(analyzed.tokens());
    // the ° sign is two bytes long, so byte and char offsets diverge after it
    let last = got.last().unwrap();
    assert_eq!(&orig[last.byte_start..last.byte_end], "b");
    assert_eq!(last.byte_start, 3);
    assert_eq!(last.byte_end, 4);
    assert_eq!(last.char_start, 2);
    assert_eq!(last.char_end, 3);
    assert_eq!(last.byte_len(), 1);
}

#[test]
fn test_determinism() {
    let stop_words = fst::Set::from_iter(["of", "the"].iter()).unwrap();
    let analyzer = Analyzer::new(AnalyzerConfig::default_with_stopwords(stop_words));
    let orig = "The quick (\"brown\") fox can't jump 32.3 feet, right? Brr, it's 29.3°F!";
    let a = tokens(analyzer.analyze(orig).tokens());
    let b = tokens(analyzer.analyze(orig).tokens());
    assert_eq!(a.len(), b.len());
    for (x, y) in a.iter().zip(b.iter()) {
        assert_eq!(x.word, y.word);
        assert_eq!(x.kind(), y.kind());
        assert_eq!(x.byte_start, y.byte_start);
        assert_eq!(x.byte_end, y.byte_end);
        assert_eq!(x.char_start, y.char_start);
        assert_eq!(x.char_end, y.char_end);
    }
}
