use text_analyzer::analyzer::{Analyzer, AnalyzerConfig};
use text_analyzer::token::{SeparatorKind, TokenKind};

#[test]
fn test() {
    let stop_words = fst::Set::from_iter(["of", "the"].iter()).unwrap();
    let analyzer = Analyzer::new(AnalyzerConfig::default_with_stopwords(stop_words));
    let analyzed = analyzer.analyze("Hello, the dog.");
    let mut stream = analyzed.tokens();
    assert_eq!(stream.next().unwrap().kind(), TokenKind::Word);
    assert_eq!(stream.next().unwrap().kind(), TokenKind::Separator(SeparatorKind::Hard));
    assert_eq!(stream.next().unwrap().kind(), TokenKind::StopWord);
    assert_eq!(stream.next().unwrap().kind(), TokenKind::Separator(SeparatorKind::Soft));
    assert_eq!(stream.next().unwrap().kind(), TokenKind::Word);
    assert_eq!(stream.next().unwrap().kind(), TokenKind::Separator(SeparatorKind::Hard));
    assert!(stream.next().is_none());
}
