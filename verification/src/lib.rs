//! Text-analysis front end for a search engine.
//!
//! Given raw input text, the analyzer selects an analysis pipeline based on
//! the detected script and language, runs the text through the pipeline's
//! stages (pre-processing, segmentation, normalization, classification), and
//! emits tagged tokens that map exactly back onto the original text.

pub mod token;
pub mod analyzer;
pub mod classifier;
pub mod detection;
pub mod normalizer;
pub mod processors;
pub mod tokenizer;
pub mod unicode;

pub use analyzer::{Analyzer, AnalyzerConfig, AnalyzedText, Pipeline, TokenStream};
pub use classifier::TokenClassifier;
pub use detection::{Language, Script};
pub use normalizer::{Normalizer, NormalizerStep};
pub use processors::{PreProcessor, ProcessedText};
pub use token::{SeparatorKind, Token, TokenKind};
pub use tokenizer::{JiebaSegmenter, Tokenizer};

