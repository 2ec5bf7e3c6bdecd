//! Tokenizer for LaTeX-like markup of math-competition solutions: prose, inline
//! and display math, quotation marks, numbers, commands and delimiters become a
//! flat sequence of tokens.
//!
//! `automaton` states the tokenizer as a state machine over mathematical
//! values, `tokenizer` runs it and is proved to agree with it, and `laws` and
//! `spelling` prove general properties of its output.

pub mod automaton;
pub mod chars;
pub mod document;
pub mod laws;
pub mod spelling;
pub mod token;
pub mod tokenizer;

pub use document::AnnotatedLatexDocument;
pub use token::{LatexToken, LatexTokenizerError};
pub use tokenizer::LatexTokenizer;
