use vstd::prelude::*;

verus! {

/// A lexical unit produced by the tokenizer.
#[derive(Clone, Debug, PartialEq, Eq)]
pub enum LatexToken {
    Text(String),
    Number(String),
    Command(String),
    Symbol(char),
    Punct(char),
    LBrack,
    RBrack,
    LCurly,
    RCurly,
    LParen,
    RParen,
    LQuote,
    RQuote,
    LDQuote,
    RDQuote,
    VBar,
    Space,
    Super,
    Sub,
    LGroup,
    RGroup,
    StartInlineMath,
    EndInlineMath,
    StartDisplayMath,
    EndDisplayMath,
}

/// The mathematical value of a `LatexToken`: payloads as character sequences.
pub enum TokenView {
    Text(Seq<char>),
    Number(Seq<char>),
    Command(Seq<char>),
    Symbol(char),
    Punct(char),
    LBrack,
    RBrack,
    LCurly,
    RCurly,
    LParen,
    RParen,
    LQuote,
    RQuote,
    LDQuote,
    RDQuote,
    VBar,
    Space,
    Super,
    Sub,
    LGroup,
    RGroup,
    StartInlineMath,
    EndInlineMath,
    StartDisplayMath,
    EndDisplayMath,
}

impl View for LatexToken {
    type V = TokenView;

    open spec fn view(&self) -> TokenView {
        match self {
            LatexToken::Text(s) => TokenView::Text(s@),
            LatexToken::Number(s) => TokenView::Number(s@),
            LatexToken::Command(s) => TokenView::Command(s@),
            LatexToken::Symbol(c) => TokenView::Symbol(*c),
            LatexToken::Punct(c) => TokenView::Punct(*c),
            LatexToken::LBrack => TokenView::LBrack,
            LatexToken::RBrack => TokenView::RBrack,
            LatexToken::LCurly => TokenView::LCurly,
            LatexToken::RCurly => TokenView::RCurly,
            LatexToken::LParen => TokenView::LParen,
            LatexToken::RParen => TokenView::RParen,
            LatexToken::LQuote => TokenView::LQuote,
            LatexToken::RQuote => TokenView::RQuote,
            LatexToken::LDQuote => TokenView::LDQuote,
            LatexToken::RDQuote => TokenView::RDQuote,
            LatexToken::VBar => TokenView::VBar,
            LatexToken::Space => TokenView::Space,
            LatexToken::Super => TokenView::Super,
            LatexToken::Sub => TokenView::Sub,
            LatexToken::LGroup => TokenView::LGroup,
            LatexToken::RGroup => TokenView::RGroup,
            LatexToken::StartInlineMath => TokenView::StartInlineMath,
            LatexToken::EndInlineMath => TokenView::EndInlineMath,
            LatexToken::StartDisplayMath => TokenView::StartDisplayMath,
            LatexToken::EndDisplayMath => TokenView::EndDisplayMath,
        }
    }
}

/// Why a document could not be read or tokenized.
#[derive(Debug)]
pub enum LatexTokenizerError {
    /// The document could not be read.
    Io(std::io::Error),
    /// A structural rule was violated; the payload names the offending construct.
    Unexpected(&'static str),
    /// An invalid character directly follows a backslash.
    UnexpectedCmd(char),
    /// Input ended while a math context opened by the payload was still open.
    Unterminated(&'static str),
    /// A math context opened by the first delimiter was closed by the second.
    MismatchedMath(&'static str, &'static str),
}

/// The mathematical value of a `LatexTokenizerError`.
pub enum ErrorView {
    Io,
    Unexpected(Seq<char>),
    UnexpectedCmd(char),
    Unterminated(Seq<char>),
    MismatchedMath(Seq<char>, Seq<char>),
}

impl View for LatexTokenizerError {
    type V = ErrorView;

    open spec fn view(&self) -> ErrorView {
        match self {
            LatexTokenizerError::Io(_) => ErrorView::Io,
            LatexTokenizerError::Unexpected(s) => ErrorView::Unexpected(s@),
            LatexTokenizerError::UnexpectedCmd(c) => ErrorView::UnexpectedCmd(*c),
            LatexTokenizerError::Unterminated(s) => ErrorView::Unterminated(s@),
            LatexTokenizerError::MismatchedMath(a, b) => ErrorView::MismatchedMath(a@, b@),
        }
    }
}

/// The tokens of a successful run, or the error of a failed one, as mathematical values.
pub open spec fn outcome_view(r: Result<Vec<LatexToken>, LatexTokenizerError>) -> Result<
    Seq<TokenView>,
    ErrorView,
> {
    match r {
        Ok(v) => Ok(v@.map_values(|t: LatexToken| t@)),
        Err(e) => Err(e@),
    }
}

} // verus!
