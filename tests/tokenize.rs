use latex_tokenizer::{AnnotatedLatexDocument, LatexToken, LatexTokenizer, LatexTokenizerError};

use latex_tokenizer::LatexToken::{
    Command, EndDisplayMath, EndInlineMath, LBrack, LCurly, LDQuote, LGroup, LParen, LQuote,
    Number, Punct, RBrack, RCurly, RDQuote, RGroup, RParen, RQuote, Space, StartDisplayMath,
    StartInlineMath, Sub, Super, Symbol, Text, VBar,
};

fn toks(s: &str) -> Vec<LatexToken> {
    match LatexTokenizer::new().tokenize(s) {
        Ok(v) => v,
        Err(e) => panic!("unexpected error on {:?}: {:?}", s, e),
    }
}

fn err(s: &str) -> LatexTokenizerError {
    match LatexTokenizer::new().tokenize(s) {
        Ok(v) => panic!("expected an error on {:?}, got {:?}", s, v),
        Err(e) => e,
    }
}

fn text(s: &str) -> LatexToken {
    Text(s.to_string())
}

#[test]
fn plain_text_is_one_token() {
    assert_eq!(toks("hello"), vec![text("hello")]);
    assert_eq!(toks("a+b=c<d>e-f"), vec![text("a+b=c<d>e-f")]);
    assert_eq!(toks("x2y3"), vec![text("x2y3")]);
    assert_eq!(toks("über"), vec![text("über")]);
}

#[test]
fn empty_input_has_no_tokens() {
    assert_eq!(toks(""), vec![]);
}

#[test]
fn whitespace_run_collapses_to_one_space() {
    assert_eq!(toks("a b"), vec![text("a"), Space, text("b")]);
    assert_eq!(toks("a \t\n  b"), vec![text("a"), Space, text("b")]);
    assert_eq!(toks("a\u{a0}\u{3000}b"), vec![text("a"), Space, text("b")]);
    assert_eq!(toks("a \t b"), toks("a\nb"));
}

#[test]
fn whitespace_at_end_of_input_is_one_space() {
    assert_eq!(toks("a  "), vec![text("a"), Space]);
    assert_eq!(toks("   "), vec![Space]);
}

#[test]
fn whitespace_in_math_is_dropped() {
    assert_eq!(
        toks("$x + y$"),
        vec![StartInlineMath, text("x"), Symbol('+'), text("y"), EndInlineMath]
    );
}

#[test]
fn quotes() {
    assert_eq!(toks("``x"), vec![LDQuote, text("x")]);
    assert_eq!(toks("`x"), vec![LQuote, text("x")]);
    assert_eq!(toks("''x"), vec![RDQuote, text("x")]);
    assert_eq!(toks("'x"), vec![RQuote, text("x")]);
}

#[test]
fn quotes_at_end_of_input() {
    assert_eq!(toks("x`"), vec![text("x"), LQuote]);
    assert_eq!(toks("x'"), vec![text("x"), RQuote]);
    assert_eq!(toks("``x''"), vec![LDQuote, text("x"), RDQuote]);
}

#[test]
fn apostrophe_in_math_is_an_open_quote() {
    assert_eq!(toks("$f'$"), vec![StartInlineMath, text("f"), LQuote, EndInlineMath]);
}

#[test]
fn inline_math_delimiters() {
    assert_eq!(toks("$x$"), vec![StartInlineMath, text("x"), EndInlineMath]);
    assert_eq!(toks("\\[x\\]"), vec![StartInlineMath, text("x"), EndInlineMath]);
}

#[test]
fn text_around_math() {
    assert_eq!(
        toks("let $n$ be"),
        vec![text("let"), Space, StartInlineMath, text("n"), EndInlineMath, Space, text("be")]
    );
}

#[test]
fn mismatched_math_delimiters() {
    assert!(matches!(err("$x\\]"), LatexTokenizerError::MismatchedMath("$", "\\]")));
    assert!(matches!(err("\\[x$"), LatexTokenizerError::MismatchedMath("\\[", "$")));
}

#[test]
fn unterminated_math() {
    assert!(matches!(err("$x"), LatexTokenizerError::Unterminated("$")));
    assert!(matches!(err("\\[x"), LatexTokenizerError::Unterminated("\\[")));
    assert!(matches!(err("$"), LatexTokenizerError::Unterminated("$")));
    assert!(matches!(err("$$"), LatexTokenizerError::Unterminated("$$")));
    assert!(matches!(err("$12"), LatexTokenizerError::Unterminated("$")));
}

#[test]
fn escaped_and_grouping_braces_differ() {
    assert_eq!(toks("\\{x\\}"), vec![LCurly, text("x"), RCurly]);
    assert_eq!(toks("{x}"), vec![LGroup, text("x"), RGroup]);
}

#[test]
fn superscript_and_subscript_need_math() {
    assert!(matches!(err("x^2"), LatexTokenizerError::Unexpected("^")));
    assert!(matches!(err("x_2"), LatexTokenizerError::Unexpected("_")));
    assert_eq!(
        toks("$x^2_i$"),
        vec![StartInlineMath, text("x"), Super, Number("2".to_string()), Sub, text("i"), EndInlineMath]
    );
}

#[test]
fn command_then_punctuation() {
    assert_eq!(toks("\\alpha,"), vec![Command("alpha".to_string()), Punct(',')]);
}

#[test]
fn command_at_end_of_input() {
    assert_eq!(toks("a\\beta"), vec![text("a"), Command("beta".to_string())]);
}

#[test]
fn lone_trailing_backslash_is_dropped() {
    assert_eq!(toks("a\\"), vec![text("a")]);
}

#[test]
fn invalid_command_character() {
    assert!(matches!(err("\\1"), LatexTokenizerError::UnexpectedCmd('1')));
    assert!(matches!(err("\\ "), LatexTokenizerError::UnexpectedCmd(' ')));
    assert!(matches!(err("\\\\"), LatexTokenizerError::UnexpectedCmd('\\')));
}

#[test]
fn vertical_bar_command() {
    assert_eq!(toks("$\\|x\\|$"), vec![StartInlineMath, VBar, text("x"), VBar, EndInlineMath]);
}

#[test]
fn math_symbols_brackets_and_numbers() {
    assert_eq!(
        toks("$f(x)=[12,3]-y<z>w$"),
        vec![
            StartInlineMath,
            text("f"),
            LParen,
            text("x"),
            RParen,
            text("="),
            LBrack,
            Number("12".to_string()),
            Punct(','),
            Number("3".to_string()),
            RBrack,
            Symbol('-'),
            text("y"),
            Symbol('<'),
            text("z"),
            Symbol('>'),
            text("w"),
            EndInlineMath,
        ]
    );
}

#[test]
fn math_text_run_extends_until_a_delimiter() {
    assert_eq!(toks("$ab$"), vec![StartInlineMath, text("ab"), EndInlineMath]);
    assert_eq!(toks("$ab2$"), vec![StartInlineMath, text("ab"), Number("2".to_string()), EndInlineMath]);
}

#[test]
fn command_inside_math() {
    assert_eq!(
        toks("$\\angle ABC$"),
        vec![StartInlineMath, Command("angle".to_string()), text("ABC"), EndInlineMath]
    );
}

#[test]
fn text_punctuation_and_parens() {
    assert_eq!(
        toks("(a.b,c?d;e:f)"),
        vec![
            LParen,
            text("a"),
            Punct('.'),
            text("b"),
            Punct(','),
            text("c"),
            Punct('?'),
            text("d"),
            Punct(';'),
            text("e"),
            Punct(':'),
            text("f"),
            RParen,
        ]
    );
}

#[test]
fn brackets_in_text_are_text() {
    assert_eq!(toks("a[1]"), vec![text("a[1]")]);
}

#[test]
fn bracket_math_open_inside_math_is_unexpected() {
    assert!(matches!(err("$\\[$"), LatexTokenizerError::Unexpected("\\[")));
}

#[test]
fn bracket_math_close_in_text_is_unexpected() {
    assert!(matches!(err("x\\]"), LatexTokenizerError::Unexpected("\\]")));
}

#[test]
fn empty_display_math() {
    assert_eq!(toks("$$$$"), vec![StartDisplayMath, EndDisplayMath]);
}

#[test]
fn display_math_body_is_not_tokenized() {
    assert!(matches!(err("$$x$$"), LatexTokenizerError::Unexpected("$$")));
}

#[test]
fn display_math_needs_two_closing_dollars() {
    assert!(matches!(err("$$$x"), LatexTokenizerError::MismatchedMath("$$", "$")));
}

#[test]
fn tokens_reconstruct_the_input() {
    let input = "Let``$f(x)$''be\\alpha{y}\\{z\\}:$\\|12\\|^2$.";
    let v = toks(input);
    let mut out = String::new();
    for t in v.iter() {
        match t {
            Text(s) | Number(s) => out.push_str(s),
            Command(s) => {
                out.push('\\');
                out.push_str(s);
            }
            Symbol(c) | Punct(c) => out.push(*c),
            LBrack => out.push('['),
            RBrack => out.push(']'),
            LCurly => out.push_str("\\{"),
            RCurly => out.push_str("\\}"),
            LParen => out.push('('),
            RParen => out.push(')'),
            LQuote => out.push('`'),
            RQuote => out.push('\''),
            LDQuote => out.push_str("``"),
            RDQuote => out.push_str("''"),
            VBar => out.push_str("\\|"),
            Space => out.push(' '),
            Super => out.push('^'),
            Sub => out.push('_'),
            LGroup => out.push('{'),
            RGroup => out.push('}'),
            StartInlineMath | EndInlineMath => out.push('$'),
            StartDisplayMath | EndDisplayMath => out.push_str("$$"),
        }
    }
    assert_eq!(out, input);
}

#[test]
fn document_drops_header_and_joins_lines() {
    let lines = vec![
        "%% source: somewhere".to_string(),
        "%%".to_string(),
        "Let $x".to_string(),
        "%% kept".to_string(),
        "$ be".to_string(),
    ];
    let doc = AnnotatedLatexDocument::from_lines(&lines);
    assert_eq!(
        doc.tokenize().unwrap(),
        vec![
            text("Let"),
            Space,
            StartInlineMath,
            text("x%%"),
            text("kept"),
            EndInlineMath,
            Space,
            text("be"),
        ]
    );
}

#[test]
fn document_header_ends_at_first_other_line() {
    let lines = vec!["% one".to_string(), "%% two".to_string()];
    let doc = AnnotatedLatexDocument::from_lines(&lines);
    assert_eq!(doc.tokenize().unwrap(), vec![text("%"), Space, text("one%%"), Space, text("two")]);
}

#[test]
fn document_of_only_header_is_empty() {
    let lines = vec!["%%a".to_string(), "%%b".to_string()];
    let doc = AnnotatedLatexDocument::from_lines(&lines);
    assert_eq!(doc.tokenize().unwrap(), vec![]);
}
