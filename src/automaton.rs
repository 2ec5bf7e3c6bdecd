use vstd::prelude::*;

use crate::chars::{unicode_alphabetic, unicode_numeric, unicode_white_space};
use crate::token::{ErrorView, TokenView};

verus! {

/// Which delimiter opened an inline-math context.
#[derive(Clone, Copy, Debug, PartialEq, Eq, Structural)]
pub enum MathStart {
    /// `$`
    Dollar,
    /// `\[`
    LBrack,
}

/// The coarse classification that decides whether a whitespace run is shown.
#[derive(Clone, Copy, Debug, PartialEq, Eq, Structural)]
pub enum Mode {
    Text,
    InlineMath,
    DisplayMath,
}

/// A pending accumulator on the automaton's stack, as a mathematical value.
pub enum ItemView {
    /// Prose context with its pending text run.
    Text(Seq<char>),
    /// A run of numeric characters inside math.
    Number(Seq<char>),
    /// A command name after a backslash (empty right after the backslash).
    Command(Seq<char>),
    /// A backtick waiting to see whether a second one follows.
    LQuote,
    /// An apostrophe waiting to see whether a second one follows.
    RQuote,
    /// A whitespace run.
    Space,
    /// Inline-math context: opening delimiter, whether `StartInlineMath` is still
    /// owed (the `$` that may become `$$`), and the pending text run.
    InlineMath(MathStart, bool, Seq<char>),
    /// Display-math context; the flag says that one closing `$` has been seen.
    DisplayMath(bool),
}

/// The automaton's state: its stack of pending items and the tokens emitted so far.
pub struct Machine {
    pub stack: Seq<ItemView>,
    pub toks: Seq<TokenView>,
}

impl Machine {
    /// A fresh automaton: one empty prose context and no output.
    pub open spec fn initial() -> Machine {
        Machine { stack: seq![ItemView::Text(Seq::empty())], toks: Seq::empty() }
    }
}

pub open spec fn is_punct(c: char) -> bool {
    c == '.' || c == ',' || c == '?' || c == ';' || c == ':'
}

pub open spec fn is_symbol(c: char) -> bool {
    c == '+' || c == '-' || c == '<' || c == '>'
}

/// Appends a pending text run as a token, dropping it when empty.
pub open spec fn flush_text(toks: Seq<TokenView>, buf: Seq<char>) -> Seq<TokenView> {
    if buf.len() == 0 {
        toks
    } else {
        toks.push(TokenView::Text(buf))
    }
}

/// Appends a pending number run as a token, dropping it when empty.
pub open spec fn flush_number(toks: Seq<TokenView>, buf: Seq<char>) -> Seq<TokenView> {
    if buf.len() == 0 {
        toks
    } else {
        toks.push(TokenView::Number(buf))
    }
}

/// The mode given by the innermost context on a stack.
pub open spec fn context_mode(stack: Seq<ItemView>) -> Mode {
    if stack.len() == 0 {
        Mode::Text
    } else {
        match stack.last() {
            ItemView::InlineMath(..) => Mode::InlineMath,
            ItemView::DisplayMath(..) => Mode::DisplayMath,
            _ => Mode::Text,
        }
    }
}

/// One character against a prose context whose pending run is `buf` and that
/// stood on top of `rest`.
pub open spec fn text_char(
    toks: Seq<TokenView>,
    rest: Seq<ItemView>,
    buf: Seq<char>,
    c: char,
) -> Result<Machine, ErrorView> {
    let fresh = rest.push(ItemView::Text(Seq::empty()));
    let flushed = flush_text(toks, buf);
    if c == '$' {
        Ok(
            Machine {
                stack: fresh.push(ItemView::InlineMath(MathStart::Dollar, true, Seq::empty())),
                toks: flushed,
            },
        )
    } else if is_punct(c) {
        Ok(Machine { stack: fresh, toks: flushed.push(TokenView::Punct(c)) })
    } else if c == '(' {
        Ok(Machine { stack: fresh, toks: flushed.push(TokenView::LParen) })
    } else if c == ')' {
        Ok(Machine { stack: fresh, toks: flushed.push(TokenView::RParen) })
    } else if c == '`' {
        Ok(Machine { stack: fresh.push(ItemView::LQuote), toks: flushed })
    } else if c == '\'' {
        Ok(Machine { stack: fresh.push(ItemView::RQuote), toks: flushed })
    } else if c == '\\' {
        Ok(Machine { stack: fresh.push(ItemView::Command(Seq::empty())), toks: flushed })
    } else if unicode_white_space(c) {
        Ok(Machine { stack: fresh.push(ItemView::Space), toks: flushed })
    } else if c == '^' {
        Err(ErrorView::Unexpected("^"@))
    } else if c == '_' {
        Err(ErrorView::Unexpected("_"@))
    } else if c == '{' {
        Ok(Machine { stack: fresh, toks: flushed.push(TokenView::LGroup) })
    } else if c == '}' {
        Ok(Machine { stack: fresh, toks: flushed.push(TokenView::RGroup) })
    } else {
        Ok(Machine { stack: rest.push(ItemView::Text(buf.push(c))), toks })
    }
}

/// One character (not `$`) against an inline-math context opened by `start`
/// whose pending run is `buf` and that stood on top of `rest`.
pub open spec fn math_char(
    toks: Seq<TokenView>,
    rest: Seq<ItemView>,
    start: MathStart,
    buf: Seq<char>,
    c: char,
) -> Machine {
    let ctx = rest.push(ItemView::InlineMath(start, false, Seq::empty()));
    let flushed = flush_text(toks, buf);
    if is_symbol(c) {
        Machine { stack: ctx, toks: flushed.push(TokenView::Symbol(c)) }
    } else if is_punct(c) {
        Machine { stack: ctx, toks: flushed.push(TokenView::Punct(c)) }
    } else if c == '[' {
        Machine { stack: ctx, toks: flushed.push(TokenView::LBrack) }
    } else if c == ']' {
        Machine { stack: ctx, toks: flushed.push(TokenView::RBrack) }
    } else if c == '(' {
        Machine { stack: ctx, toks: flushed.push(TokenView::LParen) }
    } else if c == ')' {
        Machine { stack: ctx, toks: flushed.push(TokenView::RParen) }
    } else if c == '\\' {
        Machine { stack: ctx.push(ItemView::Command(Seq::empty())), toks: flushed }
    } else if unicode_white_space(c) {
        Machine { stack: ctx.push(ItemView::Space), toks: flushed }
    } else if c == '^' {
        Machine { stack: ctx, toks: flushed.push(TokenView::Super) }
    } else if c == '_' {
        Machine { stack: ctx, toks: flushed.push(TokenView::Sub) }
    } else if c == '{' {
        Machine { stack: ctx, toks: flushed.push(TokenView::LGroup) }
    } else if c == '}' {
        Machine { stack: ctx, toks: flushed.push(TokenView::RGroup) }
    } else if c == '\'' {
        Machine { stack: ctx, toks: flushed.push(TokenView::LQuote) }
    } else if unicode_numeric(c) {
        Machine { stack: ctx.push(ItemView::Number(seq![c])), toks: flushed }
    } else {
        Machine { stack: rest.push(ItemView::InlineMath(start, false, buf.push(c))), toks }
    }
}

/// One character against an inline-math context (see `math_char`); `owed` says
/// that the opening `$` has not been followed by anything yet.
pub open spec fn inline_math_char(
    toks: Seq<TokenView>,
    rest: Seq<ItemView>,
    start: MathStart,
    owed: bool,
    buf: Seq<char>,
    c: char,
) -> Result<Machine, ErrorView> {
    if owed && c == '$' {
        match start {
            MathStart::Dollar => Ok(
                Machine {
                    stack: rest.push(ItemView::DisplayMath(false)),
                    toks: toks.push(TokenView::StartDisplayMath),
                },
            ),
            MathStart::LBrack => Err(ErrorView::Unexpected("\\[$"@)),
        }
    } else {
        let toks1 = if owed {
            toks.push(TokenView::StartInlineMath)
        } else {
            toks
        };
        if c == '$' {
            match start {
                MathStart::Dollar => Ok(
                    Machine {
                        stack: rest,
                        toks: flush_text(toks1, buf).push(TokenView::EndInlineMath),
                    },
                ),
                MathStart::LBrack => Err(ErrorView::MismatchedMath("\\["@, "$"@)),
            }
        } else {
            Ok(math_char(toks1, rest, start, buf, c))
        }
    }
}

/// One character against a display-math context. Only the closing `$$` is
/// accepted: display-math bodies are not tokenized.
pub open spec fn display_math_char(
    toks: Seq<TokenView>,
    rest: Seq<ItemView>,
    closing: bool,
    c: char,
) -> Result<Machine, ErrorView> {
    if closing {
        if c == '$' {
            Ok(Machine { stack: rest, toks: toks.push(TokenView::EndDisplayMath) })
        } else {
            Err(ErrorView::MismatchedMath("$$"@, "$"@))
        }
    } else if c == '$' {
        Ok(Machine { stack: rest.push(ItemView::DisplayMath(true)), toks })
    } else {
        Err(ErrorView::Unexpected("$$"@))
    }
}

/// The first character after a backslash, the command item having stood on top
/// of `rest`.
pub open spec fn command_start(
    toks: Seq<TokenView>,
    rest: Seq<ItemView>,
    c: char,
) -> Result<Machine, ErrorView> {
    if c == '[' {
        if rest.len() > 0 && rest.last() is Text {
            Ok(
                Machine {
                    stack: rest.drop_last().push(ItemView::Text(Seq::empty())).push(
                        ItemView::InlineMath(MathStart::LBrack, false, Seq::empty()),
                    ),
                    toks: flush_text(toks, rest.last()->Text_0).push(TokenView::StartInlineMath),
                },
            )
        } else {
            Err(ErrorView::Unexpected("\\["@))
        }
    } else if c == ']' {
        if rest.len() > 0 && rest.last() is InlineMath {
            match rest.last()->InlineMath_0 {
                MathStart::LBrack => Ok(
                    Machine {
                        stack: rest.drop_last(),
                        toks: flush_text(toks, rest.last()->InlineMath_2).push(
                            TokenView::EndInlineMath,
                        ),
                    },
                ),
                MathStart::Dollar => Err(ErrorView::MismatchedMath("$"@, "\\]"@)),
            }
        } else {
            Err(ErrorView::Unexpected("\\]"@))
        }
    } else if c == '{' {
        Ok(Machine { stack: rest, toks: toks.push(TokenView::LCurly) })
    } else if c == '}' {
        Ok(Machine { stack: rest, toks: toks.push(TokenView::RCurly) })
    } else if c == '|' {
        Ok(Machine { stack: rest, toks: toks.push(TokenView::VBar) })
    } else if unicode_alphabetic(c) {
        Ok(Machine { stack: rest.push(ItemView::Command(seq![c])), toks })
    } else {
        Err(ErrorView::UnexpectedCmd(c))
    }
}

/// The transition on one character. An item that the character ends is
/// flushed and popped, and the same character is judged again against the
/// item beneath it.
pub open spec fn step(m: Machine, c: char) -> Result<Machine, ErrorView>
    decreases m.stack.len(),
{
    if m.stack.len() == 0 {
        Ok(m)
    } else {
        let rest = m.stack.drop_last();
        let toks = m.toks;
        match m.stack.last() {
            ItemView::Text(buf) => text_char(toks, rest, buf, c),
            ItemView::LQuote => if c == '`' {
                Ok(Machine { stack: rest, toks: toks.push(TokenView::LDQuote) })
            } else {
                step(Machine { stack: rest, toks: toks.push(TokenView::LQuote) }, c)
            },
            ItemView::RQuote => if c == '\'' {
                Ok(Machine { stack: rest, toks: toks.push(TokenView::RDQuote) })
            } else {
                step(Machine { stack: rest, toks: toks.push(TokenView::RQuote) }, c)
            },
            ItemView::Number(buf) => if unicode_numeric(c) {
                Ok(Machine { stack: rest.push(ItemView::Number(buf.push(c))), toks })
            } else {
                step(Machine { stack: rest, toks: flush_number(toks, buf) }, c)
            },
            ItemView::Command(buf) => if buf.len() == 0 {
                command_start(toks, rest, c)
            } else if unicode_alphabetic(c) {
                Ok(Machine { stack: rest.push(ItemView::Command(buf.push(c))), toks })
            } else {
                step(Machine { stack: rest, toks: toks.push(TokenView::Command(buf)) }, c)
            },
            ItemView::Space => if unicode_white_space(c) {
                Ok(m)
            } else if context_mode(rest) == Mode::Text {
                step(Machine { stack: rest, toks: toks.push(TokenView::Space) }, c)
            } else {
                step(Machine { stack: rest, toks }, c)
            },
            ItemView::InlineMath(start, owed, buf) => inline_math_char(
                toks,
                rest,
                start,
                owed,
                buf,
                c,
            ),
            ItemView::DisplayMath(closing) => display_math_char(toks, rest, closing, c),
        }
    }
}

/// The automaton after consuming every character of `s`, in order, or the
/// first error.
pub open spec fn feed(m: Machine, s: Seq<char>) -> Result<Machine, ErrorView>
    decreases s.len(),
{
    if s.len() == 0 {
        Ok(m)
    } else {
        match feed(m, s.drop_last()) {
            Ok(m1) => step(m1, s.last()),
            Err(e) => Err(e),
        }
    }
}

/// End of input: pending items are flushed from the top down; an open math
/// context is an error.
pub open spec fn finish(m: Machine) -> Result<Seq<TokenView>, ErrorView>
    decreases m.stack.len(),
{
    if m.stack.len() == 0 {
        Ok(m.toks)
    } else {
        let rest = m.stack.drop_last();
        let toks = m.toks;
        match m.stack.last() {
            ItemView::Text(buf) => finish(Machine { stack: rest, toks: flush_text(toks, buf) }),
            ItemView::Number(buf) => finish(
                Machine { stack: rest, toks: flush_number(toks, buf) },
            ),
            ItemView::Command(buf) => if buf.len() == 0 {
                finish(Machine { stack: rest, toks })
            } else {
                finish(Machine { stack: rest, toks: toks.push(TokenView::Command(buf)) })
            },
            ItemView::LQuote => finish(Machine { stack: rest, toks: toks.push(TokenView::LQuote) }),
            ItemView::RQuote => finish(Machine { stack: rest, toks: toks.push(TokenView::RQuote) }),
            ItemView::Space => finish(Machine { stack: rest, toks: toks.push(TokenView::Space) }),
            ItemView::InlineMath(MathStart::Dollar, ..) => Err(ErrorView::Unterminated("$"@)),
            ItemView::InlineMath(MathStart::LBrack, ..) => Err(ErrorView::Unterminated("\\["@)),
            ItemView::DisplayMath(_) => Err(ErrorView::Unterminated("$$"@)),
        }
    }
}

/// Feeds `s` to `m`, then ends the input.
pub open spec fn run(m: Machine, s: Seq<char>) -> Result<Seq<TokenView>, ErrorView> {
    match feed(m, s) {
        Ok(m1) => finish(m1),
        Err(e) => Err(e),
    }
}

/// The tokens of a whole input, or its first error.
pub open spec fn tokens_of(s: Seq<char>) -> Result<Seq<TokenView>, ErrorView> {
    run(Machine::initial(), s)
}

/// Feeding two pieces one after the other is feeding their concatenation.
pub proof fn lemma_feed_append(m: Machine, a: Seq<char>, b: Seq<char>)
    ensures
        feed(m, a + b) == match feed(m, a) {
            Ok(m1) => feed(m1, b),
            Err(e) => Err(e),
        },
    decreases b.len(),
{
    if b.len() == 0 {
        assert(a + b =~= a);
    } else {
        lemma_feed_append(m, a, b.drop_last());
        assert((a + b).drop_last() =~= a + b.drop_last());
        assert((a + b).last() == b.last());
    }
}

} // verus!
