use vstd::prelude::*;

use crate::automaton::{
    command_start, context_mode, display_math_char, feed, finish, flush_number, flush_text,
    inline_math_char, lemma_feed_append, math_char, run, step, text_char, ItemView, Machine, MathStart,
    Mode,
};
use crate::token::{outcome_view, ErrorView, LatexToken, LatexTokenizerError};

verus! {

/// A pending accumulator on the automaton's stack; see `ItemView`.
enum Item {
    Text(String),
    Number(String),
    Command(String),
    LQuote,
    RQuote,
    Space,
    InlineMath(MathStart, bool, String),
    DisplayMath(bool),
}

impl View for Item {
    type V = ItemView;

    closed spec fn view(&self) -> ItemView {
        match self {
            Item::Text(s) => ItemView::Text(s@),
            Item::Number(s) => ItemView::Number(s@),
            Item::Command(s) => ItemView::Command(s@),
            Item::LQuote => ItemView::LQuote,
            Item::RQuote => ItemView::RQuote,
            Item::Space => ItemView::Space,
            Item::InlineMath(start, owed, s) => ItemView::InlineMath(*start, *owed, s@),
            Item::DisplayMath(closing) => ItemView::DisplayMath(*closing),
        }
    }
}

/// The character-driven tokenizer automaton. One instance tokenizes one input.
pub struct LatexTokenizer {
    stack: Vec<Item>,
    toks: Vec<LatexToken>,
}

impl View for LatexTokenizer {
    type V = Machine;

    closed spec fn view(&self) -> Machine {
        Machine {
            stack: self.stack@.map_values(|i: Item| i@),
            toks: self.toks@.map_values(|t: LatexToken| t@),
        }
    }
}

impl LatexTokenizer {
    /// A tokenizer with no output and one empty prose context.
    pub fn new() -> (r: LatexTokenizer)
        ensures
            r@ == Machine::initial(),
    {
        let r = LatexTokenizer { stack: vec![Item::Text(String::new())], toks: Vec::new() };
        assert(r@.stack =~= Machine::initial().stack);
        assert(r@.toks =~= Machine::initial().toks);
        r
    }

    fn emit(&mut self, t: LatexToken)
        ensures
            final(self)@ == (Machine { stack: old(self)@.stack, toks: old(self)@.toks.push(t@) }),
    {
        self.toks.push(t);
        assert(self@.toks =~= old(self)@.toks.push(t@));
    }

    fn push_item(&mut self, i: Item)
        ensures
            final(self)@ == (Machine { stack: old(self)@.stack.push(i@), toks: old(self)@.toks }),
    {
        self.stack.push(i);
        assert(self@.stack =~= old(self)@.stack.push(i@));
    }

    fn pop_item(&mut self) -> (r: Option<Item>)
        ensures
            old(self)@.stack.len() == 0 ==> r is None && final(self)@ == old(self)@,
            old(self)@.stack.len() > 0 ==> {
                &&& r is Some
                &&& r->Some_0@ == old(self)@.stack.last()
                &&& final(self)@ == (Machine {
                    stack: old(self)@.stack.drop_last(),
                    toks: old(self)@.toks,
                })
            },
    {
        let r = self.stack.pop();
        proof {
            if old(self).stack.len() > 0 {
                assert(self@.stack =~= old(self)@.stack.drop_last());
            }
        }
        r
    }

    fn emit_text(&mut self, buf: String)
        ensures
            final(self)@ == (Machine { stack: old(self)@.stack, toks: flush_text(old(self)@.toks, buf@) }),
    {
        if !buf.as_str().is_empty() {
            self.emit(LatexToken::Text(buf));
        }
    }

    fn emit_number(&mut self, buf: String)
        ensures
            final(self)@ == (Machine {
                stack: old(self)@.stack,
                toks: flush_number(old(self)@.toks, buf@),
            }),
    {
        if !buf.as_str().is_empty() {
            self.emit(LatexToken::Number(buf));
        }
    }

    fn mode(&self) -> (r: Mode)
        ensures
            r == context_mode(self@.stack),
    {
        let n = self.stack.len();
        if n == 0 {
            Mode::Text
        } else {
            match &self.stack[n - 1] {
                Item::InlineMath(..) => Mode::InlineMath,
                Item::DisplayMath(..) => Mode::DisplayMath,
                _ => Mode::Text,
            }
        }
    }
    /// Prose context: `buf` is its pending run, already popped.
    fn tokenize_text_char(&mut self, mut buf: String, c: char) -> (r: Result<(), LatexTokenizerError>)
        ensures
            match r {
                Ok(_) => text_char(old(self)@.toks, old(self)@.stack, buf@, c) == Ok::<Machine, ErrorView>(final(self)@),
                Err(e) => text_char(old(self)@.toks, old(self)@.stack, buf@, c) == Err::<Machine, ErrorView>(e@),
            },
    {
        if c == '$' {
            self.emit_text(buf);
            self.push_item(Item::Text(String::new()));
            self.push_item(Item::InlineMath(MathStart::Dollar, true, String::new()));
        } else if c == '.' || c == ',' || c == '?' || c == ';' || c == ':' {
            self.emit_text(buf);
            self.emit(LatexToken::Punct(c));
            self.push_item(Item::Text(String::new()));
        } else if c == '(' {
            self.emit_text(buf);
            self.emit(LatexToken::LParen);
            self.push_item(Item::Text(String::new()));
        } else if c == ')' {
            self.emit_text(buf);
            self.emit(LatexToken::RParen);
            self.push_item(Item::Text(String::new()));
        } else if c == '`' {
            self.emit_text(buf);
            self.push_item(Item::Text(String::new()));
            self.push_item(Item::LQuote);
        } else if c == '\'' {
            self.emit_text(buf);
            self.push_item(Item::Text(String::new()));
            self.push_item(Item::RQuote);
        } else if c == '\\' {
            self.emit_text(buf);
            self.push_item(Item::Text(String::new()));
            self.push_item(Item::Command(String::new()));
        } else if c.is_whitespace() {
            self.emit_text(buf);
            self.push_item(Item::Text(String::new()));
            self.push_item(Item::Space);
        } else if c == '^' {
            return Err(LatexTokenizerError::Unexpected("^"));
        } else if c == '_' {
            return Err(LatexTokenizerError::Unexpected("_"));
        } else if c == '{' {
            self.emit_text(buf);
            self.emit(LatexToken::LGroup);
            self.push_item(Item::Text(String::new()));
        } else if c == '}' {
            self.emit_text(buf);
            self.emit(LatexToken::RGroup);
            self.push_item(Item::Text(String::new()));
        } else {
            buf.push(c);
            self.push_item(Item::Text(buf));
        }
        Ok(())
    }

    /// Inline-math context opened by `start`, for a character other than `$`:
    /// `buf` is its pending run, already popped.
    fn tokenize_math_char(&mut self, start: MathStart, mut buf: String, c: char)
        ensures
            final(self)@ == math_char(old(self)@.toks, old(self)@.stack, start, buf@, c),
    {
        if c == '+' || c == '-' || c == '<' || c == '>' {
            self.emit_text(buf);
            self.emit(LatexToken::Symbol(c));
            self.push_item(Item::InlineMath(start, false, String::new()));
        } else if c == '.' || c == ',' || c == '?' || c == ';' || c == ':' {
            self.emit_text(buf);
            self.emit(LatexToken::Punct(c));
            self.push_item(Item::InlineMath(start, false, String::new()));
        } else if c == '[' {
            self.emit_text(buf);
            self.emit(LatexToken::LBrack);
            self.push_item(Item::InlineMath(start, false, String::new()));
        } else if c == ']' {
            self.emit_text(buf);
            self.emit(LatexToken::RBrack);
            self.push_item(Item::InlineMath(start, false, String::new()));
        } else if c == '(' {
            self.emit_text(buf);
            self.emit(LatexToken::LParen);
            self.push_item(Item::InlineMath(start, false, String::new()));
        } else if c == ')' {
            self.emit_text(buf);
            self.emit(LatexToken::RParen);
            self.push_item(Item::InlineMath(start, false, String::new()));
        } else if c == '\\' {
            self.emit_text(buf);
            self.push_item(Item::InlineMath(start, false, String::new()));
            self.push_item(Item::Command(String::new()));
        } else if c.is_whitespace() {
            self.emit_text(buf);
            self.push_item(Item::InlineMath(start, false, String::new()));
            self.push_item(Item::Space);
        } else if c == '^' {
            self.emit_text(buf);
            self.emit(LatexToken::Super);
            self.push_item(Item::InlineMath(start, false, String::new()));
        } else if c == '_' {
            self.emit_text(buf);
            self.emit(LatexToken::Sub);
            self.push_item(Item::InlineMath(start, false, String::new()));
        } else if c == '{' {
            self.emit_text(buf);
            self.emit(LatexToken::LGroup);
            self.push_item(Item::InlineMath(start, false, String::new()));
        } else if c == '}' {
            self.emit_text(buf);
            self.emit(LatexToken::RGroup);
            self.push_item(Item::InlineMath(start, false, String::new()));
        } else if c == '\'' {
            self.emit_text(buf);
            self.emit(LatexToken::LQuote);
            self.push_item(Item::InlineMath(start, false, String::new()));
        } else if c.is_numeric() {
            self.emit_text(buf);
            self.push_item(Item::InlineMath(start, false, String::new()));
            let mut digits = String::new();
            digits.push(c);
            assert(digits@ =~= seq![c]);
            self.push_item(Item::Number(digits));
        } else {
            buf.push(c);
            self.push_item(Item::InlineMath(start, false, buf));
        }
    }

    /// Inline-math context opened by `start`: `owed` and `buf` as in `ItemView`,
    /// the context already popped.
    fn tokenize_inline_math_char(
        &mut self,
        start: MathStart,
        owed: bool,
        buf: String,
        c: char,
    ) -> (r: Result<(), LatexTokenizerError>)
        ensures
            match r {
                Ok(_) => inline_math_char(old(self)@.toks, old(self)@.stack, start, owed, buf@, c)
                    == Ok::<Machine, ErrorView>(final(self)@),
                Err(e) => inline_math_char(old(self)@.toks, old(self)@.stack, start, owed, buf@, c)
                    == Err::<Machine, ErrorView>(e@),
            },
    {
        if owed && c == '$' {
            match start {
                MathStart::Dollar => {
                    self.emit(LatexToken::StartDisplayMath);
                    self.push_item(Item::DisplayMath(false));
                    return Ok(());
                },
                MathStart::LBrack => {
                    return Err(LatexTokenizerError::Unexpected("\\[$"));
                },
            }
        }
        if owed {
            self.emit(LatexToken::StartInlineMath);
        }
        if c == '$' {
            match start {
                MathStart::Dollar => {
                    self.emit_text(buf);
                    self.emit(LatexToken::EndInlineMath);
                },
                MathStart::LBrack => {
                    return Err(LatexTokenizerError::MismatchedMath("\\[", "$"));
                },
            }
        } else {
            self.tokenize_math_char(start, buf, c);
        }
        Ok(())
    }

    /// Display-math context, already popped; `closing` as in `ItemView`.
    fn tokenize_display_math_char(&mut self, closing: bool, c: char) -> (r: Result<
        (),
        LatexTokenizerError,
    >)
        ensures
            match r {
                Ok(_) => display_math_char(old(self)@.toks, old(self)@.stack, closing, c)
                    == Ok::<Machine, ErrorView>(final(self)@),
                Err(e) => display_math_char(old(self)@.toks, old(self)@.stack, closing, c)
                    == Err::<Machine, ErrorView>(e@),
            },
    {
        if closing {
            if c == '$' {
                self.emit(LatexToken::EndDisplayMath);
                Ok(())
            } else {
                Err(LatexTokenizerError::MismatchedMath("$$", "$"))
            }
        } else if c == '$' {
            self.push_item(Item::DisplayMath(true));
            Ok(())
        } else {
            Err(LatexTokenizerError::Unexpected("$$"))
        }
    }

    /// The first character after a backslash, the command item already popped.
    fn tokenize_command_start(&mut self, c: char) -> (r: Result<(), LatexTokenizerError>)
        ensures
            match r {
                Ok(_) => command_start(old(self)@.toks, old(self)@.stack, c)
                    == Ok::<Machine, ErrorView>(final(self)@),
                Err(e) => command_start(old(self)@.toks, old(self)@.stack, c)
                    == Err::<Machine, ErrorView>(e@),
            },
    {
        if c == '[' {
            match self.pop_item() {
                Some(Item::Text(text_buf)) => {
                    self.emit_text(text_buf);
                    self.emit(LatexToken::StartInlineMath);
                    self.push_item(Item::Text(String::new()));
                    self.push_item(Item::InlineMath(MathStart::LBrack, false, String::new()));
                    Ok(())
                },
                _ => Err(LatexTokenizerError::Unexpected("\\[")),
            }
        } else if c == ']' {
            match self.pop_item() {
                Some(Item::InlineMath(start, _, math_buf)) => match start {
                    MathStart::LBrack => {
                        self.emit_text(math_buf);
                        self.emit(LatexToken::EndInlineMath);
                        Ok(())
                    },
                    MathStart::Dollar => Err(LatexTokenizerError::MismatchedMath("$", "\\]")),
                },
                _ => Err(LatexTokenizerError::Unexpected("\\]")),
            }
        } else if c == '{' {
            self.emit(LatexToken::LCurly);
            Ok(())
        } else if c == '}' {
            self.emit(LatexToken::RCurly);
            Ok(())
        } else if c == '|' {
            self.emit(LatexToken::VBar);
            Ok(())
        } else if c.is_alphabetic() {
            let mut name = String::new();
            name.push(c);
            assert(name@ =~= seq![c]);
            self.push_item(Item::Command(name));
            Ok(())
        } else {
            Err(LatexTokenizerError::UnexpectedCmd(c))
        }
    }
    /// Applies one character: pops the top item and decides; where the item
    /// ends without taking the character, the character is judged again against
    /// the item beneath.
    fn tokenize_char(&mut self, c: char) -> (r: Result<(), LatexTokenizerError>)
        ensures
            match r {
                Ok(_) => step(old(self)@, c) == Ok::<Machine, ErrorView>(final(self)@),
                Err(e) => step(old(self)@, c) == Err::<Machine, ErrorView>(e@),
            },
    {
        loop
            invariant
                step(self@, c) == step(old(self)@, c),
            decreases self@.stack.len(),
        {
            let ghost before = self@;
            let mode = self.mode();
            let item = self.pop_item();
            match item {
                None => {
                    return Ok(());
                },
                Some(Item::Text(buf)) => {
                    return self.tokenize_text_char(buf, c);
                },
                Some(Item::LQuote) => {
                    if c == '`' {
                        self.emit(LatexToken::LDQuote);
                        return Ok(());
                    }
                    self.emit(LatexToken::LQuote);
                },
                Some(Item::RQuote) => {
                    if c == '\'' {
                        self.emit(LatexToken::RDQuote);
                        return Ok(());
                    }
                    self.emit(LatexToken::RQuote);
                },
                Some(Item::Number(mut buf)) => {
                    if c.is_numeric() {
                        buf.push(c);
                        self.push_item(Item::Number(buf));
                        return Ok(());
                    }
                    self.emit_number(buf);
                },
                Some(Item::Command(mut buf)) => {
                    if buf.as_str().is_empty() {
                        return self.tokenize_command_start(c);
                    }
                    if c.is_alphabetic() {
                        buf.push(c);
                        self.push_item(Item::Command(buf));
                        return Ok(());
                    }
                    self.emit(LatexToken::Command(buf));
                },
                Some(Item::Space) => {
                    if c.is_whitespace() {
                        self.push_item(Item::Space);
                        assert(self@.stack =~= before.stack);
                        return Ok(());
                    }
                    if self.mode() == Mode::Text {
                        self.emit(LatexToken::Space);
                    }
                },
                Some(Item::InlineMath(start, owed, buf)) => {
                    return self.tokenize_inline_math_char(start, owed, buf, c);
                },
                Some(Item::DisplayMath(closing)) => {
                    return self.tokenize_display_math_char(closing, c);
                },
            }
            assert(step(before, c) == step(self@, c));
        }
    }

    /// End of input: flushes what is pending, from the top of the stack down.
    fn finish(self) -> (r: Result<Vec<LatexToken>, LatexTokenizerError>)
        ensures
            outcome_view(r) == finish(self@),
    {
        let mut this = self;
        loop
            invariant
                finish(this@) == finish(self@),
            decreases this@.stack.len(),
        {
            match this.pop_item() {
                None => {
                    return Ok(this.toks);
                },
                Some(Item::Text(buf)) => {
                    this.emit_text(buf);
                },
                Some(Item::Number(buf)) => {
                    this.emit_number(buf);
                },
                Some(Item::Command(buf)) => {
                    if !buf.as_str().is_empty() {
                        this.emit(LatexToken::Command(buf));
                    }
                },
                Some(Item::LQuote) => {
                    this.emit(LatexToken::LQuote);
                },
                Some(Item::RQuote) => {
                    this.emit(LatexToken::RQuote);
                },
                Some(Item::Space) => {
                    this.emit(LatexToken::Space);
                },
                Some(Item::InlineMath(MathStart::Dollar, ..)) => {
                    return Err(LatexTokenizerError::Unterminated("$"));
                },
                Some(Item::InlineMath(MathStart::LBrack, ..)) => {
                    return Err(LatexTokenizerError::Unterminated("\\["));
                },
                Some(Item::DisplayMath(_)) => {
                    return Err(LatexTokenizerError::Unterminated("$$"));
                },
            }
        }
    }

    /// Consumes `source` one character at a time and ends the input: the whole
    /// token sequence, or the first error.
    pub fn tokenize(self, source: &str) -> (r: Result<Vec<LatexToken>, LatexTokenizerError>)
        ensures
            outcome_view(r) == run(self@, source@),
    {
        let ghost start = self@;
        let mut this = self;
        for c in it: source.chars()
            invariant
                it.seq() == source@,
                start == self@,
                feed(start, source@.take(it.index() as int)) == Ok::<Machine, ErrorView>(this@),
        {
            let ghost i = it.index() as int;
            assert(source@.take(i + 1).drop_last() =~= source@.take(i));
            let r = this.tokenize_char(c);
            if let Err(e) = r {
                proof {
                    assert(source@.take(i + 1).last() == c);
                    assert(feed(start, source@.take(i + 1)) == Err::<Machine, ErrorView>(e@));
                    lemma_feed_append(start, source@.take(i + 1), source@.skip(i + 1));
                    assert(source@.take(i + 1) + source@.skip(i + 1) =~= source@);
                }
                return Err(e);
            }
        }
        assert(source@.take(source@.len() as int) =~= source@);
        this.finish()
    }
}

} // verus!
