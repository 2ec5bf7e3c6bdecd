use vstd::prelude::*;

use crate::automaton::{
    context_mode, feed, finish, flush_number, flush_text, lemma_feed_append, step, tokens_of,
    ItemView, Machine, Mode,
};
use crate::chars::{unicode_alphabetic, unicode_numeric, unicode_white_space};
use crate::token::{ErrorView, TokenView};

verus! {

/// The characters that the tokenizer treats specially in some context.
pub open spec fn is_markup(c: char) -> bool {
    c == '$' || c == '\\' || c == '`' || c == '\'' || c == '(' || c == ')' || c == '['
        || c == ']' || c == '{' || c == '}' || c == '^' || c == '_' || c == '.' || c == ','
        || c == '?' || c == ';' || c == ':'
}

/// A character that extends a prose run.
pub open spec fn is_plain(c: char) -> bool {
    !is_markup(c) && !unicode_white_space(c)
}

proof fn lemma_plain_feed(s: Seq<char>)
    requires
        forall|i: int| 0 <= i < s.len() ==> is_plain(#[trigger] s[i]),
    ensures
        feed(Machine::initial(), s) == Ok::<Machine, ErrorView>(
            Machine { stack: seq![ItemView::Text(s)], toks: Seq::empty() },
        ),
    decreases s.len(),
{
    if s.len() > 0 {
        let p = s.drop_last();
        lemma_plain_feed(p);
        assert(is_plain(s[s.len() - 1]));
        let m = Machine { stack: seq![ItemView::Text(p)], toks: Seq::<TokenView>::empty() };
        assert(m.stack.drop_last() =~= Seq::<ItemView>::empty());
        assert(p.push(s.last()) =~= s);
        assert(seq![ItemView::Text(s)] =~= Seq::<ItemView>::empty().push(ItemView::Text(s)));
    } else {
        assert(s =~= Seq::<char>::empty());
    }
}

/// A nonempty input with no markup character and no whitespace is a single
/// text token holding the whole input.
pub proof fn lemma_plain_input_is_one_text_token(s: Seq<char>)
    requires
        s.len() > 0,
        forall|i: int| 0 <= i < s.len() ==> is_plain(#[trigger] s[i]),
    ensures
        tokens_of(s) == Ok::<Seq<TokenView>, ErrorView>(seq![TokenView::Text(s)]),
{
    lemma_plain_feed(s);
    let m = Machine { stack: seq![ItemView::Text(s)], toks: Seq::<TokenView>::empty() };
    assert(m.stack.drop_last() =~= Seq::<ItemView>::empty());
    assert(Seq::<TokenView>::empty().push(TokenView::Text(s)) =~= seq![TokenView::Text(s)]);
    let done = Machine { stack: Seq::<ItemView>::empty(), toks: seq![TokenView::Text(s)] };
    assert(finish(done) == Ok::<Seq<TokenView>, ErrorView>(seq![TokenView::Text(s)]));
}

/// The machine `m` with `p` emitted before everything it holds.
pub open spec fn shifted(m: Machine, p: Seq<TokenView>) -> Machine {
    Machine { stack: m.stack, toks: p + m.toks }
}

pub open spec fn shifted_result(r: Result<Machine, ErrorView>, p: Seq<TokenView>) -> Result<
    Machine,
    ErrorView,
> {
    match r {
        Ok(m) => Ok(shifted(m, p)),
        Err(e) => Err(e),
    }
}

broadcast proof fn lemma_push_after_concat(p: Seq<TokenView>, t: Seq<TokenView>, x: TokenView)
    ensures
        #[trigger] (p + t).push(x) == p + t.push(x),
{
    assert((p + t).push(x) =~= p + t.push(x));
}

/// Tokens already emitted do not influence a transition.
proof fn lemma_step_shifted(m: Machine, p: Seq<TokenView>, c: char)
    ensures
        step(shifted(m, p), c) == shifted_result(step(m, c), p),
    decreases m.stack.len(),
{
    broadcast use lemma_push_after_concat;

    if m.stack.len() > 0 {
        let rest = m.stack.drop_last();
        match m.stack.last() {
            ItemView::LQuote => {
                lemma_step_shifted(Machine { stack: rest, toks: m.toks.push(TokenView::LQuote) }, p, c);
            },
            ItemView::RQuote => {
                lemma_step_shifted(Machine { stack: rest, toks: m.toks.push(TokenView::RQuote) }, p, c);
            },
            ItemView::Number(buf) => {
                lemma_step_shifted(Machine { stack: rest, toks: m.toks.push(TokenView::Number(buf)) }, p, c);
                lemma_step_shifted(Machine { stack: rest, toks: m.toks }, p, c);
            },
            ItemView::Command(buf) => {
                lemma_step_shifted(Machine { stack: rest, toks: m.toks.push(TokenView::Command(buf)) }, p, c);
            },
            ItemView::Space => {
                lemma_step_shifted(Machine { stack: rest, toks: m.toks.push(TokenView::Space) }, p, c);
                lemma_step_shifted(Machine { stack: rest, toks: m.toks }, p, c);
            },
            _ => {},
        }
    }
}

proof fn lemma_feed_shifted(m: Machine, p: Seq<TokenView>, s: Seq<char>)
    ensures
        feed(shifted(m, p), s) == shifted_result(feed(m, s), p),
    decreases s.len(),
{
    if s.len() > 0 {
        lemma_feed_shifted(m, p, s.drop_last());
        if let Ok(m1) = feed(m, s.drop_last()) {
            lemma_step_shifted(m1, p, s.last());
        }
    }
}

proof fn lemma_finish_shifted(m: Machine, p: Seq<TokenView>)
    ensures
        finish(shifted(m, p)) == match finish(m) {
            Ok(t) => Ok(p + t),
            Err(e) => Err::<Seq<TokenView>, ErrorView>(e),
        },
    decreases m.stack.len(),
{
    broadcast use lemma_push_after_concat;

    if m.stack.len() == 0 {
    } else {
        let rest = m.stack.drop_last();
        match m.stack.last() {
            ItemView::Text(buf) => {
                lemma_finish_shifted(Machine { stack: rest, toks: m.toks }, p);
                lemma_finish_shifted(Machine { stack: rest, toks: m.toks.push(TokenView::Text(buf)) }, p);
            },
            ItemView::Number(buf) => {
                lemma_finish_shifted(Machine { stack: rest, toks: m.toks }, p);
                lemma_finish_shifted(Machine { stack: rest, toks: m.toks.push(TokenView::Number(buf)) }, p);
            },
            ItemView::Command(buf) => {
                lemma_finish_shifted(Machine { stack: rest, toks: m.toks }, p);
                lemma_finish_shifted(Machine { stack: rest, toks: m.toks.push(TokenView::Command(buf)) }, p);
            },
            ItemView::LQuote => {
                lemma_finish_shifted(Machine { stack: rest, toks: m.toks.push(TokenView::LQuote) }, p);
            },
            ItemView::RQuote => {
                lemma_finish_shifted(Machine { stack: rest, toks: m.toks.push(TokenView::RQuote) }, p);
            },
            ItemView::Space => {
                lemma_finish_shifted(Machine { stack: rest, toks: m.toks.push(TokenView::Space) }, p);
            },
            _ => {},
        }
    }
}

/// The automaton sits in prose: a prose context, possibly under a pending
/// quote.
pub open spec fn in_prose(m: Machine) -> bool {
    &&& 1 <= m.stack.len() <= 2
    &&& m.stack[0] is Text
    &&& m.stack.len() == 2 ==> (m.stack[1] is LQuote || m.stack[1] is RQuote)
}

/// A whitespace character that is no markup character (what is known of
/// `char::is_whitespace` here does not exclude that by itself).
pub open spec fn is_blank(c: char) -> bool {
    unicode_white_space(c) && !is_markup(c)
}

proof fn lemma_blank_run_from_prose(m: Machine, w: Seq<char>)
    requires
        in_prose(m),
        w.len() > 0,
        forall|i: int| 0 <= i < w.len() ==> is_blank(#[trigger] w[i]),
    ensures
        finish(m) is Ok,
        feed(m, w) == Ok::<Machine, ErrorView>(
            Machine {
                stack: seq![ItemView::Text(Seq::empty()), ItemView::Space],
                toks: finish(m)->Ok_0,
            },
        ),
    decreases w.len(),
{
    let after = Machine {
        stack: seq![ItemView::Text(Seq::empty()), ItemView::Space],
        toks: finish(m)->Ok_0,
    };
    let base = Machine { stack: m.stack.take(1), toks: m.toks };
    let buf = m.stack[0]->Text_0;
    let empty = Machine { stack: Seq::<ItemView>::empty(), toks: m.toks };
    assert(base.stack.drop_last() =~= Seq::<ItemView>::empty());
    assert(seq![ItemView::Text(Seq::empty()), ItemView::Space] =~= Seq::<ItemView>::empty().push(
        ItemView::Text(Seq::empty()),
    ).push(ItemView::Space));
    if m.stack.len() == 1 {
        assert(m.stack.drop_last() =~= Seq::<ItemView>::empty());
        let flushed = Machine { stack: Seq::<ItemView>::empty(), toks: flush_text(m.toks, buf) };
        assert(finish(flushed) == Ok::<Seq<TokenView>, ErrorView>(flushed.toks));
    } else {
        assert(m.stack.drop_last() =~= m.stack.take(1));
        let q = if m.stack[1] is LQuote { TokenView::LQuote } else { TokenView::RQuote };
        let mid = Machine { stack: m.stack.take(1), toks: m.toks.push(q) };
        let flushed = Machine { stack: Seq::<ItemView>::empty(), toks: flush_text(mid.toks, buf) };
        assert(finish(flushed) == Ok::<Seq<TokenView>, ErrorView>(flushed.toks));
        assert(finish(mid) == Ok::<Seq<TokenView>, ErrorView>(flushed.toks));
        assert(step(mid, w[0]) == Ok::<Machine, ErrorView>(after));
    }
    if w.len() == 1 {
        assert(w.drop_last() =~= Seq::<char>::empty());
        assert(is_blank(w[0]));
        assert(w.last() == w[0]);
    } else {
        lemma_blank_run_from_prose(m, w.drop_last());
        assert(is_blank(w[0]));
        assert(is_blank(w.last()));
        assert(after.stack.drop_last() =~= seq![ItemView::Text(Seq::empty())]);
    }
}

/// Inside prose, a nonempty run of whitespace, whatever its length and its
/// characters, becomes exactly one `Space` token: the tokens of the whole input
/// are those of the part before the run, one `Space`, then those of the part
/// after the run taken on its own.
pub proof fn lemma_blank_run_is_one_space(a: Seq<char>, w: Seq<char>, b: Seq<char>)
    requires
        feed(Machine::initial(), a) is Ok,
        in_prose(feed(Machine::initial(), a)->Ok_0),
        w.len() > 0,
        forall|i: int| 0 <= i < w.len() ==> is_blank(#[trigger] w[i]),
        b.len() > 0 ==> !unicode_white_space(b[0]),
    ensures
        tokens_of(a) is Ok,
        tokens_of(a + w + b) == match tokens_of(b) {
            Ok(tb) => Ok(tokens_of(a)->Ok_0 + seq![TokenView::Space] + tb),
            Err(e) => Err::<Seq<TokenView>, ErrorView>(e),
        },
{
    let init = Machine::initial();
    let m = feed(init, a)->Ok_0;
    lemma_blank_run_from_prose(m, w);
    let t = finish(m)->Ok_0;
    let p = t.push(TokenView::Space);
    let ms = Machine { stack: seq![ItemView::Text(Seq::empty()), ItemView::Space], toks: t };
    lemma_feed_append(init, a, w);
    lemma_feed_append(init, a + w, b);
    assert(feed(init, a + w + b) == feed(ms, b));
    let inner = Machine { stack: seq![ItemView::Text(Seq::empty())], toks: p };
    assert(ms.stack.drop_last() =~= inner.stack);
    assert(shifted(init, p) == inner) by {
        assert(p + init.toks =~= p);
    }
    assert(t + seq![TokenView::Space] =~= p);
    if b.len() == 0 {
        assert(a + w + b =~= a + w);
        assert(inner.stack.drop_last() =~= Seq::<ItemView>::empty());
        let flushed = Machine { stack: Seq::<ItemView>::empty(), toks: p };
        assert(finish(flushed) == Ok::<Seq<TokenView>, ErrorView>(p));
        assert(finish(inner) == Ok::<Seq<TokenView>, ErrorView>(p));
        assert(feed(init, b) == Ok::<Machine, ErrorView>(init));
        assert(init.stack.drop_last() =~= Seq::<ItemView>::empty());
        let none = Machine { stack: Seq::<ItemView>::empty(), toks: Seq::<TokenView>::empty() };
        assert(finish(none) == Ok::<Seq<TokenView>, ErrorView>(Seq::empty()));
        assert(tokens_of(b) == Ok::<Seq<TokenView>, ErrorView>(Seq::empty()));
        assert(p + Seq::<TokenView>::empty() =~= p);
    } else {
        let b0 = b[0];
        let head = seq![b0];
        let tail = b.skip(1);
        assert(b =~= head + tail);
        assert(head.drop_last() =~= Seq::<char>::empty());
        lemma_feed_append(ms, head, tail);
        lemma_feed_append(init, head, tail);
        assert(head.last() == b0);
        assert(feed(ms, head.drop_last()) == Ok::<Machine, ErrorView>(ms));
        assert(feed(init, head.drop_last()) == Ok::<Machine, ErrorView>(init));
        assert(feed(ms, head) == step(ms, b0));
        assert(feed(init, head) == step(init, b0));
        assert(context_mode(inner.stack) == Mode::Text);
        assert(step(ms, b0) == step(inner, b0));
        lemma_step_shifted(init, p, b0);
        if let Ok(y) = step(init, b0) {
            lemma_feed_shifted(y, p, tail);
        }
        assert(feed(ms, b) == shifted_result(feed(init, b), p));
        if let Ok(mb) = feed(init, b) {
            lemma_finish_shifted(mb, p);
        }
    }
}

/// A `Text`, `Number` or `Command` token holds at least one character.
pub open spec fn payload_nonempty(t: TokenView) -> bool {
    match t {
        TokenView::Text(s) => s.len() > 0,
        TokenView::Number(s) => s.len() > 0,
        TokenView::Command(s) => s.len() > 0,
        _ => true,
    }
}

pub open spec fn payloads_nonempty(ts: Seq<TokenView>) -> bool {
    forall|i: int| 0 <= i < ts.len() ==> payload_nonempty(#[trigger] ts[i])
}

broadcast proof fn lemma_payloads_push(ts: Seq<TokenView>, t: TokenView)
    requires
        payloads_nonempty(ts),
        payload_nonempty(t),
    ensures
        #[trigger] payloads_nonempty(ts.push(t)),
{
    assert forall|i: int| 0 <= i < ts.len() + 1 implies payload_nonempty(#[trigger] ts.push(t)[i]) by {
        if i < ts.len() {
            assert(ts.push(t)[i] == ts[i]);
        }
    }
}

proof fn lemma_step_payloads(m: Machine, c: char)
    requires
        payloads_nonempty(m.toks),
        step(m, c) is Ok,
    ensures
        payloads_nonempty(step(m, c)->Ok_0.toks),
    decreases m.stack.len(),
{
    broadcast use lemma_payloads_push;

    if m.stack.len() > 0 {
        let rest = m.stack.drop_last();
        let toks = m.toks;
        match m.stack.last() {
            ItemView::LQuote => {
                if c != '`' {
                    lemma_step_payloads(Machine { stack: rest, toks: toks.push(TokenView::LQuote) }, c);
                }
            },
            ItemView::RQuote => {
                if c != '\'' {
                    lemma_step_payloads(Machine { stack: rest, toks: toks.push(TokenView::RQuote) }, c);
                }
            },
            ItemView::Number(buf) => {
                if !unicode_numeric(c) {
                    lemma_step_payloads(Machine { stack: rest, toks: flush_number(toks, buf) }, c);
                }
            },
            ItemView::Command(buf) => {
                if buf.len() > 0 && !unicode_alphabetic(c) {
                    lemma_step_payloads(Machine { stack: rest, toks: toks.push(TokenView::Command(buf)) }, c);
                }
            },
            ItemView::Space => {
                if !unicode_white_space(c) {
                    if context_mode(rest) == Mode::Text {
                        lemma_step_payloads(Machine { stack: rest, toks: toks.push(TokenView::Space) }, c);
                    } else {
                        lemma_step_payloads(Machine { stack: rest, toks }, c);
                    }
                }
            },
            _ => {},
        }
    }
}

proof fn lemma_feed_payloads(s: Seq<char>)
    requires
        feed(Machine::initial(), s) is Ok,
    ensures
        payloads_nonempty(feed(Machine::initial(), s)->Ok_0.toks),
    decreases s.len(),
{
    if s.len() > 0 {
        lemma_feed_payloads(s.drop_last());
        lemma_step_payloads(feed(Machine::initial(), s.drop_last())->Ok_0, s.last());
    }
}

proof fn lemma_finish_payloads(m: Machine)
    requires
        payloads_nonempty(m.toks),
        finish(m) is Ok,
    ensures
        payloads_nonempty(finish(m)->Ok_0),
    decreases m.stack.len(),
{
    broadcast use lemma_payloads_push;

    if m.stack.len() > 0 {
        let rest = m.stack.drop_last();
        let toks = m.toks;
        match m.stack.last() {
            ItemView::Text(buf) => {
                lemma_finish_payloads(Machine { stack: rest, toks: flush_text(toks, buf) });
            },
            ItemView::Number(buf) => {
                lemma_finish_payloads(Machine { stack: rest, toks: flush_number(toks, buf) });
            },
            ItemView::Command(buf) => {
                if buf.len() == 0 {
                    lemma_finish_payloads(Machine { stack: rest, toks });
                } else {
                    lemma_finish_payloads(Machine { stack: rest, toks: toks.push(TokenView::Command(buf)) });
                }
            },
            ItemView::LQuote => {
                lemma_finish_payloads(Machine { stack: rest, toks: toks.push(TokenView::LQuote) });
            },
            ItemView::RQuote => {
                lemma_finish_payloads(Machine { stack: rest, toks: toks.push(TokenView::RQuote) });
            },
            ItemView::Space => {
                lemma_finish_payloads(Machine { stack: rest, toks: toks.push(TokenView::Space) });
            },
            _ => {},
        }
    }
}

/// No `Text`, `Number` or `Command` token of a successful run is empty.
pub proof fn lemma_no_empty_payload(s: Seq<char>)
    requires
        tokens_of(s) is Ok,
    ensures
        payloads_nonempty(tokens_of(s)->Ok_0),
{
    lemma_feed_payloads(s);
    lemma_finish_payloads(feed(Machine::initial(), s)->Ok_0);
}

} // verus!
