use vstd::prelude::*;

use crate::automaton::{
    command_start, display_math_char, feed, finish, flush_number, flush_text, inline_math_char,
    is_punct, is_symbol, math_char, step, text_char, tokens_of, ItemView, Machine, MathStart,
};
use crate::chars::{unicode_alphabetic, unicode_numeric, unicode_white_space};
use crate::token::{ErrorView, TokenView};

verus! {

/// The characters a token stands for. `alt` picks the second spelling of the
/// tokens that have two: `\[` and `\]` for inline math, `'` for an opening
/// quote inside math.
pub open spec fn glyph(t: TokenView, alt: bool) -> Seq<char> {
    match t {
        TokenView::Text(s) => s,
        TokenView::Number(s) => s,
        TokenView::Command(s) => seq!['\\'] + s,
        TokenView::Symbol(c) => seq![c],
        TokenView::Punct(c) => seq![c],
        TokenView::LBrack => seq!['['],
        TokenView::RBrack => seq![']'],
        TokenView::LCurly => seq!['\\', '{'],
        TokenView::RCurly => seq!['\\', '}'],
        TokenView::LParen => seq!['('],
        TokenView::RParen => seq![')'],
        TokenView::LQuote => if alt {
            seq!['\'']
        } else {
            seq!['`']
        },
        TokenView::RQuote => seq!['\''],
        TokenView::LDQuote => seq!['`', '`'],
        TokenView::RDQuote => seq!['\'', '\''],
        TokenView::VBar => seq!['\\', '|'],
        TokenView::Space => seq![' '],
        TokenView::Super => seq!['^'],
        TokenView::Sub => seq!['_'],
        TokenView::LGroup => seq!['{'],
        TokenView::RGroup => seq!['}'],
        TokenView::StartInlineMath => if alt {
            seq!['\\', '[']
        } else {
            seq!['$']
        },
        TokenView::EndInlineMath => if alt {
            seq!['\\', ']']
        } else {
            seq!['$']
        },
        TokenView::StartDisplayMath => seq!['$', '$'],
        TokenView::EndDisplayMath => seq!['$', '$'],
    }
}

/// `s` is the tokens `ts` written out, each with one of its spellings.
pub open spec fn spells(ts: Seq<TokenView>, s: Seq<char>) -> bool
    decreases ts.len(),
{
    if ts.len() == 0 {
        s.len() == 0
    } else {
        let g0 = glyph(ts.last(), false);
        let g1 = glyph(ts.last(), true);
        ||| g0.len() <= s.len() && s.skip(s.len() - g0.len()) == g0 && spells(
            ts.drop_last(),
            s.take(s.len() - g0.len()),
        )
        ||| g1.len() <= s.len() && s.skip(s.len() - g1.len()) == g1 && spells(
            ts.drop_last(),
            s.take(s.len() - g1.len()),
        )
    }
}

/// The characters an item holds that no token stands for yet.
pub open spec fn item_pending(i: ItemView) -> Seq<char> {
    match i {
        ItemView::Text(b) => b,
        ItemView::Number(b) => b,
        ItemView::Command(b) => seq!['\\'] + b,
        ItemView::LQuote => seq!['`'],
        ItemView::RQuote => seq!['\''],
        ItemView::Space => seq![' '],
        ItemView::InlineMath(_, owed, b) => if owed {
            seq!['$'] + b
        } else {
            b
        },
        ItemView::DisplayMath(closing) => if closing {
            seq!['$']
        } else {
            Seq::empty()
        },
    }
}

pub open spec fn top_pending(stack: Seq<ItemView>) -> Seq<char> {
    if stack.len() == 0 {
        Seq::empty()
    } else {
        item_pending(stack.last())
    }
}

/// The stack of an automaton fed no whitespace: a prose context at the
/// bottom, nothing pending below the top, and no whitespace run.
pub open spec fn settled(stack: Seq<ItemView>) -> bool {
    &&& stack.len() >= 1
    &&& stack[0] is Text
    &&& forall|i: int| 0 <= i < stack.len() - 1 ==> item_pending(#[trigger] stack[i]).len() == 0
    &&& forall|i: int| 0 <= i < stack.len() ==> !(#[trigger] stack[i] is Space)
    &&& stack.last() matches ItemView::InlineMath(_, owed, b) ==> (owed ==> b.len() == 0)
}

/// The part of `p` that the tokens of `m` stand for.
pub open spec fn consumed(m: Machine, p: Seq<char>) -> Seq<char> {
    p.take(p.len() - top_pending(m.stack).len())
}

/// `p` is what the tokens of `m` spell followed by what its top item holds.
pub open spec fn spelled(m: Machine, p: Seq<char>) -> bool {
    &&& top_pending(m.stack).len() <= p.len()
    &&& p == consumed(m, p) + top_pending(m.stack)
    &&& spells(m.toks, consumed(m, p))
}

proof fn lemma_spells_push(ts: Seq<TokenView>, q: Seq<char>, t: TokenView, alt: bool)
    requires
        spells(ts, q),
    ensures
        spells(ts.push(t), q + glyph(t, alt)),
{
    let g = glyph(t, alt);
    let s = q + g;
    assert(ts.push(t).drop_last() =~= ts);
    assert(s.take(s.len() - g.len()) =~= q);
    assert(s.skip(s.len() - g.len()) =~= g);
}

proof fn lemma_spells_flush_text(ts: Seq<TokenView>, q: Seq<char>, b: Seq<char>)
    requires
        spells(ts, q),
    ensures
        spells(flush_text(ts, b), q + b),
{
    if b.len() == 0 {
        assert(q + b =~= q);
    } else {
        lemma_spells_push(ts, q, TokenView::Text(b), false);
    }
}

proof fn lemma_spells_flush_number(ts: Seq<TokenView>, q: Seq<char>, b: Seq<char>)
    requires
        spells(ts, q),
    ensures
        spells(flush_number(ts, b), q + b),
{
    if b.len() == 0 {
        assert(q + b =~= q);
    } else {
        lemma_spells_push(ts, q, TokenView::Number(b), false);
    }
}

proof fn lemma_spelled_intro(m: Machine, q: Seq<char>, p: Seq<char>)
    requires
        spells(m.toks, q),
        p =~= q + top_pending(m.stack),
    ensures
        spelled(m, p),
{
    assert(consumed(m, p) =~= q);
}

proof fn lemma_settled_pop(stack: Seq<ItemView>)
    requires
        settled(stack),
        stack.len() >= 2,
    ensures
        settled(stack.drop_last()),
        item_pending(stack.drop_last().last()).len() == 0,
{
    assert(item_pending(stack[stack.len() - 2]).len() == 0);
}

proof fn lemma_settled_push(stack: Seq<ItemView>, x: ItemView)
    requires
        settled(stack),
        item_pending(stack.last()).len() == 0,
        !(x is Space),
        x matches ItemView::InlineMath(_, owed, b) ==> (owed ==> b.len() == 0),
    ensures
        settled(stack.push(x)),
{
    let s = stack.push(x);
    assert forall|i: int| 0 <= i < s.len() - 1 implies item_pending(#[trigger] s[i]).len() == 0 by {
        if i == stack.len() - 1 {
        } else {
            assert(s[i] == stack[i]);
        }
    }
    assert forall|i: int| 0 <= i < s.len() implies !(#[trigger] s[i] is Space) by {
        if i < stack.len() {
            assert(s[i] == stack[i]);
        }
    }
}

/// The stack that a prose context pushes under what follows it.
proof fn lemma_fresh_prose(rest: Seq<ItemView>, top: ItemView)
    requires
        settled(rest.push(top)),
    ensures
        settled(rest.push(ItemView::Text(Seq::empty()))),
        rest.len() > 0 ==> settled(rest) && item_pending(rest.last()).len() == 0,
{
    let old_stack = rest.push(top);
    assert(old_stack.drop_last() =~= rest);
    if rest.len() == 0 {
        let f = rest.push(ItemView::Text(Seq::empty()));
        assert(f.len() == 1);
        assert(f[0] is Text);
    } else {
        lemma_settled_pop(old_stack);
        lemma_settled_push(rest, ItemView::Text(Seq::empty()));
    }
}

/// A prose context whose run is `buf`, with what its tokens spell before it.
proof fn lemma_text_char_spells(
    toks: Seq<TokenView>,
    rest: Seq<ItemView>,
    buf: Seq<char>,
    q: Seq<char>,
    c: char,
)
    requires
        settled(rest.push(ItemView::Text(buf))),
        spells(toks, q),
        !unicode_white_space(c),
        text_char(toks, rest, buf, c) is Ok,
    ensures
        settled(text_char(toks, rest, buf, c)->Ok_0.stack),
        spelled(text_char(toks, rest, buf, c)->Ok_0, q + buf + seq![c]),
{
    let m2 = text_char(toks, rest, buf, c)->Ok_0;
    let next = q + buf + seq![c];
    let fresh = rest.push(ItemView::Text(Seq::empty()));
    let flushed = flush_text(toks, buf);
    let qb = q + buf;
    lemma_fresh_prose(rest, ItemView::Text(buf));
    lemma_spells_flush_text(toks, q, buf);
    assert(fresh.last() == ItemView::Text(Seq::<char>::empty()));
    if c == '$' {
        let x = ItemView::InlineMath(MathStart::Dollar, true, Seq::empty());
        lemma_settled_push(fresh, x);
        assert(item_pending(x) =~= seq![c]);
        lemma_spelled_intro(m2, qb, next);
    } else if c == '`' || c == '\'' || c == '\\' {
        let x = if c == '`' {
            ItemView::LQuote
        } else if c == '\'' {
            ItemView::RQuote
        } else {
            ItemView::Command(Seq::empty())
        };
        assert(m2.stack == fresh.push(x));
        lemma_settled_push(fresh, x);
        assert(item_pending(x) =~= seq![c]);
        lemma_spelled_intro(m2, qb, next);
    } else if is_punct(c) || c == '(' || c == ')' || c == '{' || c == '}' {
        let t = if is_punct(c) {
            TokenView::Punct(c)
        } else if c == '(' {
            TokenView::LParen
        } else if c == ')' {
            TokenView::RParen
        } else if c == '{' {
            TokenView::LGroup
        } else {
            TokenView::RGroup
        };
        assert(m2 == Machine { stack: fresh, toks: flushed.push(t) });
        lemma_spells_push(flushed, qb, t, false);
        assert(glyph(t, false) =~= seq![c]);
        lemma_spelled_intro(m2, qb + seq![c], next);
    } else {
        let stack2 = rest.push(ItemView::Text(buf.push(c)));
        assert(m2 == Machine { stack: stack2, toks });
        if rest.len() == 0 {
            assert(stack2.len() == 1);
        } else {
            lemma_settled_push(rest, ItemView::Text(buf.push(c)));
        }
        assert(next =~= q + buf.push(c));
        lemma_spelled_intro(m2, q, next);
    }
}

/// An inline-math context whose run is `buf`, for a character other than `$`.
proof fn lemma_math_char_spells(
    toks: Seq<TokenView>,
    rest: Seq<ItemView>,
    start: MathStart,
    buf: Seq<char>,
    q: Seq<char>,
    c: char,
)
    requires
        rest.len() >= 1,
        settled(rest),
        item_pending(rest.last()).len() == 0,
        spells(toks, q),
        !unicode_white_space(c),
    ensures
        settled(math_char(toks, rest, start, buf, c).stack),
        spelled(math_char(toks, rest, start, buf, c), q + buf + seq![c]),
{
    let m2 = math_char(toks, rest, start, buf, c);
    let next = q + buf + seq![c];
    let ctx_item = ItemView::InlineMath(start, false, Seq::empty());
    let ctx = rest.push(ctx_item);
    let flushed = flush_text(toks, buf);
    let qb = q + buf;
    lemma_spells_flush_text(toks, q, buf);
    lemma_settled_push(rest, ctx_item);
    assert(item_pending(ctx.last()) =~= Seq::<char>::empty());
    if is_symbol(c) || is_punct(c) || c == '[' || c == ']' || c == '(' || c == ')' || c == '^'
        || c == '_' || c == '{' || c == '}' {
        let t = if is_symbol(c) {
            TokenView::Symbol(c)
        } else if is_punct(c) {
            TokenView::Punct(c)
        } else if c == '[' {
            TokenView::LBrack
        } else if c == ']' {
            TokenView::RBrack
        } else if c == '(' {
            TokenView::LParen
        } else if c == ')' {
            TokenView::RParen
        } else if c == '^' {
            TokenView::Super
        } else if c == '_' {
            TokenView::Sub
        } else if c == '{' {
            TokenView::LGroup
        } else {
            TokenView::RGroup
        };
        assert(m2 == Machine { stack: ctx, toks: flushed.push(t) });
        lemma_spells_push(flushed, qb, t, false);
        assert(glyph(t, false) =~= seq![c]);
        lemma_spelled_intro(m2, qb + seq![c], next);
    } else if c == '\\' {
        let x = ItemView::Command(Seq::empty());
        lemma_settled_push(ctx, x);
        assert(item_pending(x) =~= seq![c]);
        lemma_spelled_intro(m2, qb, next);
    } else if c == '\'' {
        assert(m2 == Machine { stack: ctx, toks: flushed.push(TokenView::LQuote) });
        lemma_spells_push(flushed, qb, TokenView::LQuote, true);
        assert(glyph(TokenView::LQuote, true) =~= seq![c]);
        lemma_spelled_intro(m2, qb + seq![c], next);
    } else if unicode_numeric(c) {
        let x = ItemView::Number(seq![c]);
        lemma_settled_push(ctx, x);
        lemma_spelled_intro(m2, qb, next);
    } else {
        let x = ItemView::InlineMath(start, false, buf.push(c));
        assert(m2.stack == rest.push(x));
        lemma_settled_push(rest, x);
        assert(next =~= q + buf.push(c));
        lemma_spelled_intro(m2, q, next);
    }
}

/// An inline-math context opened by `start`, `owed` and `buf` as in `ItemView`.
proof fn lemma_inline_math_char_spells(
    toks: Seq<TokenView>,
    rest: Seq<ItemView>,
    start: MathStart,
    owed: bool,
    buf: Seq<char>,
    q: Seq<char>,
    c: char,
)
    requires
        rest.len() >= 1,
        settled(rest),
        item_pending(rest.last()).len() == 0,
        owed ==> buf.len() == 0,
        spells(toks, q),
        !unicode_white_space(c),
        inline_math_char(toks, rest, start, owed, buf, c) is Ok,
    ensures
        settled(inline_math_char(toks, rest, start, owed, buf, c)->Ok_0.stack),
        spelled(
            inline_math_char(toks, rest, start, owed, buf, c)->Ok_0,
            q + item_pending(ItemView::InlineMath(start, owed, buf)) + seq![c],
        ),
{
    let m2 = inline_math_char(toks, rest, start, owed, buf, c)->Ok_0;
    let next = q + item_pending(ItemView::InlineMath(start, owed, buf)) + seq![c];
    if owed && c == '$' {
        let x = ItemView::DisplayMath(false);
        lemma_settled_push(rest, x);
        lemma_spells_push(toks, q, TokenView::StartDisplayMath, false);
        assert(next =~= q + glyph(TokenView::StartDisplayMath, false));
        lemma_spelled_intro(m2, next, next);
    } else {
        let toks1 = if owed {
            toks.push(TokenView::StartInlineMath)
        } else {
            toks
        };
        let q1 = if owed {
            q + seq!['$']
        } else {
            q
        };
        if owed {
            lemma_spells_push(toks, q, TokenView::StartInlineMath, false);
            assert(glyph(TokenView::StartInlineMath, false) =~= seq!['$']);
        }
        assert(next =~= q1 + buf + seq![c]);
        if c == '$' {
            lemma_spells_flush_text(toks1, q1, buf);
            lemma_spells_push(flush_text(toks1, buf), q1 + buf, TokenView::EndInlineMath, false);
            assert(glyph(TokenView::EndInlineMath, false) =~= seq![c]);
            lemma_spelled_intro(m2, next, next);
        } else {
            lemma_math_char_spells(toks1, rest, start, buf, q1, c);
        }
    }
}

/// A display-math context; `closing` as in `ItemView`.
proof fn lemma_display_math_char_spells(
    toks: Seq<TokenView>,
    rest: Seq<ItemView>,
    closing: bool,
    q: Seq<char>,
    c: char,
)
    requires
        rest.len() >= 1,
        settled(rest),
        item_pending(rest.last()).len() == 0,
        spells(toks, q),
        display_math_char(toks, rest, closing, c) is Ok,
    ensures
        settled(display_math_char(toks, rest, closing, c)->Ok_0.stack),
        spelled(
            display_math_char(toks, rest, closing, c)->Ok_0,
            q + item_pending(ItemView::DisplayMath(closing)) + seq![c],
        ),
{
    let m2 = display_math_char(toks, rest, closing, c)->Ok_0;
    let next = q + item_pending(ItemView::DisplayMath(closing)) + seq![c];
    if closing {
        lemma_spells_push(toks, q, TokenView::EndDisplayMath, false);
        assert(next =~= q + glyph(TokenView::EndDisplayMath, false));
        lemma_spelled_intro(m2, next, next);
    } else {
        lemma_settled_push(rest, ItemView::DisplayMath(true));
        assert(next =~= q + seq!['$']);
        lemma_spelled_intro(m2, q, next);
    }
}

/// The first character after a backslash.
proof fn lemma_command_start_spells(
    toks: Seq<TokenView>,
    rest: Seq<ItemView>,
    q: Seq<char>,
    c: char,
)
    requires
        rest.len() >= 1,
        settled(rest),
        item_pending(rest.last()).len() == 0,
        spells(toks, q),
        command_start(toks, rest, c) is Ok,
    ensures
        settled(command_start(toks, rest, c)->Ok_0.stack),
        spelled(command_start(toks, rest, c)->Ok_0, q + seq!['\\'] + seq![c]),
{
    let m2 = command_start(toks, rest, c)->Ok_0;
    let next = q + seq!['\\'] + seq![c];
    if c == '[' {
        let base = rest.drop_last();
        let fresh = base.push(ItemView::Text(Seq::empty()));
        let x = ItemView::InlineMath(MathStart::LBrack, false, Seq::empty());
        if base.len() == 0 {
            assert(fresh.len() == 1);
            assert(settled(fresh));
        } else {
            lemma_settled_pop(rest);
            lemma_settled_push(base, ItemView::Text(Seq::empty()));
        }
        lemma_settled_push(fresh, x);
        let tb = rest.last()->Text_0;
        lemma_spells_flush_text(toks, q, tb);
        assert(q + tb =~= q);
        lemma_spells_push(flush_text(toks, tb), q, TokenView::StartInlineMath, true);
        assert(next =~= q + glyph(TokenView::StartInlineMath, true));
        lemma_spelled_intro(m2, next, next);
    } else if c == ']' {
        lemma_settled_pop(rest);
        let mb = rest.last()->InlineMath_2;
        lemma_spells_flush_text(toks, q, mb);
        assert(q + mb =~= q);
        lemma_spells_push(flush_text(toks, mb), q, TokenView::EndInlineMath, true);
        assert(next =~= q + glyph(TokenView::EndInlineMath, true));
        lemma_spelled_intro(m2, next, next);
    } else if c == '{' || c == '}' || c == '|' {
        let t = if c == '{' {
            TokenView::LCurly
        } else if c == '}' {
            TokenView::RCurly
        } else {
            TokenView::VBar
        };
        assert(m2 == Machine { stack: rest, toks: toks.push(t) });
        lemma_spells_push(toks, q, t, false);
        assert(next =~= q + glyph(t, false));
        lemma_spelled_intro(m2, next, next);
    } else {
        let x = ItemView::Command(seq![c]);
        lemma_settled_push(rest, x);
        assert(next =~= q + item_pending(x));
        lemma_spelled_intro(m2, q, next);
    }
}

proof fn lemma_step_spells(m: Machine, p: Seq<char>, c: char)
    requires
        settled(m.stack),
        spelled(m, p),
        !unicode_white_space(c),
        step(m, c) is Ok,
    ensures
        settled(step(m, c)->Ok_0.stack),
        spelled(step(m, c)->Ok_0, p.push(c)),
    decreases m.stack.len(),
{
    let rest = m.stack.drop_last();
    let top = m.stack.last();
    let toks = m.toks;
    let q = consumed(m, p);
    let next = p.push(c);
    assert(m.stack =~= rest.push(top));
    assert(next =~= q + item_pending(top) + seq![c]);
    if m.stack.len() >= 2 {
        lemma_settled_pop(m.stack);
    }
    assert(!(m.stack[m.stack.len() - 1] is Space));
    match top {
        ItemView::Text(buf) => {
            lemma_text_char_spells(toks, rest, buf, q, c);
        },
        ItemView::LQuote => {
            if c == '`' {
                let m2 = Machine { stack: rest, toks: toks.push(TokenView::LDQuote) };
                lemma_spells_push(toks, q, TokenView::LDQuote, false);
                lemma_spelled_intro(m2, q + glyph(TokenView::LDQuote, false), next);
            } else {
                let m1 = Machine { stack: rest, toks: toks.push(TokenView::LQuote) };
                lemma_spells_push(toks, q, TokenView::LQuote, false);
                lemma_spelled_intro(m1, q + glyph(TokenView::LQuote, false), p);
                lemma_step_spells(m1, p, c);
            }
        },
        ItemView::RQuote => {
            if c == '\'' {
                let m2 = Machine { stack: rest, toks: toks.push(TokenView::RDQuote) };
                lemma_spells_push(toks, q, TokenView::RDQuote, false);
                lemma_spelled_intro(m2, q + glyph(TokenView::RDQuote, false), next);
            } else {
                let m1 = Machine { stack: rest, toks: toks.push(TokenView::RQuote) };
                lemma_spells_push(toks, q, TokenView::RQuote, false);
                lemma_spelled_intro(m1, q + glyph(TokenView::RQuote, false), p);
                lemma_step_spells(m1, p, c);
            }
        },
        ItemView::Number(buf) => {
            if unicode_numeric(c) {
                let x = ItemView::Number(buf.push(c));
                lemma_settled_push(rest, x);
                lemma_spelled_intro(Machine { stack: rest.push(x), toks }, q, next);
            } else {
                let m1 = Machine { stack: rest, toks: flush_number(toks, buf) };
                lemma_spells_flush_number(toks, q, buf);
                lemma_spelled_intro(m1, q + buf, p);
                lemma_step_spells(m1, p, c);
            }
        },
        ItemView::Command(buf) => {
            if buf.len() == 0 {
                assert(next =~= q + seq!['\\'] + seq![c]);
                lemma_command_start_spells(toks, rest, q, c);
            } else if unicode_alphabetic(c) {
                let x = ItemView::Command(buf.push(c));
                lemma_settled_push(rest, x);
                lemma_spelled_intro(Machine { stack: rest.push(x), toks }, q, next);
            } else {
                let t = TokenView::Command(buf);
                let m1 = Machine { stack: rest, toks: toks.push(t) };
                lemma_spells_push(toks, q, t, false);
                lemma_spelled_intro(m1, q + glyph(t, false), p);
                lemma_step_spells(m1, p, c);
            }
        },
        ItemView::Space => {},
        ItemView::InlineMath(start, owed, buf) => {
            lemma_inline_math_char_spells(toks, rest, start, owed, buf, q, c);
        },
        ItemView::DisplayMath(closing) => {
            lemma_display_math_char_spells(toks, rest, closing, q, c);
        },
    }
}

proof fn lemma_feed_spells(s: Seq<char>)
    requires
        forall|i: int| 0 <= i < s.len() ==> !unicode_white_space(#[trigger] s[i]),
        feed(Machine::initial(), s) is Ok,
    ensures
        settled(feed(Machine::initial(), s)->Ok_0.stack),
        spelled(feed(Machine::initial(), s)->Ok_0, s),
    decreases s.len(),
{
    if s.len() == 0 {
        let init = Machine::initial();
        assert(init.stack.last() == ItemView::Text(Seq::<char>::empty()));
        lemma_spelled_intro(init, s, s);
    } else {
        let prev = s.drop_last();
        assert(!unicode_white_space(s[s.len() - 1]));
        lemma_feed_spells(prev);
        lemma_step_spells(feed(Machine::initial(), prev)->Ok_0, prev, s.last());
        assert(prev.push(s.last()) =~= s);
    }
}

proof fn lemma_finish_spells(m: Machine, p: Seq<char>)
    requires
        settled(m.stack),
        spelled(m, p),
        p.len() == 0 || p.last() != '\\',
        finish(m) is Ok,
    ensures
        spells(finish(m)->Ok_0, p),
    decreases m.stack.len(),
{
    let rest = m.stack.drop_last();
    let top = m.stack.last();
    let toks = m.toks;
    let q = consumed(m, p);
    assert(p =~= q + item_pending(top));
    if m.stack.len() >= 2 {
        lemma_settled_pop(m.stack);
    }
    let t = match top {
        ItemView::Text(buf) => flush_text(toks, buf),
        ItemView::Number(buf) => flush_number(toks, buf),
        ItemView::Command(buf) => toks.push(TokenView::Command(buf)),
        ItemView::LQuote => toks.push(TokenView::LQuote),
        _ => toks.push(TokenView::RQuote),
    };
    match top {
        ItemView::Text(buf) => {
            lemma_spells_flush_text(toks, q, buf);
        },
        ItemView::Number(buf) => {
            lemma_spells_flush_number(toks, q, buf);
        },
        ItemView::Command(buf) => {
            if buf.len() == 0 {
                assert(p.last() == '\\');
            }
            lemma_spells_push(toks, q, TokenView::Command(buf), false);
        },
        ItemView::LQuote => {
            lemma_spells_push(toks, q, TokenView::LQuote, false);
        },
        ItemView::RQuote => {
            lemma_spells_push(toks, q, TokenView::RQuote, false);
        },
        _ => {},
    }
    let m1 = Machine { stack: rest, toks: t };
    assert(finish(m) == finish(m1));
    if rest.len() == 0 {
        assert(finish(m1) == Ok::<Seq<TokenView>, ErrorView>(t));
    } else {
        lemma_spelled_intro(m1, p, p);
        lemma_finish_spells(m1, p);
    }
}

/// Writing out the tokens of a successful run, each with one of its
/// spellings, gives back the input, for inputs without whitespace (a run of it
/// becomes one `Space`, or nothing in math) that do not end in a backslash (a
/// lone one there is dropped).
pub proof fn lemma_tokens_spell_input(s: Seq<char>)
    requires
        forall|i: int| 0 <= i < s.len() ==> !unicode_white_space(#[trigger] s[i]),
        s.len() == 0 || s.last() != '\\',
        tokens_of(s) is Ok,
    ensures
        spells(tokens_of(s)->Ok_0, s),
{
    lemma_feed_spells(s);
    lemma_finish_spells(feed(Machine::initial(), s)->Ok_0, s);
}

} // verus!
