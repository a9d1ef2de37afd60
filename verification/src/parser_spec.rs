use vstd::prelude::*;

use crate::parse_error::ParseErrorView;
use crate::token::{token_text, TokenView};

verus! {

/// The mathematical value of an expression placeholder.
pub enum ExpressionView {
    Unnamed,
    Named(Seq<char>),
}

/// The mathematical value of a parsed node.
pub enum NodeView {
    Element { tag: Seq<char>, tag_descriptors: Seq<Seq<char>>, children: Seq<NodeView> },
    Text(Seq<char>),
    Expression(ExpressionView),
}

/// A parse step's outcome: the value read and the position after it, or an error.
pub type Step<T> = Result<(T, int), ParseErrorView>;

/// The error for the token at position `p`, or for the end of the input.
pub open spec fn token_error(ts: Seq<TokenView>, p: int) -> ParseErrorView {
    if 0 <= p < ts.len() {
        ParseErrorView::InvalidToken(token_text(ts[p]))
    } else {
        ParseErrorView::UnexpectedEof
    }
}

/// Whether the token at `p` exists and satisfies `f`.
pub open spec fn is_at(ts: Seq<TokenView>, p: int, f: spec_fn(TokenView) -> bool) -> bool {
    0 <= p < ts.len() && f(ts[p])
}

/// Puts `x` in front of the text a step read.
pub open spec fn prepend_text(x: Seq<char>, r: Step<Seq<char>>) -> Step<Seq<char>> {
    match r {
        Ok((c, q)) => Ok((x + c, q)),
        Err(e) => Err(e),
    }
}

/// What a backslash makes of the token after it: the token's own characters, except that
/// a text starting with `n` stands for a line break followed by the rest of it.
pub open spec fn escaped_text(t: TokenView) -> Seq<char> {
    match t {
        TokenView::Text(s) => if s.len() > 0 && s[0] == 'n' {
            seq!['\n'] + s.drop_first()
        } else {
            s
        },
        _ => token_text(t),
    }
}

/// Whether token `t` ends a run of text that is quoted by `quote`.
pub open spec fn ends_quoted_text(t: TokenView, quote: Option<char>) -> bool {
    ||| (t is DoubleQuote && quote == Some('"'))
    ||| (t is Quote && quote == Some('\''))
}

/// Whether token `t` stands for its own character inside a run of text.
pub open spec fn is_literal_in_text(t: TokenView, quote: Option<char>) -> bool {
    ||| ((t is AngleOpen || t is AngleClose) && quote is Some)
    ||| t is DoubleQuote
    ||| t is Quote
    ||| t is Colon
    ||| t is Slash
    ||| (t is CurlyOpen && quote is Some)
    ||| t is CurlyClose
}

/// A run of text starting at `p`. Outside quotes (`quote` is `None`) it stops before an
/// angle bracket or a `{`, where an element or a placeholder starts; inside quotes it
/// stops before the closing quote, angle brackets and braces being text there. Both stop
/// at the end.
pub open spec fn spec_text(ts: Seq<TokenView>, p: int, quote: Option<char>) -> Step<Seq<char>>
    decreases ts.len() - p,
{
    if p < 0 || p >= ts.len() {
        Ok((Seq::empty(), p))
    } else {
        let t = ts[p];
        if ends_quoted_text(t, quote) {
            Ok((Seq::empty(), p))
        } else if is_literal_in_text(t, quote) {
            prepend_text(token_text(t), spec_text(ts, p + 1, quote))
        } else if t is Text {
            prepend_text(t->Text_0, spec_text(ts, p + 1, quote))
        } else if t is Backslash {
            if p + 1 >= ts.len() {
                Err(ParseErrorView::UnexpectedEof)
            } else {
                prepend_text(escaped_text(ts[p + 1]), spec_text(ts, p + 2, quote))
            }
        } else {
            Ok((Seq::empty(), p))
        }
    }
}

/// A run of text never ends before it starts, nor after the input.
pub proof fn lemma_text_progress(ts: Seq<TokenView>, p: int, quote: Option<char>)
    requires
        0 <= p,
    ensures
        spec_text(ts, p, quote) matches Ok((_, q)) ==> p <= q && (p <= ts.len() ==> q <= ts.len()),
        p < ts.len() && !ends_quoted_text(ts[p], quote) && (is_literal_in_text(ts[p], quote)
            || ts[p] is Text || ts[p] is Backslash) ==> (spec_text(ts, p, quote) matches Ok((_, q))
            ==> p < q),
    decreases ts.len() - p,
{
    if 0 <= p < ts.len() {
        let t = ts[p];
        if !ends_quoted_text(t, quote) && (is_literal_in_text(t, quote) || t is Text) {
            lemma_text_progress(ts, p + 1, quote);
        } else if !ends_quoted_text(t, quote) && t is Backslash && p + 1 < ts.len() {
            lemma_text_progress(ts, p + 2, quote);
        }
    }
}

/// Puts `d` in front of the descriptors a step read.
pub open spec fn prepend_descriptor(d: Seq<char>, r: Step<Seq<Seq<char>>>) -> Step<
    Seq<Seq<char>>,
> {
    match r {
        Ok((ds, q)) => Ok((seq![d] + ds, q)),
        Err(e) => Err(e),
    }
}

/// A quoted descriptor: the text up to the closing quote, which is consumed too.
pub open spec fn spec_quoted(ts: Seq<TokenView>, p: int, quote: char) -> Step<Seq<char>> {
    match spec_text(ts, p, Some(quote)) {
        Err(e) => Err(e),
        Ok((c, q)) => if q >= ts.len() {
            Err(ParseErrorView::UnexpectedEof)
        } else if ends_quoted_text(ts[q], Some(quote)) {
            Ok((c, q + 1))
        } else {
            Err(token_error(ts, q))
        },
    }
}

/// The descriptors of an element, each after a colon: a bare text, or a quoted one.
pub open spec fn spec_descriptors(ts: Seq<TokenView>, p: int) -> Step<Seq<Seq<char>>>
    decreases ts.len() - p,
{
    if p < 0 || !is_at(ts, p, |t: TokenView| t is Colon) {
        Ok((Seq::empty(), p))
    } else if p + 1 >= ts.len() {
        Err(ParseErrorView::UnexpectedEof)
    } else {
        let t = ts[p + 1];
        let one = if t is Text {
            Ok((t->Text_0, p + 2))
        } else if t is DoubleQuote {
            spec_quoted(ts, p + 2, '"')
        } else if t is Quote {
            spec_quoted(ts, p + 2, '\'')
        } else {
            Err(token_error(ts, p + 1))
        };
        match one {
            Err(e) => Err(e),
            Ok((d, q)) => {
                proof {
                    lemma_text_progress(ts, p + 2, Some('"'));
                    lemma_text_progress(ts, p + 2, Some('\''));
                }
                prepend_descriptor(d, spec_descriptors(ts, q))
            },
        }
    }
}

/// The descriptors of an element end no earlier than they start.
pub proof fn lemma_descriptors_progress(ts: Seq<TokenView>, p: int)
    requires
        0 <= p <= ts.len(),
    ensures
        spec_descriptors(ts, p) matches Ok((_, q)) ==> p <= q <= ts.len(),
    decreases ts.len() - p,
{
    if is_at(ts, p, |t: TokenView| t is Colon) && p + 1 < ts.len() {
        lemma_text_progress(ts, p + 2, Some('"'));
        lemma_text_progress(ts, p + 2, Some('\''));
        let t = ts[p + 1];
        let one = if t is Text {
            Ok((t->Text_0, p + 2))
        } else if t is DoubleQuote {
            spec_quoted(ts, p + 2, '"')
        } else if t is Quote {
            spec_quoted(ts, p + 2, '\'')
        } else {
            Err(token_error(ts, p + 1))
        };
        if let Ok((d, q)) = one {
            lemma_descriptors_progress(ts, q);
        }
    }
}

/// Whether a tag names an element that stands for a line break and has no body.
pub open spec fn is_void_tag(tag: Seq<char>) -> bool {
    tag == "newline"@ || tag == "br"@
}

/// Puts a node in front of the nodes a step read.
pub open spec fn prepend_node(n: NodeView, r: Step<Seq<NodeView>>) -> Step<Seq<NodeView>> {
    match r {
        Ok((ns, q)) => Ok((seq![n] + ns, q)),
        Err(e) => Err(e),
    }
}

/// An element after its `<`: the tag, its descriptors and `>`, then, unless the tag is a
/// line break, its children up to the closing tag or the end of the input.
pub open spec fn spec_element_body(ts: Seq<TokenView>, p: int) -> Step<NodeView>
    decreases ts.len() - p, 3int,
{
    if p < 0 || p >= ts.len() {
        Err(ParseErrorView::UnexpectedEof)
    } else if !(ts[p] is Text) {
        Err(token_error(ts, p))
    } else {
        let tag = ts[p]->Text_0;
        match spec_descriptors(ts, p + 1) {
            Err(e) => Err(e),
            Ok((ds, q)) => if !is_at(ts, q, |t: TokenView| t is AngleClose) {
                Err(token_error(ts, q))
            } else if is_void_tag(tag) {
                Ok((NodeView::Text(seq!['\n']), q + 1))
            } else {
                proof {
                    lemma_descriptors_progress(ts, p + 1);
                }
                match spec_children(ts, q + 1, tag) {
                    Err(e) => Err(e),
                    Ok((cs, r)) => Ok(
                        (NodeView::Element { tag, tag_descriptors: ds, children: cs }, r),
                    ),
                }
            },
        }
    }
}

/// The children of an element named `closing`, up to and including its closing tag, or
/// up to a token that starts no node, or the end of the input. (Each node read ends after
/// it starts; the position check only keeps the definition well founded.)
pub open spec fn spec_children(ts: Seq<TokenView>, p: int, closing: Seq<char>) -> Step<
    Seq<NodeView>,
>
    decreases ts.len() - p, 2int,
{
    if p >= 0 && is_at(ts, p, |t: TokenView| t is AngleOpen) {
        if is_at(ts, p + 1, |t: TokenView| t is Slash) {
            if !is_at(ts, p + 2, |t: TokenView| t is Text) {
                Err(token_error(ts, p + 2))
            } else if !is_at(ts, p + 3, |t: TokenView| t is AngleClose) {
                Err(token_error(ts, p + 3))
            } else if ts[p + 2]->Text_0 != closing {
                Err(ParseErrorView::MismatchedTag { expected: closing, found: ts[p + 2]->Text_0 })
            } else {
                Ok((Seq::empty(), p + 4))
            }
        } else {
            match spec_element_body(ts, p + 1) {
                Err(e) => Err(e),
                Ok((child, q)) => if p < q <= ts.len() {
                    prepend_node(child, spec_children(ts, q, closing))
                } else {
                    Err(ParseErrorView::UnexpectedEof)
                },
            }
        }
    } else {
        match spec_next(ts, p) {
            None => Ok((Seq::empty(), p)),
            Some(Err(e)) => Err(e),
            Some(Ok((child, q))) => if 0 <= p < q <= ts.len() {
                prepend_node(child, spec_children(ts, q, closing))
            } else {
                Err(ParseErrorView::UnexpectedEof)
            },
        }
    }
}

/// Whether a node may start with token `t` as a run of text.
pub open spec fn starts_text(t: TokenView) -> bool {
    t is Text || t is Backslash || t is Colon || t is Slash || t is DoubleQuote || t is Quote
}

/// The next node at `p`, if a node starts there: a run of text, an element, or an
/// expression placeholder. Nothing starts at the end or at `>` or `}`.
pub open spec fn spec_next(ts: Seq<TokenView>, p: int) -> Option<Step<NodeView>>
    decreases ts.len() - p, 1int,
{
    if p < 0 || p >= ts.len() {
        None
    } else if starts_text(ts[p]) {
        Some(
            match spec_text(ts, p, None) {
                Ok((c, q)) => Ok((NodeView::Text(c), q)),
                Err(e) => Err(e),
            },
        )
    } else if ts[p] is AngleOpen {
        Some(spec_element_body(ts, p + 1))
    } else if ts[p] is CurlyOpen {
        Some(spec_expression(ts, p))
    } else {
        None
    }
}

/// An expression placeholder at its `{`: `{}`, `{name}` or `{name:format}`.
pub open spec fn spec_expression(ts: Seq<TokenView>, p: int) -> Step<NodeView> {
    if p + 1 >= ts.len() {
        Err(ParseErrorView::UnexpectedEof)
    } else if ts[p + 1] is CurlyClose {
        Ok((NodeView::Expression(ExpressionView::Unnamed), p + 2))
    } else if !(ts[p + 1] is Text) {
        Err(token_error(ts, p + 1))
    } else {
        let name = ts[p + 1]->Text_0;
        if is_at(ts, p + 2, |t: TokenView| t is Colon) {
            if !is_at(ts, p + 3, |t: TokenView| t is Text) {
                Err(token_error(ts, p + 3))
            } else if !is_at(ts, p + 4, |t: TokenView| t is CurlyClose) {
                Err(token_error(ts, p + 4))
            } else {
                Ok(
                    (
                        NodeView::Expression(
                            ExpressionView::Named(name + seq![':'] + ts[p + 3]->Text_0),
                        ),
                        p + 5,
                    ),
                )
            }
        } else if !is_at(ts, p + 2, |t: TokenView| t is CurlyClose) {
            Err(token_error(ts, p + 2))
        } else {
            Ok((NodeView::Expression(ExpressionView::Named(name)), p + 3))
        }
    }
}

/// Every node read ends after it starts and within the input: elements, children lists
/// and next nodes.
pub proof fn lemma_progress(ts: Seq<TokenView>, p: int)
    requires
        0 <= p <= ts.len(),
    ensures
        spec_element_body(ts, p) matches Ok((_, q)) ==> p < q <= ts.len(),
        forall|c: Seq<char>|
            (#[trigger] spec_children(ts, p, c) matches Ok((_, q)) ==> p <= q <= ts.len()),
        spec_next(ts, p) matches Some(Ok((_, q))) ==> p < q <= ts.len(),
    decreases ts.len() - p,
{
    if p < ts.len() {
        lemma_progress(ts, p + 1);
        lemma_text_progress(ts, p, None);
        if ts[p] is Text {
            lemma_descriptors_progress(ts, p + 1);
            if let Ok((ds, q)) = spec_descriptors(ts, p + 1) {
                if is_at(ts, q, |t: TokenView| t is AngleClose) && !is_void_tag(ts[p]->Text_0) {
                    lemma_progress(ts, q + 1);
                    let r = spec_children(ts, q + 1, ts[p]->Text_0);
                    assert(r matches Ok((_, r2)) ==> q + 1 <= r2 <= ts.len());
                }
            }
        }
    }
    assert forall|c: Seq<char>|
        (#[trigger] spec_children(ts, p, c) matches Ok((_, q)) ==> p <= q <= ts.len()) by {
        if is_at(ts, p, |t: TokenView| t is AngleOpen) {
            if !is_at(ts, p + 1, |t: TokenView| t is Slash) {
                if let Ok((child, q)) = spec_element_body(ts, p + 1) {
                    if p < q <= ts.len() {
                        lemma_progress(ts, q);
                        let r = spec_children(ts, q, c);
                        assert(r matches Ok((_, r2)) ==> q <= r2 <= ts.len());
                    }
                }
            }
        } else if let Some(Ok((child, q))) = spec_next(ts, p) {
            assert(p < q <= ts.len());
            lemma_progress(ts, q);
            let r = spec_children(ts, q, c);
            assert(r matches Ok((_, r2)) ==> q <= r2 <= ts.len());
        }
    }
}

/// All nodes from position `p` to the first token that starts no node, or the first error.
pub open spec fn spec_parse_from(ts: Seq<TokenView>, p: int) -> Result<Seq<NodeView>, ParseErrorView>
    decreases ts.len() - p,
{
    match spec_next(ts, p) {
        None => Ok(Seq::empty()),
        Some(Err(e)) => Err(e),
        Some(Ok((n, q))) => if 0 <= p < q <= ts.len() {
            match spec_parse_from(ts, q) {
                Ok(ns) => Ok(seq![n] + ns),
                Err(e) => Err(e),
            }
        } else {
            Err(ParseErrorView::UnexpectedEof)
        },
    }
}

} // verus!
