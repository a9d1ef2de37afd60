use vstd::prelude::*;

use crate::parse_error::ParseErrorView;
use crate::parser::spec_parse;
use crate::parser_spec::{
    ends_quoted_text, is_void_tag, spec_children, spec_descriptors, spec_element_body, spec_next,
    spec_parse_from, spec_quoted, spec_text, ExpressionView, NodeView,
};
use crate::token::{is_special_char, token_text, TokenView};
use crate::tokenizer::{
    is_plain, lemma_tokenize_append, lemma_tokenize_plain, lemma_tokenize_special_prefix,
    special_token, tokenize,
};

verus! {

/// A message without any special character is read as one text node holding all of it.
pub proof fn law_plain_text(s: Seq<char>)
    requires
        is_plain(s),
    ensures
        spec_parse(s) == Ok::<Seq<NodeView>, ParseErrorView>(seq![NodeView::Text(s)]),
{
    lemma_tokenize_plain(s);
    let ts = tokenize(s);
    assert(spec_text(ts, 1, None) == Ok::<(Seq<char>, int), ParseErrorView>((Seq::empty(), 1)));
    assert(s + Seq::<char>::empty() == s);
    assert(spec_text(ts, 0, None) == Ok::<(Seq<char>, int), ParseErrorView>((s, 1)));
    assert(spec_parse_from(ts, 1) == Ok::<Seq<NodeView>, ParseErrorView>(Seq::empty()));
    assert(seq![NodeView::Text(s)] + Seq::<NodeView>::empty() == seq![NodeView::Text(s)]);
}

/// A backslash makes the special character after it plain text.
pub proof fn law_escaped_special(c: char)
    requires
        is_special_char(c),
    ensures
        spec_parse(seq!['\\', c]) == Ok::<Seq<NodeView>, ParseErrorView>(seq![NodeView::Text(seq![c])]),
{
    let s = seq!['\\', c];
    assert(s == seq!['\\'] + seq![c]);
    assert(is_special_char('\\'));
    lemma_tokenize_special_prefix(c, Seq::empty());
    assert(seq![c] + Seq::<char>::empty() == seq![c]);
    lemma_tokenize_special_prefix('\\', seq![c]);
    let ts = tokenize(s);
    assert(ts == seq![TokenView::Backslash, special_token(c)]);
    assert(spec_text(ts, 2, None) == Ok::<(Seq<char>, int), ParseErrorView>((Seq::empty(), 2)));
    assert(seq![c] + Seq::<char>::empty() == seq![c]);
    assert(spec_parse_from(ts, 2) == Ok::<Seq<NodeView>, ParseErrorView>(Seq::empty()));
    assert(seq![NodeView::Text(seq![c])] + Seq::<NodeView>::empty() == seq![
        NodeView::Text(seq![c]),
    ]);
}

/// A backslash before text that starts with `n` stands for a line break followed by the
/// rest of that text.
pub proof fn law_escaped_newline(rest: Seq<char>)
    requires
        is_plain(seq!['n'] + rest),
    ensures
        spec_parse(seq!['\\', 'n'] + rest) == Ok::<Seq<NodeView>, ParseErrorView>(
            seq![NodeView::Text(seq!['\n'] + rest)],
        ),
{
    let t = seq!['n'] + rest;
    assert(t[0] == 'n');
    assert(t.drop_first() == rest);
    assert(seq!['\\', 'n'] + rest == seq!['\\'] + t);
    assert(is_special_char('\\'));
    lemma_tokenize_plain(t);
    lemma_tokenize_special_prefix('\\', t);
    let ts = tokenize(seq!['\\'] + t);
    assert(ts == seq![TokenView::Backslash, TokenView::Text(t)]);
    let text = seq!['\n'] + rest;
    assert(spec_text(ts, 2, None) == Ok::<(Seq<char>, int), ParseErrorView>((Seq::empty(), 2)));
    assert(text + Seq::<char>::empty() == text);
    assert(spec_text(ts, 0, None) == Ok::<(Seq<char>, int), ParseErrorView>((text, 2)));
    assert(spec_parse_from(ts, 2) == Ok::<Seq<NodeView>, ParseErrorView>(Seq::empty()));
    assert(seq![NodeView::Text(text)] + Seq::<NodeView>::empty() == seq![NodeView::Text(text)]);
}

/// The tokens of `<t>b`.
proof fn lemma_tokens_open(t: Seq<char>, b: Seq<char>)
    requires
        is_plain(t),
        is_plain(b),
    ensures
        tokenize(seq!['<'] + t + seq!['>'] + b) == seq![
            TokenView::AngleOpen,
            TokenView::Text(t),
            TokenView::AngleClose,
            TokenView::Text(b),
        ],
{
    assert(is_special_char('<'));
    assert(is_special_char('>'));
    lemma_tokenize_plain(t);
    lemma_tokenize_plain(b);
    lemma_tokenize_special_prefix('>', b);
    lemma_tokenize_append(t, seq!['>'] + b);
    lemma_tokenize_special_prefix('<', t + (seq!['>'] + b));
    assert(seq!['<'] + t + seq!['>'] + b == seq!['<'] + (t + (seq!['>'] + b)));
}

/// The tokens of `<t>b</u>`.
proof fn lemma_tokens_closed(t: Seq<char>, b: Seq<char>, u: Seq<char>)
    requires
        is_plain(t),
        is_plain(b),
        is_plain(u),
    ensures
        tokenize(seq!['<'] + t + seq!['>'] + b + seq!['<', '/'] + u + seq!['>']) == seq![
            TokenView::AngleOpen,
            TokenView::Text(t),
            TokenView::AngleClose,
            TokenView::Text(b),
            TokenView::AngleOpen,
            TokenView::Slash,
            TokenView::Text(u),
            TokenView::AngleClose,
        ],
{
    assert(is_special_char('<'));
    assert(is_special_char('>'));
    assert(is_special_char('/'));
    lemma_tokens_open(t, b);
    lemma_tokenize_plain(u);
    let tail = seq!['<', '/'] + u + seq!['>'];
    lemma_tokenize_special_prefix('>', Seq::empty());
    assert(seq!['>'] + Seq::<char>::empty() == seq!['>']);
    lemma_tokenize_append(u, seq!['>']);
    lemma_tokenize_special_prefix('/', u + seq!['>']);
    lemma_tokenize_special_prefix('<', seq!['/'] + (u + seq!['>']));
    assert(tail == seq!['<'] + (seq!['/'] + (u + seq!['>'])));
    let head = seq!['<'] + t + seq!['>'] + b;
    lemma_tokenize_append(head, tail);
    assert(head + tail == seq!['<'] + t + seq!['>'] + b + seq!['<', '/'] + u + seq!['>']);
}

/// An element closed by its own tag holds its body as its only child.
pub proof fn law_closed_element(t: Seq<char>, b: Seq<char>)
    requires
        is_plain(t),
        is_plain(b),
        !is_void_tag(t),
    ensures
        spec_parse(seq!['<'] + t + seq!['>'] + b + seq!['<', '/'] + t + seq!['>']) == Ok::<
            Seq<NodeView>,
            ParseErrorView,
        >(
            seq![
                NodeView::Element {
                    tag: t,
                    tag_descriptors: Seq::empty(),
                    children: seq![NodeView::Text(b)],
                },
            ],
        ),
{
    lemma_tokens_closed(t, b, t);
    let ts = tokenize(seq!['<'] + t + seq!['>'] + b + seq!['<', '/'] + t + seq!['>']);
    assert(spec_descriptors(ts, 2) == Ok::<(Seq<Seq<char>>, int), ParseErrorView>((Seq::empty(), 2)));
    assert(spec_text(ts, 4, None) == Ok::<(Seq<char>, int), ParseErrorView>((Seq::empty(), 4)));
    assert(b + Seq::<char>::empty() == b);
    assert(spec_text(ts, 3, None) == Ok::<(Seq<char>, int), ParseErrorView>((b, 4)));
    assert(spec_next(ts, 3) == Some(Ok::<(NodeView, int), ParseErrorView>((NodeView::Text(b), 4))));
    assert(spec_children(ts, 4, t) == Ok::<(Seq<NodeView>, int), ParseErrorView>((Seq::empty(), 8)));
    assert(seq![NodeView::Text(b)] + Seq::<NodeView>::empty() == seq![NodeView::Text(b)]);
    assert(spec_children(ts, 3, t) == Ok::<(Seq<NodeView>, int), ParseErrorView>(
        (seq![NodeView::Text(b)], 8),
    ));
    let e = NodeView::Element {
        tag: t,
        tag_descriptors: Seq::empty(),
        children: seq![NodeView::Text(b)],
    };
    assert(spec_element_body(ts, 1) == Ok::<(NodeView, int), ParseErrorView>((e, 8)));
    assert(spec_parse_from(ts, 8) == Ok::<Seq<NodeView>, ParseErrorView>(Seq::empty()));
    assert(seq![e] + Seq::<NodeView>::empty() == seq![e]);
}

/// A closing tag that names another element than the open one is refused, naming both.
pub proof fn law_mismatched_tag(t: Seq<char>, b: Seq<char>, u: Seq<char>)
    requires
        is_plain(t),
        is_plain(b),
        is_plain(u),
        !is_void_tag(t),
        t != u,
    ensures
        spec_parse(seq!['<'] + t + seq!['>'] + b + seq!['<', '/'] + u + seq!['>']) == Err::<
            Seq<NodeView>,
            ParseErrorView,
        >(ParseErrorView::MismatchedTag { expected: t, found: u }),
{
    lemma_tokens_closed(t, b, u);
    let ts = tokenize(seq!['<'] + t + seq!['>'] + b + seq!['<', '/'] + u + seq!['>']);
    assert(spec_descriptors(ts, 2) == Ok::<(Seq<Seq<char>>, int), ParseErrorView>((Seq::empty(), 2)));
    assert(spec_text(ts, 4, None) == Ok::<(Seq<char>, int), ParseErrorView>((Seq::empty(), 4)));
    assert(b + Seq::<char>::empty() == b);
    assert(spec_text(ts, 3, None) == Ok::<(Seq<char>, int), ParseErrorView>((b, 4)));
    assert(spec_next(ts, 3) == Some(Ok::<(NodeView, int), ParseErrorView>((NodeView::Text(b), 4))));
    let err = ParseErrorView::MismatchedTag { expected: t, found: u };
    assert(spec_children(ts, 4, t) == Err::<(Seq<NodeView>, int), ParseErrorView>(err));
    assert(spec_children(ts, 3, t) == Err::<(Seq<NodeView>, int), ParseErrorView>(err));
    assert(spec_element_body(ts, 1) == Err::<(NodeView, int), ParseErrorView>(err));
}

/// An element left open holds everything after it, to the end of the input.
pub proof fn law_unclosed_element(t: Seq<char>, b: Seq<char>)
    requires
        is_plain(t),
        is_plain(b),
        !is_void_tag(t),
    ensures
        spec_parse(seq!['<'] + t + seq!['>'] + b) == Ok::<Seq<NodeView>, ParseErrorView>(
            seq![
                NodeView::Element {
                    tag: t,
                    tag_descriptors: Seq::empty(),
                    children: seq![NodeView::Text(b)],
                },
            ],
        ),
{
    lemma_tokens_open(t, b);
    let ts = tokenize(seq!['<'] + t + seq!['>'] + b);
    assert(spec_descriptors(ts, 2) == Ok::<(Seq<Seq<char>>, int), ParseErrorView>((Seq::empty(), 2)));
    assert(spec_text(ts, 4, None) == Ok::<(Seq<char>, int), ParseErrorView>((Seq::empty(), 4)));
    assert(b + Seq::<char>::empty() == b);
    assert(spec_text(ts, 3, None) == Ok::<(Seq<char>, int), ParseErrorView>((b, 4)));
    assert(spec_next(ts, 3) == Some(Ok::<(NodeView, int), ParseErrorView>((NodeView::Text(b), 4))));
    assert(spec_children(ts, 4, t) == Ok::<(Seq<NodeView>, int), ParseErrorView>((Seq::empty(), 4)));
    assert(seq![NodeView::Text(b)] + Seq::<NodeView>::empty() == seq![NodeView::Text(b)]);
    assert(spec_children(ts, 3, t) == Ok::<(Seq<NodeView>, int), ParseErrorView>(
        (seq![NodeView::Text(b)], 4),
    ));
    let e = NodeView::Element {
        tag: t,
        tag_descriptors: Seq::empty(),
        children: seq![NodeView::Text(b)],
    };
    assert(spec_element_body(ts, 1) == Ok::<(NodeView, int), ParseErrorView>((e, 4)));
    assert(spec_parse_from(ts, 4) == Ok::<Seq<NodeView>, ParseErrorView>(Seq::empty()));
    assert(seq![e] + Seq::<NodeView>::empty() == seq![e]);
}

/// A line-break element stands for a line break, and takes no body.
pub proof fn law_void_element(t: Seq<char>)
    requires
        is_plain(t),
        is_void_tag(t),
    ensures
        spec_parse(seq!['<'] + t + seq!['>']) == Ok::<Seq<NodeView>, ParseErrorView>(
            seq![NodeView::Text(seq!['\n'])],
        ),
{
    assert(is_special_char('<'));
    assert(is_special_char('>'));
    lemma_tokenize_plain(t);
    lemma_tokenize_special_prefix('>', Seq::empty());
    assert(seq!['>'] + Seq::<char>::empty() == seq!['>']);
    lemma_tokenize_append(t, seq!['>']);
    lemma_tokenize_special_prefix('<', t + seq!['>']);
    assert(seq!['<'] + t + seq!['>'] == seq!['<'] + (t + seq!['>']));
    let ts = tokenize(seq!['<'] + t + seq!['>']);
    assert(ts == seq![TokenView::AngleOpen, TokenView::Text(t), TokenView::AngleClose]);
    assert(spec_descriptors(ts, 2) == Ok::<(Seq<Seq<char>>, int), ParseErrorView>((Seq::empty(), 2)));
    assert(spec_parse_from(ts, 3) == Ok::<Seq<NodeView>, ParseErrorView>(Seq::empty()));
    let n = NodeView::Text(seq!['\n']);
    assert(seq![n] + Seq::<NodeView>::empty() == seq![n]);
}

/// A name in braces is a named expression placeholder.
pub proof fn law_named_expression(name: Seq<char>)
    requires
        is_plain(name),
    ensures
        spec_parse(seq!['{'] + name + seq!['}']) == Ok::<Seq<NodeView>, ParseErrorView>(
            seq![NodeView::Expression(ExpressionView::Named(name))],
        ),
{
    assert(is_special_char('{'));
    assert(is_special_char('}'));
    lemma_tokenize_plain(name);
    lemma_tokenize_special_prefix('}', Seq::empty());
    assert(seq!['}'] + Seq::<char>::empty() == seq!['}']);
    lemma_tokenize_append(name, seq!['}']);
    lemma_tokenize_special_prefix('{', name + seq!['}']);
    assert(seq!['{'] + name + seq!['}'] == seq!['{'] + (name + seq!['}']));
    let ts = tokenize(seq!['{'] + name + seq!['}']);
    assert(ts == seq![TokenView::CurlyOpen, TokenView::Text(name), TokenView::CurlyClose]);
    assert(spec_parse_from(ts, 3) == Ok::<Seq<NodeView>, ParseErrorView>(Seq::empty()));
    let n = NodeView::Expression(ExpressionView::Named(name));
    assert(seq![n] + Seq::<NodeView>::empty() == seq![n]);
}

/// A placeholder in the middle of text is read as one: plain text, `{}`, plain text is a
/// text node, an unnamed placeholder and a text node.
pub proof fn law_placeholder_in_text(a: Seq<char>, b: Seq<char>)
    requires
        is_plain(a),
        is_plain(b),
    ensures
        spec_parse(a + seq!['{', '}'] + b) == Ok::<Seq<NodeView>, ParseErrorView>(
            seq![NodeView::Text(a), NodeView::Expression(ExpressionView::Unnamed), NodeView::Text(b)],
        ),
{
    assert(is_special_char('{'));
    assert(is_special_char('}'));
    lemma_tokenize_plain(a);
    lemma_tokenize_plain(b);
    lemma_tokenize_special_prefix('}', b);
    lemma_tokenize_special_prefix('{', seq!['}'] + b);
    assert(seq!['{'] + (seq!['}'] + b) == seq!['{', '}'] + b);
    let tail = seq!['{', '}'] + b;
    assert(tail[0] == '{');
    lemma_tokenize_append(a, tail);
    assert(a + seq!['{', '}'] + b == a + tail);
    let ts = tokenize(a + seq!['{', '}'] + b);
    assert(ts == seq![TokenView::Text(a), TokenView::CurlyOpen, TokenView::CurlyClose, TokenView::Text(b)]);
    assert(spec_text(ts, 1, None) == Ok::<(Seq<char>, int), ParseErrorView>((Seq::empty(), 1)));
    assert(a + Seq::<char>::empty() == a);
    assert(spec_text(ts, 0, None) == Ok::<(Seq<char>, int), ParseErrorView>((a, 1)));
    assert(spec_text(ts, 4, None) == Ok::<(Seq<char>, int), ParseErrorView>((Seq::empty(), 4)));
    assert(b + Seq::<char>::empty() == b);
    assert(spec_text(ts, 3, None) == Ok::<(Seq<char>, int), ParseErrorView>((b, 4)));
    let u = NodeView::Expression(ExpressionView::Unnamed);
    assert(spec_parse_from(ts, 4) == Ok::<Seq<NodeView>, ParseErrorView>(Seq::empty()));
    assert(seq![NodeView::Text(b)] + Seq::<NodeView>::empty() == seq![NodeView::Text(b)]);
    assert(spec_parse_from(ts, 3) == Ok::<Seq<NodeView>, ParseErrorView>(seq![NodeView::Text(b)]));
    assert(seq![u] + seq![NodeView::Text(b)] == seq![u, NodeView::Text(b)]);
    assert(spec_parse_from(ts, 1) == Ok::<Seq<NodeView>, ParseErrorView>(seq![u, NodeView::Text(b)]));
    assert(seq![NodeView::Text(a)] + seq![u, NodeView::Text(b)] == seq![NodeView::Text(a), u, NodeView::Text(b)]);
}

/// The tokens of `<t:'<u>v'>w`, with either quote.
proof fn lemma_tokens_quoted(t: Seq<char>, q: char, u: Seq<char>, v: Seq<char>, w: Seq<char>)
    requires
        is_plain(t),
        is_plain(u),
        is_plain(v),
        is_plain(w),
        q == '\'' || q == '"',
    ensures
        tokenize(seq!['<'] + t + seq![':', q, '<'] + u + seq!['>'] + v + seq![q, '>'] + w) == seq![
            TokenView::AngleOpen,
            TokenView::Text(t),
            TokenView::Colon,
            special_token(q),
            TokenView::AngleOpen,
            TokenView::Text(u),
            TokenView::AngleClose,
            TokenView::Text(v),
            special_token(q),
            TokenView::AngleClose,
            TokenView::Text(w),
        ],
{
    assert(is_special_char('<'));
    assert(is_special_char('>'));
    assert(is_special_char(':'));
    assert(is_special_char(q));
    lemma_tokenize_plain(t);
    lemma_tokenize_plain(u);
    lemma_tokenize_plain(v);
    lemma_tokenize_plain(w);
    let r1 = seq!['>'] + w;
    lemma_tokenize_special_prefix('>', w);
    let r2 = seq![q] + r1;
    lemma_tokenize_special_prefix(q, r1);
    let r3 = v + r2;
    assert(r2[0] == q);
    lemma_tokenize_append(v, r2);
    let r4 = seq!['>'] + r3;
    lemma_tokenize_special_prefix('>', r3);
    let r5 = u + r4;
    assert(r4[0] == '>');
    lemma_tokenize_append(u, r4);
    let r6 = seq!['<'] + r5;
    lemma_tokenize_special_prefix('<', r5);
    let r7 = seq![q] + r6;
    lemma_tokenize_special_prefix(q, r6);
    let r8 = seq![':'] + r7;
    lemma_tokenize_special_prefix(':', r7);
    let r9 = t + r8;
    assert(r8[0] == ':');
    lemma_tokenize_append(t, r8);
    let r10 = seq!['<'] + r9;
    lemma_tokenize_special_prefix('<', r9);
    assert(seq!['<'] + t + seq![':', q, '<'] + u + seq!['>'] + v + seq![q, '>'] + w == r10);
}

/// Inside a quoted descriptor, angle brackets are text: `<t:'<u>v'>w` (with either
/// quote) is an element `t` with the one descriptor `<u>v`, holding the text `w`.
pub proof fn law_angle_brackets_in_quoted_descriptor(
    t: Seq<char>,
    q: char,
    u: Seq<char>,
    v: Seq<char>,
    w: Seq<char>,
)
    requires
        is_plain(t),
        is_plain(u),
        is_plain(v),
        is_plain(w),
        !is_void_tag(t),
        q == '\'' || q == '"',
    ensures
        spec_parse(seq!['<'] + t + seq![':', q, '<'] + u + seq!['>'] + v + seq![q, '>'] + w) == Ok::<
            Seq<NodeView>,
            ParseErrorView,
        >(
            seq![
                NodeView::Element {
                    tag: t,
                    tag_descriptors: seq![seq!['<'] + u + seq!['>'] + v],
                    children: seq![NodeView::Text(w)],
                },
            ],
        ),
{
    lemma_tokens_quoted(t, q, u, v, w);
    let ts = tokenize(seq!['<'] + t + seq![':', q, '<'] + u + seq!['>'] + v + seq![q, '>'] + w);
    let quote = Some(q);
    assert(ends_quoted_text(ts[8], quote));
    assert(spec_text(ts, 8, quote) == Ok::<(Seq<char>, int), ParseErrorView>((Seq::empty(), 8)));
    assert(v + Seq::<char>::empty() == v);
    assert(spec_text(ts, 7, quote) == Ok::<(Seq<char>, int), ParseErrorView>((v, 8)));
    assert(token_text(TokenView::AngleClose) == seq!['>']);
    assert(spec_text(ts, 6, quote) == Ok::<(Seq<char>, int), ParseErrorView>((seq!['>'] + v, 8)));
    assert(spec_text(ts, 5, quote) == Ok::<(Seq<char>, int), ParseErrorView>((u + (seq!['>'] + v), 8)));
    assert(token_text(TokenView::AngleOpen) == seq!['<']);
    let d = seq!['<'] + u + seq!['>'] + v;
    assert(seq!['<'] + (u + (seq!['>'] + v)) == d);
    assert(spec_text(ts, 4, quote) == Ok::<(Seq<char>, int), ParseErrorView>((d, 8)));
    assert(spec_quoted(ts, 4, q) == Ok::<(Seq<char>, int), ParseErrorView>((d, 9)));
    assert(spec_descriptors(ts, 9) == Ok::<(Seq<Seq<char>>, int), ParseErrorView>((Seq::empty(), 9)));
    assert(seq![d] + Seq::<Seq<char>>::empty() == seq![d]);
    assert(spec_descriptors(ts, 2) == Ok::<(Seq<Seq<char>>, int), ParseErrorView>((seq![d], 9)));
    assert(spec_text(ts, 11, None) == Ok::<(Seq<char>, int), ParseErrorView>((Seq::empty(), 11)));
    assert(w + Seq::<char>::empty() == w);
    assert(spec_text(ts, 10, None) == Ok::<(Seq<char>, int), ParseErrorView>((w, 11)));
    assert(spec_next(ts, 10) == Some(Ok::<(NodeView, int), ParseErrorView>((NodeView::Text(w), 11))));
    assert(spec_children(ts, 11, t) == Ok::<(Seq<NodeView>, int), ParseErrorView>((Seq::empty(), 11)));
    assert(seq![NodeView::Text(w)] + Seq::<NodeView>::empty() == seq![NodeView::Text(w)]);
    assert(spec_children(ts, 10, t) == Ok::<(Seq<NodeView>, int), ParseErrorView>(
        (seq![NodeView::Text(w)], 11),
    ));
    let e = NodeView::Element { tag: t, tag_descriptors: seq![d], children: seq![NodeView::Text(w)] };
    assert(spec_element_body(ts, 1) == Ok::<(NodeView, int), ParseErrorView>((e, 11)));
    assert(spec_parse_from(ts, 11) == Ok::<Seq<NodeView>, ParseErrorView>(Seq::empty()));
    assert(seq![e] + Seq::<NodeView>::empty() == seq![e]);
}

} // verus!
