use std::borrow::Cow;

use vstd::prelude::*;
use vstd::string::StringExecFns;

use crate::parse_error::{ParseError, ParseErrorView};
use crate::parser_spec::{
    ends_quoted_text, escaped_text, is_literal_in_text, is_void_tag, lemma_descriptors_progress,
    lemma_progress, lemma_text_progress, prepend_descriptor, prepend_node, prepend_text,
    spec_children, spec_descriptors, spec_element_body, spec_expression, spec_next, spec_quoted,
    spec_parse_from, spec_text, starts_text, token_error, ExpressionView, NodeView, Step,
};
use crate::text::{concat_all, lemma_concat_all_push, lemma_concat_all_single, str_eq};
use crate::token::{token_text, Token, TokenView};
use crate::tokenizer::{first_token_len, lemma_first_token_len, tokenize, Tokenizer};

verus! {

/// An expression placeholder: `{}` takes the next positional argument, `{name}` a named one.
#[derive(Debug, PartialEq)]
pub enum Expression<'a> {
    Unnamed,
    Named(Cow<'a, str>),
}

/// A node of a parsed MiniMessage string.
#[derive(Debug, PartialEq)]
pub enum Node<'a> {
    Element { tag: &'a str, tag_descriptors: Vec<Cow<'a, str>>, children: Vec<Node<'a>> },
    Text(Cow<'a, str>),
    Expression(Expression<'a>),
}

impl<'a> View for Expression<'a> {
    type V = ExpressionView;

    open spec fn view(&self) -> ExpressionView {
        match self {
            Expression::Unnamed => ExpressionView::Unnamed,
            Expression::Named(n) => ExpressionView::Named(n@),
        }
    }
}

/// The characters of each descriptor.
pub open spec fn descriptors_view<'a>(ds: Seq<Cow<'a, str>>) -> Seq<Seq<char>> {
    ds.map_values(|d: Cow<'a, str>| d@)
}

/// The mathematical value of a node.
pub open spec fn node_view<'a>(n: Node<'a>) -> NodeView
    decreases n,
{
    match n {
        Node::Element { tag, tag_descriptors, children } => NodeView::Element {
            tag: tag@,
            tag_descriptors: descriptors_view(tag_descriptors@),
            children: nodes_view(children@),
        },
        Node::Text(t) => NodeView::Text(t@),
        Node::Expression(e) => NodeView::Expression(e@),
    }
}

/// The mathematical values of a sequence of nodes.
pub open spec fn nodes_view<'a>(ns: Seq<Node<'a>>) -> Seq<NodeView>
    decreases ns,
{
    if ns.len() == 0 {
        Seq::empty()
    } else {
        nodes_view(ns.subrange(0, ns.len() - 1)).push(node_view(ns[ns.len() - 1]))
    }
}

impl<'a> View for Node<'a> {
    type V = NodeView;

    open spec fn view(&self) -> NodeView {
        node_view(*self)
    }
}

/// Adding a node adds its value.
pub proof fn lemma_nodes_view_push<'a>(ns: Seq<Node<'a>>, n: Node<'a>)
    ensures
        nodes_view(ns.push(n)) == nodes_view(ns).push(node_view(n)),
{
    assert(ns.push(n).subrange(0, ns.len() as int) == ns);
}

/// Whether a text result agrees with a run-of-text step, ending at `pos`.
pub open spec fn text_matches<'a>(r: Result<Cow<'a, str>, ParseError>, pos: int, s: Step<Seq<char>>) -> bool {
    match (r, s) {
        (Ok(c), Ok((sc, q))) => c@ == sc && pos == q,
        (Err(e), Err(se)) => e@ == se,
        _ => false,
    }
}

/// Whether a descriptor list agrees with a descriptors step, ending at `pos`.
pub open spec fn descriptors_match<'a>(
    r: Result<Vec<Cow<'a, str>>, ParseError>,
    pos: int,
    s: Step<Seq<Seq<char>>>,
) -> bool {
    match (r, s) {
        (Ok(ds), Ok((sd, q))) => descriptors_view(ds@) == sd && pos == q,
        (Err(e), Err(se)) => e@ == se,
        _ => false,
    }
}

/// Whether a node result agrees with a node step, ending at `pos`.
pub open spec fn node_matches<'a>(r: Result<Node<'a>, ParseError>, pos: int, s: Step<NodeView>) -> bool {
    match (r, s) {
        (Ok(n), Ok((sn, q))) => node_view(n) == sn && pos == q,
        (Err(e), Err(se)) => e@ == se,
        _ => false,
    }
}

/// Whether a node list agrees with a node-list step, ending at `pos`.
pub open spec fn nodes_match<'a>(r: Result<Vec<Node<'a>>, ParseError>, pos: int, s: Step<Seq<NodeView>>) -> bool {
    match (r, s) {
        (Ok(ns), Ok((sn, q))) => nodes_view(ns@) == sn && pos == q,
        (Err(e), Err(se)) => e@ == se,
        _ => false,
    }
}

/// Puts the texts read so far in front of what a step reads next.
pub open spec fn prepend_texts(parts: Seq<Seq<char>>, r: Step<Seq<char>>) -> Step<Seq<char>> {
    prepend_text(concat_all(parts), r)
}

/// Puts the descriptors read so far in front of what a step reads next.
pub open spec fn prepend_descriptors(ds: Seq<Seq<char>>, r: Step<Seq<Seq<char>>>) -> Step<
    Seq<Seq<char>>,
> {
    match r {
        Ok((x, q)) => Ok((ds + x, q)),
        Err(e) => Err(e),
    }
}

/// Puts the nodes read so far in front of what a step reads next.
pub open spec fn prepend_nodes(ns: Seq<NodeView>, r: Step<Seq<NodeView>>) -> Step<Seq<NodeView>> {
    match r {
        Ok((x, q)) => Ok((ns + x, q)),
        Err(e) => Err(e),
    }
}

/// The characters of each of a list of string slices.
pub open spec fn parts_view<'a>(parts: Seq<&'a str>) -> Seq<Seq<char>> {
    parts.map_values(|s: &'a str| s@)
}

/// The concatenation of string slices, as an owned string.
fn concat_parts<'a>(parts: &Vec<&'a str>) -> (r: String)
    ensures
        r@ == concat_all(parts_view(parts@)),
{
    let mut r = String::new();
    let mut i: usize = 0;
    while i < parts.len()
        invariant
            i <= parts@.len(),
            r@ == concat_all(parts_view(parts@).take(i as int)),
        decreases parts@.len() - i,
    {
        proof {
            assert(parts_view(parts@).take(i + 1) == parts_view(parts@).take(i as int).push(
                parts@[i as int]@,
            ));
            lemma_concat_all_push(parts_view(parts@).take(i as int), parts@[i as int]@);
        }
        r.append(parts[i]);
        i += 1;
    }
    assert(parts_view(parts@).take(parts@.len() as int) == parts_view(parts@));
    r
}

/// Whether an optional quote character is the given one.
fn quote_is(quote: Option<char>, c: char) -> (r: bool)
    ensures
        r == (quote == Some(c)),
{
    match quote {
        Some(q) => q == c,
        None => false,
    }
}

/// A string holding one line break.
fn newline_str() -> (r: &'static str)
    ensures
        r@ == seq!['\n'],
{
    proof {
        reveal_strlit("\n");
    }
    let r = "\n";
    assert(r@ =~= seq!['\n']);
    r
}

/// Reads a MiniMessage string's tokens into nodes.
pub struct Parser<'a> {
    tokens: Vec<Token<'a>>,
    pos: usize,
}

impl<'a> Parser<'a> {
    #[verifier::type_invariant]
    spec fn well_formed(&self) -> bool {
        self.pos <= self.tokens@.len()
    }

    /// The tokens the parser reads.
    pub closed spec fn tokens_view(&self) -> Seq<TokenView> {
        self.tokens@.map_values(|t: Token<'a>| t@)
    }

    /// The position of the next token to read.
    pub closed spec fn position(&self) -> int {
        self.pos as int
    }

    /// A parser over all tokens the tokenizer has left.
    pub fn new(tokenizer: Tokenizer<'a>) -> (p: Self)
        ensures
            p.tokens_view() == tokenize(tokenizer.remaining()),
            p.position() == 0,
    {
        let mut tokenizer = tokenizer;
        let ghost all = tokenize(tokenizer.remaining());
        let mut tokens: Vec<Token<'a>> = Vec::new();
        loop
            invariant
                tokens@.map_values(|t: Token<'a>| t@) + tokenize(tokenizer.remaining()) == all,
            ensures
                tokens@.map_values(|t: Token<'a>| t@) == all,
            decreases tokenizer.remaining().len(),
        {
            let ghost rem = tokenizer.remaining();
            proof {
                if rem.len() > 0 {
                    lemma_first_token_len(rem);
                }
            }
            match tokenizer.next() {
                Some(t) => {
                    proof {
                        assert(tokenize(rem) == seq![t@] + tokenize(
                            rem.skip(first_token_len(rem) as int),
                        ));
                        assert(tokens@.push(t).map_values(|t: Token<'a>| t@) == tokens@.map_values(
                            |t: Token<'a>| t@,
                        ).push(t@));
                    }
                    tokens.push(t);
                },
                None => {
                    assert(tokenize(rem) == Seq::<TokenView>::empty());
                    break ;
                },
            }
        }
        Parser { tokens, pos: 0 }
    }

    /// The next token, not consumed.
    fn peek(&self) -> (r: Option<Token<'a>>)
        ensures
            r is Some <==> self.position() < self.tokens_view().len(),
            r matches Some(t) ==> t@ == self.tokens_view()[self.position()],
    {
        proof {
            use_type_invariant(self);
        }
        if self.pos < self.tokens.len() {
            Some(self.tokens[self.pos])
        } else {
            None
        }
    }

    /// The next token, consumed.
    fn advance(&mut self) -> (r: Option<Token<'a>>)
        ensures
            final(self).tokens_view() == old(self).tokens_view(),
            r is Some <==> old(self).position() < old(self).tokens_view().len(),
            r matches Some(t) ==> t@ == old(self).tokens_view()[old(self).position()]
                && final(self).position() == old(self).position() + 1,
            r is None ==> final(self).position() == old(self).position(),
    {
        proof {
            use_type_invariant(&*self);
        }
        if self.pos < self.tokens.len() {
            let t = self.tokens[self.pos];
            self.pos = self.pos + 1;
            Some(t)
        } else {
            None
        }
    }

    fn parse_text(&mut self) -> (r: Result<Cow<'a, str>, ParseError>)
        ensures
            r is Err ==> old(self).position() < final(self).position(),
            old(self).position() <= final(self).position(),
            final(self).tokens_view() == old(self).tokens_view(),
            text_matches(r, final(self).position(), spec_text(old(self).tokens_view(), old(self).position(), None)),
    {
        self.parse_text_internal(None)
    }

    fn parse_descriptor_text(&mut self, matching_quote: char) -> (r: Result<Cow<'a, str>, ParseError>)
        ensures
            old(self).position() <= final(self).position(),
            final(self).tokens_view() == old(self).tokens_view(),
            text_matches(
                r,
                final(self).position(),
                spec_text(old(self).tokens_view(), old(self).position(), Some(matching_quote)),
            ),
    {
        self.parse_text_internal(Some(matching_quote))
    }

    fn parse_text_internal(&mut self, break_quote: Option<char>) -> (r: Result<Cow<'a, str>, ParseError>)
        ensures
            old(self).position() <= final(self).position(),
            r is Err ==> old(self).position() < final(self).position(),
            final(self).tokens_view() == old(self).tokens_view(),
            text_matches(r, final(self).position(), spec_text(old(self).tokens_view(), old(self).position(), break_quote)),
    {
        proof {
            use_type_invariant(&*self);
        }
        let ghost ts = self.tokens_view();
        let ghost p0 = self.position();
        let mut parts: Vec<&'a str> = Vec::new();
        loop
            invariant
                self.tokens_view() == ts,
                ts == old(self).tokens_view(),
                p0 == old(self).position(),
                0 <= p0 <= self.position() <= ts.len(),
                spec_text(ts, p0, break_quote) == prepend_texts(
                    parts_view(parts@),
                    spec_text(ts, self.position(), break_quote),
                ),
            ensures
                self.tokens_view() == ts,
                spec_text(ts, p0, break_quote) == Ok::<(Seq<char>, int), crate::parse_error::ParseErrorView>((concat_all(parts_view(parts@)), self.position())),
            decreases ts.len() - self.position(),
        {
            let ghost p = self.position();
            let ghost before = parts_view(parts@);
            let tok = match self.peek() {
                Some(t) => t,
                None => {
                    assert(concat_all(before) + Seq::<char>::empty() == concat_all(before));
                    break ;
                },
            };
            let ends = match tok {
                Token::DoubleQuote => quote_is(break_quote, '"'),
                Token::Quote => quote_is(break_quote, '\''),
                _ => false,
            };
            if ends {
                assert(ends_quoted_text(tok@, break_quote));
                assert(concat_all(before) + Seq::<char>::empty() == concat_all(before));
                break ;
            }
            assert(!ends_quoted_text(tok@, break_quote));
            let literal = match tok {
                Token::AngleOpen | Token::AngleClose | Token::CurlyOpen => break_quote.is_some(),
                Token::DoubleQuote | Token::Quote | Token::Colon | Token::Slash
                | Token::CurlyClose => true,
                _ => false,
            };
            assert(literal == is_literal_in_text(tok@, break_quote));
            if literal || tok.is_text() {
                self.advance();
                let part = tok.as_str();
                proof {
                    lemma_concat_all_push(before, part@);
                    assert(parts_view(parts@.push(part)) == before.push(part@));
                    let rest = spec_text(ts, p + 1, break_quote);
                    match rest {
                        Ok((c, q)) => {
                            assert(concat_all(before) + (part@ + c) == (concat_all(before) + part@) + c);
                        },
                        Err(_) => {},
                    }
                }
                parts.push(part);
            } else if tok.is_backslash() {
                self.advance();
                match self.advance() {
                    None => {
                        return Err(ParseError::UnexpectedEof);
                    },
                    Some(next) => {
                        let ghost esc = escaped_text(next@);
                        let mut pushed_newline = false;
                        if let Token::Text(s) = next {
                            let n = s.unicode_len();
                            if n > 0 && s.get_char(0) == 'n' {
                                let nl = newline_str();
                                let rest = s.substring_char(1, n);
                                proof {
                                    lemma_concat_all_push(before, nl@);
                                    assert(parts_view(parts@.push(nl)) == before.push(nl@));
                                    assert(s@.drop_first() == rest@);
                                }
                                parts.push(nl);
                                if n > 1 {
                                    proof {
                                        lemma_concat_all_push(before.push(nl@), rest@);
                                        assert(parts_view(parts@.push(rest)) == before.push(nl@).push(rest@));
                                        assert(concat_all(before) + nl@ + rest@ == concat_all(before) + esc);
                                    }
                                    parts.push(rest);
                                } else {
                                    assert(rest@.len() == 0);
                                    assert(concat_all(before) + nl@ == concat_all(before) + esc);
                                }
                                pushed_newline = true;
                            }
                        }
                        if !pushed_newline {
                            let part = next.as_str();
                            proof {
                                lemma_concat_all_push(before, part@);
                                assert(parts_view(parts@.push(part)) == before.push(part@));
                                assert(part@ == esc);
                            }
                            parts.push(part);
                        }
                        proof {
                            assert(concat_all(parts_view(parts@)) == concat_all(before) + esc);
                            let rest = spec_text(ts, p + 2, break_quote);
                            match rest {
                                Ok((c, q)) => {
                                    assert(concat_all(before) + (esc + c) == (concat_all(before) + esc) + c);
                                },
                                Err(_) => {},
                            }
                        }
                    },
                }
            } else {
                assert(concat_all(before) + Seq::<char>::empty() == concat_all(before));
                break ;
            }
        }
        proof {
            lemma_text_progress(self.tokens_view(), p0, break_quote);
        }
        let text = if parts.len() == 1 {
            proof {
                lemma_concat_all_single(parts@[0]@);
                assert(parts_view(parts@) == seq![parts@[0]@]);
            }
            Cow::Borrowed(parts[0])
        } else {
            Cow::Owned(concat_parts(&parts))
        };
        Ok(text)
    }

    fn parse_element(&mut self) -> (r: Result<Node<'a>, ParseError>)
        requires
            old(self).position() < old(self).tokens_view().len(),
        ensures
            old(self).position() < final(self).position(),
            final(self).tokens_view() == old(self).tokens_view(),
            node_matches(r, final(self).position(), spec_element_body(old(self).tokens_view(), old(self).position() + 1)),
        decreases old(self).tokens_view().len() - old(self).position(), 0int,
    {
        self.advance();
        self.parse_element_body()
    }

    /// Whether a tag names an element that stands for a line break and has no body.
    fn is_void_element(tag: &str) -> (r: bool)
        ensures
            r == is_void_tag(tag@),
    {
        proof {
            reveal_strlit("newline");
            reveal_strlit("br");
        }
        str_eq(tag, "newline") || str_eq(tag, "br")
    }

    fn parse_element_body(&mut self) -> (r: Result<Node<'a>, ParseError>)
        ensures
            old(self).position() <= final(self).position(),
            final(self).tokens_view() == old(self).tokens_view(),
            node_matches(r, final(self).position(), spec_element_body(old(self).tokens_view(), old(self).position())),
        decreases old(self).tokens_view().len() - old(self).position(), 3int,
    {
        proof {
            use_type_invariant(&*self);
        }
        let ghost ts = self.tokens_view();
        let ghost p = self.position();
        let tag = match self.advance() {
            Some(Token::Text(t)) => t,
            Some(tok) => {
                return Err(ParseError::InvalidToken(tok.to_text()));
            },
            None => {
                return Err(ParseError::UnexpectedEof);
            },
        };
        let descriptors = match self.parse_descriptors() {
            Ok(d) => d,
            Err(e) => {
                return Err(e);
            },
        };
        proof {
            lemma_descriptors_progress(ts, p + 1);
        }
        let ghost q = self.position();
        match self.advance() {
            Some(Token::AngleClose) => {},
            Some(tok) => {
                return Err(ParseError::InvalidToken(tok.to_text()));
            },
            None => {
                return Err(ParseError::UnexpectedEof);
            },
        }
        if Self::is_void_element(tag) {
            return Ok(Node::Text(Cow::Borrowed(newline_str())));
        }
        let children = match self.parse_children_until(tag) {
            Ok(c) => c,
            Err(e) => {
                return Err(e);
            },
        };
        Ok(Node::Element { tag, children, tag_descriptors: descriptors })
    }

    fn parse_descriptors(&mut self) -> (r: Result<Vec<Cow<'a, str>>, ParseError>)
        ensures
            old(self).position() <= final(self).position(),
            final(self).tokens_view() == old(self).tokens_view(),
            descriptors_match(r, final(self).position(), spec_descriptors(old(self).tokens_view(), old(self).position())),
    {
        proof {
            use_type_invariant(&*self);
        }
        let ghost ts = self.tokens_view();
        let ghost p0 = self.position();
        let mut descriptors: Vec<Cow<'a, str>> = Vec::new();
        loop
            invariant
                self.tokens_view() == ts,
                ts == old(self).tokens_view(),
                p0 == old(self).position(),
                0 <= p0 <= self.position() <= ts.len(),
                spec_descriptors(ts, p0) == prepend_descriptors(
                    descriptors_view(descriptors@),
                    spec_descriptors(ts, self.position()),
                ),
            ensures
                self.tokens_view() == ts,
                spec_descriptors(ts, p0) == Ok::<(Seq<Seq<char>>, int), crate::parse_error::ParseErrorView>((descriptors_view(descriptors@), self.position())),
            decreases ts.len() - self.position(),
        {
            let ghost p = self.position();
            let ghost before = descriptors_view(descriptors@);
            match self.peek() {
                Some(Token::Colon) => {},
                _ => {
                    assert(before + Seq::<Seq<char>>::empty() == before);
                    break ;
                },
            }
            self.advance();
            let descriptor = match self.advance() {
                Some(Token::Text(t)) => Cow::Borrowed(t),
                Some(Token::DoubleQuote) => {
                    let inner = match self.parse_descriptor_text('"') {
                        Ok(t) => t,
                        Err(e) => {
                            return Err(e);
                        },
                    };
                    match self.advance() {
                        Some(Token::DoubleQuote) => {},
                        Some(tok) => {
                            return Err(ParseError::InvalidToken(tok.to_text()));
                        },
                        None => {
                            return Err(ParseError::UnexpectedEof);
                        },
                    }
                    inner
                },
                Some(Token::Quote) => {
                    let inner = match self.parse_descriptor_text('\'') {
                        Ok(t) => t,
                        Err(e) => {
                            return Err(e);
                        },
                    };
                    match self.advance() {
                        Some(Token::Quote) => {},
                        Some(tok) => {
                            return Err(ParseError::InvalidToken(tok.to_text()));
                        },
                        None => {
                            return Err(ParseError::UnexpectedEof);
                        },
                    }
                    inner
                },
                Some(tok) => {
                    return Err(ParseError::InvalidToken(tok.to_text()));
                },
                None => {
                    return Err(ParseError::UnexpectedEof);
                },
            };
            proof {
                lemma_text_progress(ts, p + 2, Some('"'));
                lemma_text_progress(ts, p + 2, Some('\''));
                assert(descriptors_view(descriptors@.push(descriptor)) == before.push(descriptor@));
                match spec_descriptors(ts, self.position()) {
                    Ok((x, q)) => {
                        assert(before + (seq![descriptor@] + x) == before.push(descriptor@) + x);
                    },
                    Err(_) => {},
                }
            }
            descriptors.push(descriptor);
        }
        Ok(descriptors)
    }

    fn parse_children_until(&mut self, closing_tag: &'a str) -> (r: Result<Vec<Node<'a>>, ParseError>)
        ensures
            old(self).position() <= final(self).position(),
            final(self).tokens_view() == old(self).tokens_view(),
            nodes_match(r, final(self).position(), spec_children(old(self).tokens_view(), old(self).position(), closing_tag@)),
        decreases old(self).tokens_view().len() - old(self).position(), 2int,
    {
        proof {
            use_type_invariant(&*self);
        }
        let ghost ts = self.tokens_view();
        let ghost p0 = self.position();
        let ghost closing = closing_tag@;
        let mut children: Vec<Node<'a>> = Vec::new();
        loop
            invariant
                self.tokens_view() == ts,
                0 <= p0 <= self.position() <= ts.len(),
                p0 == old(self).position(),
                ts == old(self).tokens_view(),
                closing == closing_tag@,
                spec_children(ts, p0, closing) == prepend_nodes(
                    nodes_view(children@),
                    spec_children(ts, self.position(), closing),
                ),
            decreases ts.len() - self.position(),
        {
            let ghost p = self.position();
            let ghost before = nodes_view(children@);
            proof {
                lemma_progress(ts, p);
                if p + 1 <= ts.len() {
                    lemma_progress(ts, p + 1);
                }
            }
            let at_open = match self.peek() {
                Some(Token::AngleOpen) => true,
                _ => false,
            };
            if at_open {
                self.advance();
                let at_slash = match self.peek() {
                    Some(Token::Slash) => true,
                    _ => false,
                };
                if at_slash {
                    self.advance();
                    let tag = match self.advance() {
                        Some(Token::Text(t)) => t,
                        Some(tok) => {
                            return Err(ParseError::InvalidToken(tok.to_text()));
                        },
                        None => {
                            assert(spec_children(ts, p, closing) == Err::<(Seq<NodeView>, int), crate::parse_error::ParseErrorView>(crate::parse_error::ParseErrorView::UnexpectedEof));
                            return Err(ParseError::UnexpectedEof);
                        },
                    };
                    match self.advance() {
                        Some(Token::AngleClose) => {},
                        Some(tok) => {
                            assert(spec_children(ts, p, closing) == Err::<(Seq<NodeView>, int), crate::parse_error::ParseErrorView>(token_error(ts, p + 3)));
                            return Err(ParseError::InvalidToken(tok.to_text()));
                        },
                        None => {
                            assert(spec_children(ts, p, closing) == Err::<(Seq<NodeView>, int), crate::parse_error::ParseErrorView>(crate::parse_error::ParseErrorView::UnexpectedEof));
                            return Err(ParseError::UnexpectedEof);
                        },
                    }
                    if !str_eq(tag, closing_tag) {
                        return Err(
                            ParseError::MismatchedTag {
                                expected: closing_tag.to_owned(),
                                found: tag.to_owned(),
                            },
                        );
                    }
                    assert(before + Seq::<NodeView>::empty() == before);
                    return Ok(children);
                }
                let child = match self.parse_element_body() {
                    Ok(c) => c,
                    Err(e) => {
                        return Err(e);
                    },
                };
                proof {
                    lemma_nodes_view_push(children@, child);
                    match spec_children(ts, self.position(), closing) {
                        Ok((x, q)) => {
                            assert(before + (seq![child@] + x) == before.push(child@) + x);
                        },
                        Err(_) => {},
                    }
                }
                children.push(child);
            } else {
                match self.next() {
                    Some(Ok(child)) => {
                        proof {
                            lemma_nodes_view_push(children@, child);
                            match spec_children(ts, self.position(), closing) {
                                Ok((x, q)) => {
                                    assert(before + (seq![child@] + x) == before.push(child@) + x);
                                },
                                Err(_) => {},
                            }
                        }
                        children.push(child);
                    },
                    Some(Err(e)) => {
                        return Err(e);
                    },
                    None => {
                        assert(before + Seq::<NodeView>::empty() == before);
                        return Ok(children);
                    },
                }
            }
        }
    }

    fn parse_expression(&mut self) -> (r: Result<Node<'a>, ParseError>)
        requires
            old(self).position() < old(self).tokens_view().len(),
        ensures
            old(self).position() < final(self).position(),
            final(self).tokens_view() == old(self).tokens_view(),
            node_matches(r, final(self).position(), spec_expression(old(self).tokens_view(), old(self).position())),
    {
        self.advance();
        let has_close = match self.peek() {
            Some(Token::CurlyClose) => true,
            Some(_) => false,
            None => {
                return Err(ParseError::UnexpectedEof);
            },
        };
        if has_close {
            self.advance();
            return Ok(Node::Expression(Expression::Unnamed));
        }
        let name = match self.advance() {
            Some(Token::Text(t)) => t,
            Some(tok) => {
                return Err(ParseError::InvalidToken(tok.to_text()));
            },
            None => {
                return Err(ParseError::UnexpectedEof);
            },
        };
        let has_format = match self.peek() {
            Some(Token::Colon) => true,
            _ => false,
        };
        let name = if has_format {
            self.advance();
            let format_spec = match self.advance() {
                Some(Token::Text(t)) => t,
                Some(tok) => {
                    return Err(ParseError::InvalidToken(tok.to_text()));
                },
                None => {
                    return Err(ParseError::UnexpectedEof);
                },
            };
            proof {
                reveal_strlit(":");
            }
            let mut full = name.to_owned();
            full.append(":");
            full.append(format_spec);
            assert(full@ =~= name@ + seq![':'] + format_spec@);
            Cow::Owned(full)
        } else {
            Cow::Borrowed(name)
        };
        match self.advance() {
            Some(Token::CurlyClose) => {},
            Some(tok) => {
                return Err(ParseError::InvalidToken(tok.to_text()));
            },
            None => {
                return Err(ParseError::UnexpectedEof);
            },
        }
        Ok(Node::Expression(Expression::Named(name)))
    }

    /// The next node, or `None` at the end of the input or at a token that starts no
    /// node (`>` or `}`). A call that gives something, an error included, uses up at least
    /// one token, so calls give `None` after at most as many as there are tokens.
    pub fn next(&mut self) -> (r: Option<Result<Node<'a>, ParseError>>)
        ensures
            final(self).position() <= final(self).tokens_view().len(),
            r is Some ==> old(self).position() < final(self).position(),
            old(self).position() >= old(self).tokens_view().len() ==> r is None,
            final(self).tokens_view() == old(self).tokens_view(),
            match (r, spec_next(old(self).tokens_view(), old(self).position())) {
                (None, None) => final(self).position() == old(self).position(),
                (Some(n), Some(s)) => node_matches(n, final(self).position(), s),
                _ => false,
            },
        decreases old(self).tokens_view().len() - old(self).position(), 1int,
    {
        let token = match self.peek() {
            Some(t) => t,
            None => {
                proof {
                    use_type_invariant(&*self);
                }
                return None;
            },
        };
        let r = match token {
            Token::Text(_) | Token::Backslash | Token::Colon | Token::Slash | Token::DoubleQuote
            | Token::Quote => {
                proof {
                    lemma_text_progress(self.tokens_view(), self.position(), None);
                }
                let r = match self.parse_text() {
                    Ok(t) => Ok(Node::Text(t)),
                    Err(e) => Err(e),
                };
                Some(r)
            },
            Token::AngleOpen => Some(self.parse_element()),
            Token::CurlyOpen => Some(self.parse_expression()),
            _ => None,
        };
        proof {
            use_type_invariant(&*self);
        }
        r
    }

    /// All nodes up to the first token that starts no node, or the first error.
    pub fn parse_all(&mut self) -> (r: Result<Vec<Node<'a>>, ParseError>)
        ensures
            match (r, spec_parse_from(old(self).tokens_view(), old(self).position())) {
                (Ok(ns), Ok(sn)) => nodes_view(ns@) == sn,
                (Err(e), Err(se)) => e@ == se,
                _ => false,
            },
    {
        proof {
            use_type_invariant(&*self);
        }
        let ghost ts = self.tokens_view();
        let ghost p0 = self.position();
        let mut nodes: Vec<Node<'a>> = Vec::new();
        loop
            invariant
                self.tokens_view() == ts,
                0 <= p0 <= self.position() <= ts.len(),
                ts == old(self).tokens_view(),
                p0 == old(self).position(),
                spec_parse_from(ts, p0) == match spec_parse_from(ts, self.position()) {
                    Ok(rest) => Ok(nodes_view(nodes@) + rest),
                    Err(e) => Err(e),
                },
            decreases ts.len() - self.position(),
        {
            let ghost p = self.position();
            let ghost before = nodes_view(nodes@);
            proof {
                lemma_progress(ts, p);
            }
            match self.next() {
                Some(Ok(node)) => {
                    proof {
                        lemma_nodes_view_push(nodes@, node);
                        match spec_parse_from(ts, self.position()) {
                            Ok(x) => {
                                assert(before + (seq![node@] + x) == before.push(node@) + x);
                            },
                            Err(_) => {},
                        }
                    }
                    nodes.push(node);
                },
                Some(Err(e)) => {
                    return Err(e);
                },
                None => {
                    assert(before + Seq::<NodeView>::empty() == before);
                    return Ok(nodes);
                },
            }
        }
    }
}

/// The nodes of a whole MiniMessage string, or the first error in it.
pub open spec fn spec_parse(s: Seq<char>) -> Result<Seq<NodeView>, ParseErrorView> {
    spec_parse_from(tokenize(s), 0)
}

/// Parses a whole MiniMessage string into its nodes, stopping at the first error.
pub fn parse_str<'a>(input: &'a str) -> (r: Result<Vec<Node<'a>>, ParseError>)
    ensures
        match (r, spec_parse(input@)) {
            (Ok(ns), Ok(sn)) => nodes_view(ns@) == sn,
            (Err(e), Err(se)) => e@ == se,
            _ => false,
        },
{
    let mut parser = Parser::new(Tokenizer::new(input));
    parser.parse_all()
}

} // verus!
