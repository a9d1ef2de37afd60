use std::borrow::Cow;

use minimessage::parse_error::ParseError;
use minimessage::parser::{parse_str, Expression, Node, Parser};
use minimessage::token::{Token, TokenDiscriminants};
use minimessage::tokenizer::Tokenizer;

fn tokenize(input: &str) -> Vec<Token<'_>> {
    let mut tokenizer = Tokenizer::new(input);
    let mut tokens = Vec::new();
    while let Some(token) = tokenizer.next() {
        tokens.push(token);
    }
    tokens
}

#[test]
fn tokens_give_back_the_input() {
    for input in ["", "a", "<a:'b c'>{d}\\/e\"f", "héllo<wörld>", "::''\"\""] {
        let joined: String = tokenize(input).iter().map(|t| t.to_text()).collect();
        assert_eq!(joined, input);
    }
}

#[test]
fn text_tokens_are_never_adjacent_nor_empty() {
    let tokens = tokenize("ab<c>de{f}g\\h/i:j'k\"l");
    for pair in tokens.windows(2) {
        assert!(!(pair[0].is_text() && pair[1].is_text()));
    }
    for t in &tokens {
        if let Token::Text(s) = t {
            assert!(!s.is_empty());
            assert!(!s.chars().any(|c| Token::illegal_text_chars().contains(&c)));
        }
    }
}

#[test]
fn token_kinds_and_their_characters() {
    assert_eq!(Token::AngleOpen.kind(), TokenDiscriminants::AngleOpen);
    assert_eq!(Token::Text("x").kind(), TokenDiscriminants::Text);
    assert_eq!(TokenDiscriminants::Colon.to_char(), Some(':'));
    assert_eq!(TokenDiscriminants::Text.to_char(), None);
    assert_eq!(
        TokenDiscriminants::collect_chars(&TokenDiscriminants::variants()),
        vec!['<', '>', '{', '}', '\\', '/', ':', '"', '\'']
    );
    assert_eq!(Token::illegal_text_chars(), vec!['<', '>', '{', '}', '\\', '/', ':', '"', '\'']);
    assert_eq!(Token::Quote.as_str(), "'");
    assert_eq!(Token::Text("abc").as_str(), "abc");
    assert_eq!(Token::Backslash.to_text(), "\\".to_string());
}

#[test]
fn plain_text_is_one_text_node() {
    assert_eq!(
        parse_str("just some words, and numbers 123!").unwrap(),
        vec![Node::Text(Cow::Borrowed("just some words, and numbers 123!"))]
    );
    assert_eq!(parse_str("").unwrap(), vec![]);
}

#[test]
fn escaped_special_is_text() {
    for c in ['<', '>', '{', '}', '\\', '/', ':', '"', '\''] {
        let input = format!("\\{c}");
        assert_eq!(parse_str(&input).unwrap(), vec![Node::Text(Cow::Owned(c.to_string()))]);
    }
}

#[test]
fn closed_element_holds_its_body() {
    assert_eq!(
        parse_str("<gold>shiny</gold>").unwrap(),
        vec![Node::Element {
            tag: "gold",
            tag_descriptors: vec![],
            children: vec![Node::Text(Cow::Borrowed("shiny"))],
        }]
    );
}

#[test]
fn mismatched_tag_names_both() {
    assert_eq!(
        parse_str("<gold>shiny</red>"),
        Err(ParseError::MismatchedTag { expected: "gold".to_string(), found: "red".to_string() })
    );
}

#[test]
fn unclosed_element_runs_to_the_end() {
    assert_eq!(
        parse_str("<gold>shiny").unwrap(),
        vec![Node::Element {
            tag: "gold",
            tag_descriptors: vec![],
            children: vec![Node::Text(Cow::Borrowed("shiny"))],
        }]
    );
}

#[test]
fn void_element_is_a_newline() {
    assert_eq!(parse_str("<br>").unwrap(), vec![Node::Text(Cow::Borrowed("\n"))]);
    assert_eq!(parse_str("<newline>").unwrap(), vec![Node::Text(Cow::Borrowed("\n"))]);
}

#[test]
fn named_expression_keeps_its_name() {
    assert_eq!(
        parse_str("{player}").unwrap(),
        vec![Node::Expression(Expression::Named(Cow::Borrowed("player")))]
    );
    assert_eq!(parse_str("{}").unwrap(), vec![Node::Expression(Expression::Unnamed)]);
}

#[test]
fn parse_errors() {
    assert_eq!(parse_str("<gold"), Err(ParseError::UnexpectedEof));
    assert_eq!(parse_str("{"), Err(ParseError::UnexpectedEof));
    assert_eq!(parse_str("<>"), Err(ParseError::InvalidToken(">".to_string())));
    assert_eq!(parse_str("{a:}"), Err(ParseError::InvalidToken("}".to_string())));
}

#[test]
fn placeholder_in_text_is_read() {
    assert_eq!(
        parse_str("Hello {}!").unwrap(),
        vec![
            Node::Text(Cow::Borrowed("Hello ")),
            Node::Expression(Expression::Unnamed),
            Node::Text(Cow::Borrowed("!")),
        ]
    );
}

#[test]
fn readme_example_parses_to_text_placeholder_text() {
    assert_eq!(
        parse_str("<blue>Hello {}!").unwrap(),
        vec![Node::Element {
            tag: "blue",
            tag_descriptors: vec![],
            children: vec![
                Node::Text(Cow::Borrowed("Hello ")),
                Node::Expression(Expression::Unnamed),
                Node::Text(Cow::Borrowed("!")),
            ],
        }]
    );
}

#[test]
fn braces_stay_text_inside_quotes() {
    assert_eq!(
        parse_str("<p:'a {b}'>x</p>").unwrap(),
        vec![Node::Element {
            tag: "p",
            tag_descriptors: vec![Cow::Borrowed("a {b}")],
            children: vec![Node::Text(Cow::Borrowed("x"))],
        }]
    );
}

#[test]
fn no_more_tokens_than_characters() {
    for input in ["", "<a:'b c'>{d}\\/e", "héllo<wörld>", "<<<>>>"] {
        let tokens = tokenize(input);
        assert!(tokens.len() <= input.chars().count());
        for t in &tokens {
            if !t.is_text() {
                assert_eq!(t.to_text().chars().count(), 1);
            }
        }
    }
}

#[test]
fn each_kind_char_tokenizes_to_its_kind() {
    for kind in TokenDiscriminants::variants() {
        match kind.to_char() {
            None => assert_eq!(kind, TokenDiscriminants::Text),
            Some(c) => {
                let text = c.to_string();
                let tokens = tokenize(&text);
                assert_eq!(tokens.len(), 1);
                assert_eq!(tokens[0].kind(), kind);
            },
        }
    }
}

#[test]
fn every_node_or_error_uses_up_a_token() {
    for input in ["{{{", "<>{", "a<b>c</d>", "\\", "{x:}{}", "<p:'q"] {
        let count = tokenize(input).len();
        let mut parser = Parser::new(minimessage::tokenizer::Tokenizer::new(input));
        let mut calls = 0;
        while parser.next().is_some() {
            calls += 1;
            assert!(calls <= count);
        }
    }
}
