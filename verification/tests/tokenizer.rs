use minimessage::token::Token;
use minimessage::tokenizer::Tokenizer;

fn tokenize(input: &str) -> Vec<Token<'_>> {
    let mut tokenizer = Tokenizer::new(input);
    let mut tokens = Vec::new();
    while let Some(token) = tokenizer.next() {
        tokens.push(token);
    }
    tokens
}

#[test]
fn empty_string() {
    assert!(tokenize("").is_empty());
}

#[test]
fn single_char_text() {
    assert_eq!(tokenize("a"), vec![Token::Text("a")]);
}

#[test]
fn text_between_angle_brackets() {
    assert_eq!(
        tokenize("<a>"),
        vec![Token::AngleOpen, Token::Text("a"), Token::AngleClose],
    );
}

#[test]
fn text_between_angle_brackets_multi_char() {
    assert_eq!(
        tokenize("<abcde>"),
        vec![Token::AngleOpen, Token::Text("abcde"), Token::AngleClose],
    );
}

#[test]
fn each_special_char() {
    assert_eq!(tokenize("<"), vec![Token::AngleOpen]);
    assert_eq!(tokenize(">"), vec![Token::AngleClose]);
    assert_eq!(tokenize("{"), vec![Token::CurlyOpen]);
    assert_eq!(tokenize("}"), vec![Token::CurlyClose]);
    assert_eq!(tokenize("\\"), vec![Token::Backslash]);
    assert_eq!(tokenize("/"), vec![Token::Slash]);
}

#[test]
fn consecutive_special_chars() {
    assert_eq!(
        tokenize("<>{}"),
        vec![
            Token::AngleOpen,
            Token::AngleClose,
            Token::CurlyOpen,
            Token::CurlyClose,
        ],
    );
}

#[test]
fn text_at_start_no_special() {
    assert_eq!(tokenize("hello"), vec![Token::Text("hello")],);
}

#[test]
fn text_followed_by_special() {
    assert_eq!(
        tokenize("text<"),
        vec![Token::Text("text"), Token::AngleOpen],
    );
}

#[test]
fn text_preceded_by_special() {
    assert_eq!(
        tokenize(">text"),
        vec![Token::AngleClose, Token::Text("text")],
    );
}

#[test]
fn text_between_consecutive_special_chars() {
    assert_eq!(
        tokenize("<a>b{c}d/e"),
        vec![
            Token::AngleOpen,
            Token::Text("a"),
            Token::AngleClose,
            Token::Text("b"),
            Token::CurlyOpen,
            Token::Text("c"),
            Token::CurlyClose,
            Token::Text("d"),
            Token::Slash,
            Token::Text("e"),
        ],
    );
}

#[test]
fn text_with_spaces_and_punctuation() {
    assert_eq!(tokenize("hello world!"), vec![Token::Text("hello world!")],);
}

#[test]
fn text_with_numbers() {
    assert_eq!(tokenize("abc123"), vec![Token::Text("abc123")]);
}

#[test]
fn special_chars_sandwich_text() {
    assert_eq!(
        tokenize("<text>"),
        vec![Token::AngleOpen, Token::Text("text"), Token::AngleClose],
    );
}

#[test]
fn multiple_text_segments() {
    assert_eq!(
        tokenize("a>b"),
        vec![Token::Text("a"), Token::AngleClose, Token::Text("b")],
    );
}

#[test]
fn unicode_text() {
    assert_eq!(tokenize("héllo"), vec![Token::Text("héllo")]);
}

#[test]
fn unicode_text_between_special() {
    assert_eq!(
        tokenize("<héllo>"),
        vec![Token::AngleOpen, Token::Text("héllo"), Token::AngleClose,],
    );
}

#[test]
fn unicode_multibyte_surrounding_special() {
    assert_eq!(
        tokenize("ñ<ü"),
        vec![Token::Text("ñ"), Token::AngleOpen, Token::Text("ü")],
    );
}

#[test]
fn special_then_text_then_special_no_overlap() {
    assert_eq!(
        tokenize("{x}"),
        vec![Token::CurlyOpen, Token::Text("x"), Token::CurlyClose],
    );
}

#[test]
fn backslash_and_slash_mixed() {
    assert_eq!(
        tokenize("a\\b/c"),
        vec![
            Token::Text("a"),
            Token::Backslash,
            Token::Text("b"),
            Token::Slash,
            Token::Text("c"),
        ],
    );
}

#[test]
fn tag_descriptor() {
    assert_eq!(
        tokenize(r#"<b:"some text">"#),
        vec![
            Token::AngleOpen,
            Token::Text("b"),
            Token::Colon,
            Token::DoubleQuote,
            Token::Text("some text"),
            Token::DoubleQuote,
            Token::AngleClose,
        ],
    );
}

#[test]
fn tag_descriptor_with_inner_colon() {
    assert_eq!(
        tokenize(r#"<b:"some :text">"#),
        vec![
            Token::AngleOpen,
            Token::Text("b"),
            Token::Colon,
            Token::DoubleQuote,
            Token::Text("some "),
            Token::Colon,
            Token::Text("text"),
            Token::DoubleQuote,
            Token::AngleClose,
        ],
    );
}

#[test]
fn tokenize_is_consuming() {
    let mut tokenizer = Tokenizer::new("<a>");
    assert_eq!(tokenizer.next().unwrap(), Token::AngleOpen);
    assert_eq!(tokenizer.next().unwrap(), Token::Text("a"));
    assert_eq!(tokenizer.next().unwrap(), Token::AngleClose);
    assert!(tokenizer.next().is_none());
}

#[test]
fn all_special_no_text() {
    assert_eq!(
        tokenize("<>{}"),
        vec![
            Token::AngleOpen,
            Token::AngleClose,
            Token::CurlyOpen,
            Token::CurlyClose,
        ],
    );
}

#[test]
fn new_does_not_panic() {
    let _ = Tokenizer::new("");
    let _ = Tokenizer::new("<>{}");
}
