use vstd::prelude::*;

verus! {

/// One lexical unit of a MiniMessage string.
#[derive(Debug, Clone, Copy, PartialEq)]
pub enum Token<'a> {
    AngleOpen,
    AngleClose,
    CurlyOpen,
    CurlyClose,
    Backslash,
    Slash,
    Colon,
    DoubleQuote,
    Quote,
    Text(&'a str),
}

/// The mathematical value of a token: a text token is its characters.
pub enum TokenView {
    AngleOpen,
    AngleClose,
    CurlyOpen,
    CurlyClose,
    Backslash,
    Slash,
    Colon,
    DoubleQuote,
    Quote,
    Text(Seq<char>),
}

impl<'a> View for Token<'a> {
    type V = TokenView;

    open spec fn view(&self) -> TokenView {
        match *self {
            Token::AngleOpen => TokenView::AngleOpen,
            Token::AngleClose => TokenView::AngleClose,
            Token::CurlyOpen => TokenView::CurlyOpen,
            Token::CurlyClose => TokenView::CurlyClose,
            Token::Backslash => TokenView::Backslash,
            Token::Slash => TokenView::Slash,
            Token::Colon => TokenView::Colon,
            Token::DoubleQuote => TokenView::DoubleQuote,
            Token::Quote => TokenView::Quote,
            Token::Text(s) => TokenView::Text(s@),
        }
    }
}

/// The kind of a token, without its text.
#[derive(Debug, Clone, Copy, PartialEq, Eq)]
pub enum TokenDiscriminants {
    AngleOpen,
    AngleClose,
    CurlyOpen,
    CurlyClose,
    Backslash,
    Slash,
    Colon,
    DoubleQuote,
    Quote,
    Text,
}

/// The character that a token kind stands for; a text token stands for none.
pub open spec fn spec_kind_char(d: TokenDiscriminants) -> Option<char> {
    match d {
        TokenDiscriminants::AngleOpen => Some('<'),
        TokenDiscriminants::AngleClose => Some('>'),
        TokenDiscriminants::CurlyOpen => Some('{'),
        TokenDiscriminants::CurlyClose => Some('}'),
        TokenDiscriminants::Backslash => Some('\\'),
        TokenDiscriminants::Slash => Some('/'),
        TokenDiscriminants::Colon => Some(':'),
        TokenDiscriminants::DoubleQuote => Some('"'),
        TokenDiscriminants::Quote => Some('\''),
        TokenDiscriminants::Text => None,
    }
}

/// The characters of the token kinds in `items`, in order, text kinds skipped.
pub open spec fn spec_collect_chars(items: Seq<TokenDiscriminants>) -> Seq<char>
    decreases items.len(),
{
    if items.len() == 0 {
        Seq::empty()
    } else {
        let rest = spec_collect_chars(items.drop_last());
        match spec_kind_char(items.last()) {
            Some(c) => rest.push(c),
            None => rest,
        }
    }
}

/// The characters that end a text token: one per token kind other than text.
pub open spec fn spec_illegal_text_chars() -> Seq<char> {
    seq!['<', '>', '{', '}', '\\', '/', ':', '"', '\'']
}

/// Whether `c` is a character that forms a token of its own.
pub open spec fn is_special_char(c: char) -> bool {
    spec_illegal_text_chars().contains(c)
}

/// The token kind of a token value.
pub open spec fn spec_kind(t: TokenView) -> TokenDiscriminants {
    match t {
        TokenView::AngleOpen => TokenDiscriminants::AngleOpen,
        TokenView::AngleClose => TokenDiscriminants::AngleClose,
        TokenView::CurlyOpen => TokenDiscriminants::CurlyOpen,
        TokenView::CurlyClose => TokenDiscriminants::CurlyClose,
        TokenView::Backslash => TokenDiscriminants::Backslash,
        TokenView::Slash => TokenDiscriminants::Slash,
        TokenView::Colon => TokenDiscriminants::Colon,
        TokenView::DoubleQuote => TokenDiscriminants::DoubleQuote,
        TokenView::Quote => TokenDiscriminants::Quote,
        TokenView::Text(_) => TokenDiscriminants::Text,
    }
}

/// The characters that a token stands for in the input.
pub open spec fn token_text(t: TokenView) -> Seq<char> {
    match t {
        TokenView::Text(s) => s,
        _ => seq![spec_kind_char(spec_kind(t))->0],
    }
}

impl TokenDiscriminants {
    /// All token kinds, in declaration order.
    pub fn variants() -> (r: [TokenDiscriminants; 10])
        ensures
            r@ == seq![
                TokenDiscriminants::AngleOpen,
                TokenDiscriminants::AngleClose,
                TokenDiscriminants::CurlyOpen,
                TokenDiscriminants::CurlyClose,
                TokenDiscriminants::Backslash,
                TokenDiscriminants::Slash,
                TokenDiscriminants::Colon,
                TokenDiscriminants::DoubleQuote,
                TokenDiscriminants::Quote,
                TokenDiscriminants::Text,
            ],
    {
        [
            TokenDiscriminants::AngleOpen,
            TokenDiscriminants::AngleClose,
            TokenDiscriminants::CurlyOpen,
            TokenDiscriminants::CurlyClose,
            TokenDiscriminants::Backslash,
            TokenDiscriminants::Slash,
            TokenDiscriminants::Colon,
            TokenDiscriminants::DoubleQuote,
            TokenDiscriminants::Quote,
            TokenDiscriminants::Text,
        ]
    }

    /// The character this kind of token stands for, `None` for text.
    pub fn to_char(&self) -> (r: Option<char>)
        ensures
            r == spec_kind_char(*self),
    {
        let c = match self {
            TokenDiscriminants::AngleOpen => '<',
            TokenDiscriminants::AngleClose => '>',
            TokenDiscriminants::CurlyOpen => '{',
            TokenDiscriminants::CurlyClose => '}',
            TokenDiscriminants::Backslash => '\\',
            TokenDiscriminants::Slash => '/',
            TokenDiscriminants::Colon => ':',
            TokenDiscriminants::DoubleQuote => '"',
            TokenDiscriminants::Quote => '\'',
            TokenDiscriminants::Text => {
                return None;
            },
        };
        Some(c)
    }

    /// The characters of the given token kinds, in order, text kinds skipped.
    pub fn collect_chars(items: &[TokenDiscriminants]) -> (out: Vec<char>)
        ensures
            out@ == spec_collect_chars(items@),
    {
        let mut out: Vec<char> = Vec::new();
        let mut i: usize = 0;
        while i < items.len()
            invariant
                i <= items@.len(),
                out@ == spec_collect_chars(items@.take(i as int)),
            decreases items@.len() - i,
        {
            assert(items@.take((i + 1) as int).drop_last() == items@.take(i as int));
            if let Some(c) = items[i].to_char() {
                out.push(c);
            }
            i += 1;
        }
        assert(items@.take(items@.len() as int) == items@);
        out
    }
}

impl<'a> Token<'a> {
    /// The kind of this token.
    pub fn kind(&self) -> (r: TokenDiscriminants)
        ensures
            r == spec_kind(self@),
    {
        match self {
            Token::AngleOpen => TokenDiscriminants::AngleOpen,
            Token::AngleClose => TokenDiscriminants::AngleClose,
            Token::CurlyOpen => TokenDiscriminants::CurlyOpen,
            Token::CurlyClose => TokenDiscriminants::CurlyClose,
            Token::Backslash => TokenDiscriminants::Backslash,
            Token::Slash => TokenDiscriminants::Slash,
            Token::Colon => TokenDiscriminants::Colon,
            Token::DoubleQuote => TokenDiscriminants::DoubleQuote,
            Token::Quote => TokenDiscriminants::Quote,
            Token::Text(_) => TokenDiscriminants::Text,
        }
    }

    /// Whether this is a text token.
    pub fn is_text(&self) -> (r: bool)
        ensures
            r == (self@ is Text),
    {
        match self {
            Token::Text(_) => true,
            _ => false,
        }
    }

    /// Whether this is a backslash token.
    pub fn is_backslash(&self) -> (r: bool)
        ensures
            r == (self@ is Backslash),
    {
        match self {
            Token::Backslash => true,
            _ => false,
        }
    }

    /// The characters this token stands for in the input.
    pub fn as_str(&self) -> (r: &'a str)
        ensures
            r@ == token_text(self@),
    {
        let r = match self {
            Token::Text(t) => {
                return *t;
            },
            Token::AngleOpen => {
                proof {
                    reveal_strlit("<");
                }
                "<"
            },
            Token::AngleClose => {
                proof {
                    reveal_strlit(">");
                }
                ">"
            },
            Token::CurlyOpen => {
                proof {
                    reveal_strlit("{");
                }
                "{"
            },
            Token::CurlyClose => {
                proof {
                    reveal_strlit("}");
                }
                "}"
            },
            Token::Backslash => {
                proof {
                    reveal_strlit("\\");
                }
                "\\"
            },
            Token::Slash => {
                proof {
                    reveal_strlit("/");
                }
                "/"
            },
            Token::Colon => {
                proof {
                    reveal_strlit(":");
                }
                ":"
            },
            Token::DoubleQuote => {
                proof {
                    reveal_strlit("\"");
                }
                "\""
            },
            Token::Quote => {
                proof {
                    reveal_strlit("'");
                }
                "'"
            },
        };
        assert(r@ =~= token_text(self@));
        r
    }

    /// The characters this token stands for, as an owned string.
    pub fn to_text(&self) -> (r: String)
        ensures
            r@ == token_text(self@),
    {
        self.as_str().to_owned()
    }

    /// The characters that end a text token, one per non-text token kind.
    pub fn illegal_text_chars() -> (r: Vec<char>)
        ensures
            r@ == spec_illegal_text_chars(),
    {
        let v = TokenDiscriminants::variants();
        let r = TokenDiscriminants::collect_chars(&v);
        proof {
            reveal_with_fuel(spec_collect_chars, 11);
            assert(v@.take(0).len() == 0);
        }
        assert(r@ =~= spec_illegal_text_chars());
        r
    }
}

} // verus!
