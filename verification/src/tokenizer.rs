use vstd::prelude::*;
use vstd::string::*;

use crate::token::{
    is_special_char, spec_illegal_text_chars, spec_kind, spec_kind_char, token_text, Token,
    TokenDiscriminants, TokenView,
};

verus! {

/// The number of leading characters of `s` that are not special.
pub open spec fn text_run_len(s: Seq<char>) -> nat
    decreases s.len(),
{
    if s.len() == 0 || is_special_char(s[0]) {
        0
    } else {
        1 + text_run_len(s.drop_first())
    }
}

/// The token that a special character forms on its own.
pub open spec fn special_token(c: char) -> TokenView {
    if c == '<' {
        TokenView::AngleOpen
    } else if c == '>' {
        TokenView::AngleClose
    } else if c == '{' {
        TokenView::CurlyOpen
    } else if c == '}' {
        TokenView::CurlyClose
    } else if c == '\\' {
        TokenView::Backslash
    } else if c == '/' {
        TokenView::Slash
    } else if c == ':' {
        TokenView::Colon
    } else if c == '"' {
        TokenView::DoubleQuote
    } else {
        TokenView::Quote
    }
}

/// The number of characters that the first token of a non-empty `s` spans.
pub open spec fn first_token_len(s: Seq<char>) -> nat {
    if is_special_char(s[0]) {
        1
    } else {
        text_run_len(s)
    }
}

/// The first token of a non-empty `s`: a special character on its own, or
/// the longest run of other characters.
pub open spec fn first_token(s: Seq<char>) -> TokenView {
    if is_special_char(s[0]) {
        special_token(s[0])
    } else {
        TokenView::Text(s.take(text_run_len(s) as int))
    }
}

/// The tokens of `s`, front to back.
pub open spec fn tokenize(s: Seq<char>) -> Seq<TokenView>
    decreases s.len(),
{
    if s.len() == 0 {
        Seq::empty()
    } else {
        proof {
            lemma_first_token_len(s);
        }
        seq![first_token(s)] + tokenize(s.skip(first_token_len(s) as int))
    }
}

/// The characters that a sequence of tokens stands for, concatenated.
pub open spec fn tokens_text(ts: Seq<TokenView>) -> Seq<char>
    decreases ts.len(),
{
    if ts.len() == 0 {
        Seq::empty()
    } else {
        token_text(ts[0]) + tokens_text(ts.drop_first())
    }
}

/// Whether a token is a text token.
pub open spec fn is_text_token(t: TokenView) -> bool {
    t is Text
}

/// A run of non-special characters ends exactly where the first special character (or
/// the end of the input) is.
pub proof fn lemma_text_run_len(s: Seq<char>, k: int)
    requires
        0 <= k <= s.len(),
        forall|i: int| 0 <= i < k ==> !is_special_char(#[trigger] s[i]),
        k == s.len() || is_special_char(s[k]),
    ensures
        text_run_len(s) == k,
    decreases k,
{
    if k > 0 {
        lemma_text_run_len(s.drop_first(), k - 1);
    }
}

/// A run of non-special characters holds no special character.
pub proof fn lemma_text_run_chars(s: Seq<char>)
    ensures
        text_run_len(s) <= s.len(),
        forall|i: int| 0 <= i < text_run_len(s) ==> !is_special_char(#[trigger] s[i]),
        text_run_len(s) == s.len() || is_special_char(s[text_run_len(s) as int]),
    decreases s.len(),
{
    if s.len() > 0 && !is_special_char(s[0]) {
        lemma_text_run_chars(s.drop_first());
        assert forall|i: int| 0 <= i < text_run_len(s) implies !is_special_char(#[trigger] s[i]) by {
            if i > 0 {
                assert(s[i] == s.drop_first()[i - 1]);
            }
        }
    }
}

/// A non-empty input has a first token spanning at least one character.
pub proof fn lemma_first_token_len(s: Seq<char>)
    requires
        s.len() > 0,
    ensures
        1 <= first_token_len(s) <= s.len(),
{
    lemma_text_run_chars(s);
}

/// Every character `c` with a token of its own is given that token's text back.
pub proof fn lemma_special_token_text(c: char)
    requires
        is_special_char(c),
    ensures
        token_text(special_token(c)) == seq![c],
        !is_text_token(special_token(c)),
{
}

/// There are never more tokens than characters, and every token other than text stands
/// for exactly one character of the input.
pub proof fn law_token_count(s: Seq<char>)
    ensures
        tokenize(s).len() <= s.len(),
        forall|i: int|
            0 <= i < tokenize(s).len() && !is_text_token(#[trigger] tokenize(s)[i]) ==> token_text(
                tokenize(s)[i],
            ).len() == 1,
    decreases s.len(),
{
    if s.len() > 0 {
        lemma_first_token_len(s);
        let n = first_token_len(s) as int;
        let ts = tokenize(s);
        let rest = tokenize(s.skip(n));
        law_token_count(s.skip(n));
        assert(ts == seq![first_token(s)] + rest);
        assert forall|i: int|
            0 <= i < ts.len() && !is_text_token(#[trigger] ts[i]) implies token_text(ts[i]).len() == 1 by {
            if i == 0 {
                if is_special_char(s[0]) {
                    lemma_special_token_text(s[0]);
                }
            } else {
                assert(ts[i] == rest[i - 1]);
            }
        }
    }
}

/// The character of a token kind other than text tokenizes to a single token of that kind.
pub proof fn law_kind_char_round_trip(d: TokenDiscriminants)
    ensures
        spec_kind_char(d) is None <==> d == TokenDiscriminants::Text,
        spec_kind_char(d) matches Some(c) ==> tokenize(seq![c]).len() == 1 && spec_kind(
            tokenize(seq![c])[0],
        ) == d,
{
    if let Some(c) = spec_kind_char(d) {
        let s = seq![c];
        assert(spec_illegal_text_chars()[0] == '<');
        assert(spec_illegal_text_chars()[1] == '>');
        assert(spec_illegal_text_chars()[2] == '{');
        assert(spec_illegal_text_chars()[3] == '}');
        assert(spec_illegal_text_chars()[4] == '\\');
        assert(spec_illegal_text_chars()[5] == '/');
        assert(spec_illegal_text_chars()[6] == ':');
        assert(spec_illegal_text_chars()[7] == '"');
        assert(spec_illegal_text_chars()[8] == '\'');
        assert(is_special_char(c));
        assert(s[0] == c);
        assert(first_token_len(s) == 1);
        assert(s.skip(1).len() == 0);
        assert(tokenize(s.skip(1)) == Seq::<TokenView>::empty());
        assert(tokenize(s) == seq![special_token(c)] + Seq::<TokenView>::empty());
        assert(tokenize(s)[0] == special_token(c));
    }
}

/// Tokenizing loses nothing: the tokens stand, in order, for exactly the input's characters.
pub proof fn law_tokenize_lossless(s: Seq<char>)
    ensures
        tokens_text(tokenize(s)) == s,
    decreases s.len(),
{
    if s.len() > 0 {
        lemma_first_token_len(s);
        let n = first_token_len(s) as int;
        let ts = tokenize(s);
        law_tokenize_lossless(s.skip(n));
        assert(ts.drop_first() == tokenize(s.skip(n)));
        if is_special_char(s[0]) {
            lemma_special_token_text(s[0]);
        }
        assert(token_text(first_token(s)) == s.take(n));
        assert(s.take(n) + s.skip(n) == s);
    }
}

/// Text tokens are non-empty, hold no special character, and are never followed by
/// another text token.
pub proof fn law_text_tokens(s: Seq<char>)
    ensures
        forall|i: int|
            0 <= i < tokenize(s).len() && #[trigger] is_text_token(tokenize(s)[i]) ==> {
                let t = tokenize(s)[i]->Text_0;
                &&& t.len() > 0
                &&& forall|j: int| 0 <= j < t.len() ==> !is_special_char(#[trigger] t[j])
                &&& (i + 1 < tokenize(s).len() ==> !is_text_token(tokenize(s)[i + 1]))
            },
    decreases s.len(),
{
    if s.len() > 0 {
        lemma_first_token_len(s);
        lemma_text_run_chars(s);
        let n = first_token_len(s) as int;
        let rest = s.skip(n);
        law_text_tokens(rest);
        let ts = tokenize(s);
        assert(ts.drop_first() == tokenize(rest));
        assert forall|i: int|
            0 <= i < ts.len() && #[trigger] is_text_token(ts[i]) implies {
                let t = ts[i]->Text_0;
                &&& t.len() > 0
                &&& forall|j: int| 0 <= j < t.len() ==> !is_special_char(#[trigger] t[j])
                &&& (i + 1 < ts.len() ==> !is_text_token(ts[i + 1]))
            } by {
            if i == 0 {
                if i + 1 < ts.len() {
                    assert(ts[1] == tokenize(rest)[0]);
                    assert(rest.len() > 0);
                    assert(rest[0] == s[n]);
                    assert(is_special_char(rest[0]));
                }
            } else {
                assert(ts[i] == tokenize(rest)[i - 1]);
                if i + 1 < ts.len() {
                    assert(ts[i + 1] == tokenize(rest)[i]);
                }
            }
        }
    }
}

/// Splitting the input just before a special character splits its tokens there too.
pub proof fn lemma_tokenize_append(a: Seq<char>, b: Seq<char>)
    requires
        b.len() > 0 ==> is_special_char(b[0]),
    ensures
        tokenize(a + b) == tokenize(a) + tokenize(b),
    decreases a.len(),
{
    if a.len() == 0 {
        assert(a + b == b);
    } else {
        let s = a + b;
        lemma_first_token_len(a);
        lemma_text_run_chars(a);
        lemma_text_run_chars(s);
        let n = first_token_len(a) as int;
        if !is_special_char(a[0]) {
            assert forall|i: int| 0 <= i < n implies !is_special_char(#[trigger] s[i]) by {
                assert(s[i] == a[i]);
            }
            if n < a.len() {
                assert(s[n] == a[n]);
            } else {
                if b.len() > 0 {
                    assert(s[n] == b[0]);
                }
            }
            lemma_text_run_len(s, n);
            assert(s.take(n) == a.take(n));
        }
        assert(first_token_len(s) == n);
        assert(first_token(s) == first_token(a));
        assert(s.skip(n) == a.skip(n) + b);
        lemma_tokenize_append(a.skip(n), b);
        assert(tokenize(a) + tokenize(b) == seq![first_token(a)] + (tokenize(a.skip(n)) + tokenize(b)));
    }
}

/// Whether `s` is a non-empty run of characters none of which is special.
pub open spec fn is_plain(s: Seq<char>) -> bool {
    s.len() > 0 && forall|i: int| 0 <= i < s.len() ==> !is_special_char(#[trigger] s[i])
}

/// A plain run of characters is one text token.
pub proof fn lemma_tokenize_plain(s: Seq<char>)
    requires
        is_plain(s),
    ensures
        tokenize(s) == seq![TokenView::Text(s)],
{
    lemma_text_run_len(s, s.len() as int);
    assert(s.take(s.len() as int) == s);
    assert(s.skip(s.len() as int).len() == 0);
    assert(tokenize(s.skip(s.len() as int)) == Seq::<TokenView>::empty());
}

/// A special character in front of anything is a token of its own.
pub proof fn lemma_tokenize_special_prefix(c: char, b: Seq<char>)
    requires
        is_special_char(c),
    ensures
        tokenize(seq![c] + b) == seq![special_token(c)] + tokenize(b),
{
    let s = seq![c] + b;
    assert(s[0] == c);
    assert(s.skip(1) == b);
}

/// Splits a MiniMessage string into tokens, one at a time.
pub struct Tokenizer<'a> {
    pub(crate) input: &'a str,
    pos: usize,
    len: usize,
}

impl<'a> Tokenizer<'a> {
    #[verifier::type_invariant]
    spec fn well_formed(&self) -> bool {
        &&& self.len == self.input@.len()
        &&& self.pos <= self.len
    }

    /// The characters not yet turned into tokens.
    pub closed spec fn remaining(&self) -> Seq<char> {
        self.input@.skip(self.pos as int)
    }

    /// A tokenizer over the whole of `input`.
    pub fn new(input: &'a str) -> (t: Self)
        ensures
            t.remaining() == input@,
    {
        let len = input.unicode_len();
        let t = Tokenizer { input, pos: 0, len };
        assert(input@.skip(0) == input@);
        t
    }

    /// The next token, or `None` once the input is used up.
    pub fn next(&mut self) -> (r: Option<Token<'a>>)
        ensures
            old(self).remaining().len() == 0 ==> r is None && final(self).remaining() == old(
                self,
            ).remaining(),
            old(self).remaining().len() > 0 ==> {
                let rem = old(self).remaining();
                &&& r matches Some(t)
                &&& t@ == first_token(rem)
                &&& final(self).remaining() == rem.skip(first_token_len(rem) as int)
            },
    {
        proof {
            use_type_invariant(&*self);
        }
        if self.pos >= self.len {
            return None;
        }
        let start = self.pos;
        let c = self.input.get_char(start);
        let ghost rem = self.input@.skip(start as int);
        assert(rem[0] == c);
        self.pos = start + 1;
        let tok = if c == '<' {
            Token::AngleOpen
        } else if c == '>' {
            Token::AngleClose
        } else if c == '{' {
            Token::CurlyOpen
        } else if c == '}' {
            Token::CurlyClose
        } else if c == '\\' {
            Token::Backslash
        } else if c == '/' {
            Token::Slash
        } else if c == ':' {
            Token::Colon
        } else if c == '"' {
            Token::DoubleQuote
        } else if c == '\'' {
            Token::Quote
        } else {
            assert(!is_special_char(c));
            let s = self.read_string(start);
            Token::Text(s)
        };
        proof {
            assert(old(self).remaining() == rem);
            lemma_first_token_len(rem);
            assert(self.input@.skip(self.pos as int) == rem.skip(first_token_len(rem) as int));
        }
        Some(tok)
    }

    /// Reads the rest of a text token whose first character, at `start`, was just read.
    fn read_string(&mut self, start: usize) -> (s: &'a str)
        requires
            old(self).pos == start + 1,
            start < old(self).input@.len(),
            !is_special_char(old(self).input@[start as int]),
        ensures
            final(self).input == old(self).input,
            ({
                let rem = old(self).input@.skip(start as int);
                &&& s@ == rem.take(text_run_len(rem) as int)
                &&& final(self).pos == start + text_run_len(rem)
            }),
    {
        proof {
            use_type_invariant(&*self);
        }
        let illegal = Token::illegal_text_chars();
        let ghost rem = self.input@.skip(start as int);
        loop
            invariant
                self.len == self.input@.len(),
                self.input == old(self).input,
                start < self.pos <= self.len,
                rem == self.input@.skip(start as int),
                illegal@ == spec_illegal_text_chars(),
                forall|i: int| 0 <= i < self.pos - start ==> !is_special_char(#[trigger] rem[i]),
            ensures
                self.len == self.input@.len(),
                self.input == old(self).input,
                start < self.pos <= self.len,
                forall|i: int| 0 <= i < self.pos - start ==> !is_special_char(#[trigger] rem[i]),
                self.pos == self.len || is_special_char(rem[self.pos - start]),
            decreases self.len - self.pos,
        {
            if self.pos >= self.len {
                break;
            }
            let c = self.input.get_char(self.pos);
            assert(rem[self.pos - start] == c);
            if contains_char(&illegal, c) {
                break;
            }
            self.pos = self.pos + 1;
        }
        proof {
            lemma_text_run_len(rem, self.pos - start);
        }
        let s = self.input.substring_char(start, self.pos);
        assert(s@ =~= rem.take(self.pos - start));
        s
    }
}

/// Whether `c` is one of the characters of `v`.
pub fn contains_char(v: &Vec<char>, c: char) -> (r: bool)
    ensures
        r == v@.contains(c),
{
    let mut i: usize = 0;
    while i < v.len()
        invariant
            i <= v@.len(),
            forall|j: int| 0 <= j < i ==> v@[j] != c,
        decreases v@.len() - i,
    {
        if v[i] == c {
            return true;
        }
        i += 1;
    }
    false
}

} // verus!
