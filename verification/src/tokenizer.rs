//! Lexical analysis: turns a raw byte buffer into an ordered token sequence.
//!
//! The spec function [`lex`] states exactly which tokens a byte sequence
//! yields; [`Tokenizer::tokenize`] is proved to produce them.

use vstd::prelude::*;

verus! {

/// The kind of a token. `IntLiteral` and `Ident` carry a payload string;
/// the keywords and punctuation carry none.
#[derive(Clone, Copy, PartialEq, Eq, Structural, Debug)]
pub enum TokenType {
    IntLiteral,
    Ident,
    Exit,
    Let,
    LParen,
    RParen,
    Eq,
    SemiColon,
}

/// Mathematical model of a token: its kind and its payload text
/// (empty for tokens that carry no payload).
pub ghost struct TokenV {
    pub kind: TokenType,
    pub text: Seq<char>,
}

/// A lexical token: a kind plus an optional payload (the literal digits or
/// the identifier spelling, present only for `IntLiteral` and `Ident`).
#[derive(Debug)]
pub struct Token {
    pub type_: TokenType,
    pub value: Option<String>,
}

impl View for Token {
    type V = TokenV;

    open spec fn view(&self) -> TokenV {
        TokenV {
            kind: self.type_,
            text: match self.value {
                Some(s) => s@,
                None => Seq::empty(),
            },
        }
    }
}

impl Clone for Token {
    fn clone(&self) -> (res: Self)
        ensures
            res@ == self@,
            res.type_ == self.type_,
            res.value is Some <==> self.value is Some,
    {
        let value = match &self.value {
            Some(s) => Some(s.clone()),
            None => None,
        };
        Token { type_: self.type_, value }
    }
}

impl Token {
    pub fn new(type_: TokenType, value: Option<String>) -> (t: Self)
        ensures
            t.type_ == type_,
            t.value == value,
    {
        Self { type_, value }
    }

    pub fn new_int_literal_token(value: String) -> (t: Self)
        ensures
            t@ == (TokenV { kind: TokenType::IntLiteral, text: value@ }),
            t.value == Some(value),
    {
        Self::new(TokenType::IntLiteral, Some(value))
    }

    pub fn new_identifier_token(value: String) -> (t: Self)
        ensures
            t@ == (TokenV { kind: TokenType::Ident, text: value@ }),
            t.value == Some(value),
    {
        Self::new(TokenType::Ident, Some(value))
    }

    pub fn new_exit_token() -> (t: Self)
        ensures
            t@ == (TokenV { kind: TokenType::Exit, text: Seq::empty() }),
            t.value is None,
    {
        Self::new(TokenType::Exit, None)
    }

    pub fn new_let_token() -> (t: Self)
        ensures
            t@ == (TokenV { kind: TokenType::Let, text: Seq::empty() }),
            t.value is None,
    {
        Self::new(TokenType::Let, None)
    }

    pub fn new_l_paren_token() -> (t: Self)
        ensures
            t@ == (TokenV { kind: TokenType::LParen, text: Seq::empty() }),
            t.value is None,
    {
        Self::new(TokenType::LParen, None)
    }

    pub fn new_r_paren_token() -> (t: Self)
        ensures
            t@ == (TokenV { kind: TokenType::RParen, text: Seq::empty() }),
            t.value is None,
    {
        Self::new(TokenType::RParen, None)
    }

    pub fn new_eq_token() -> (t: Self)
        ensures
            t@ == (TokenV { kind: TokenType::Eq, text: Seq::empty() }),
            t.value is None,
    {
        Self::new(TokenType::Eq, None)
    }

    pub fn new_semi_colon_token() -> (t: Self)
        ensures
            t@ == (TokenV { kind: TokenType::SemiColon, text: Seq::empty() }),
            t.value is None,
    {
        Self::new(TokenType::SemiColon, None)
    }
}

/// An ASCII letter, the bytes that start and extend a keyword or identifier.
pub open spec fn is_word_byte(b: u8) -> bool {
    (65 <= b <= 90) || (97 <= b <= 122)
}

/// An ASCII digit, the bytes that form an integer literal.
pub open spec fn is_digit_byte(b: u8) -> bool {
    48 <= b <= 57
}

/// A byte that yields a punctuation token by itself: `(`, `)`, `=`, `;`.
pub open spec fn is_punct_byte(b: u8) -> bool {
    b == 40 || b == 41 || b == 61 || b == 59
}

/// The characters spelled by a run of ASCII bytes.
pub open spec fn chars_of_bytes(s: Seq<u8>) -> Seq<char> {
    s.map_values(|b: u8| b as char)
}

/// Length of the longest prefix of `s` made of ASCII letters.
pub open spec fn word_run(s: Seq<u8>) -> nat
    decreases s.len(),
{
    if s.len() > 0 && is_word_byte(s[0]) {
        (1 + word_run(s.skip(1))) as nat
    } else {
        0
    }
}

/// Length of the longest prefix of `s` made of ASCII digits.
pub open spec fn digit_run(s: Seq<u8>) -> nat
    decreases s.len(),
{
    if s.len() > 0 && is_digit_byte(s[0]) {
        (1 + digit_run(s.skip(1))) as nat
    } else {
        0
    }
}

pub proof fn lemma_word_run_bound(s: Seq<u8>)
    ensures
        word_run(s) <= s.len(),
        s.len() > 0 && is_word_byte(s[0]) ==> word_run(s) >= 1,
    decreases s.len(),
{
    if s.len() > 0 && is_word_byte(s[0]) {
        lemma_word_run_bound(s.skip(1));
    }
}

pub proof fn lemma_digit_run_bound(s: Seq<u8>)
    ensures
        digit_run(s) <= s.len(),
        s.len() > 0 && is_digit_byte(s[0]) ==> digit_run(s) >= 1,
    decreases s.len(),
{
    if s.len() > 0 && is_digit_byte(s[0]) {
        lemma_digit_run_bound(s.skip(1));
    }
}

/// The token spelled by a run of letters: the exact spellings `exit` and
/// `let` are keywords; any other spelling is an identifier.
pub open spec fn word_token(w: Seq<char>) -> TokenV {
    if w == "exit"@ {
        TokenV { kind: TokenType::Exit, text: Seq::empty() }
    } else if w == "let"@ {
        TokenV { kind: TokenType::Let, text: Seq::empty() }
    } else {
        TokenV { kind: TokenType::Ident, text: w }
    }
}

/// The punctuation token for one of the bytes `(`, `)`, `=`, `;`.
pub open spec fn punct_token(b: u8) -> TokenV {
    if b == 40 {
        TokenV { kind: TokenType::LParen, text: Seq::empty() }
    } else if b == 41 {
        TokenV { kind: TokenType::RParen, text: Seq::empty() }
    } else if b == 61 {
        TokenV { kind: TokenType::Eq, text: Seq::empty() }
    } else {
        TokenV { kind: TokenType::SemiColon, text: Seq::empty() }
    }
}

/// The token sequence of a byte buffer. The scan is greedy and left to
/// right: a run of letters spells a keyword or identifier, a run of digits
/// an integer literal, each of `(` `)` `=` `;` a punctuation token, and any
/// other byte is discarded without producing a token.
pub open spec fn lex(s: Seq<u8>) -> Seq<TokenV>
    decreases s.len(),
{
    if s.len() == 0 {
        Seq::empty()
    } else if is_word_byte(s[0]) {
        let n = word_run(s);
        proof {
            lemma_word_run_bound(s);
        }
        seq![word_token(chars_of_bytes(s.take(n as int)))] + lex(s.skip(n as int))
    } else if is_digit_byte(s[0]) {
        let n = digit_run(s);
        proof {
            lemma_digit_run_bound(s);
        }
        seq![TokenV { kind: TokenType::IntLiteral, text: chars_of_bytes(s.take(n as int)) }]
            + lex(s.skip(n as int))
    } else if is_punct_byte(s[0]) {
        seq![punct_token(s[0])] + lex(s.skip(1))
    } else {
        lex(s.skip(1))
    }
}

/// A buffer made only of bytes the lexer recognizes nothing in (whitespace
/// and other unrecognized symbols) yields no token at all.
pub proof fn lemma_lex_unrecognized_is_empty(s: Seq<u8>)
    requires
        forall|i: int|
            0 <= i < s.len() ==> !is_word_byte(s[i]) && !is_digit_byte(s[i]) && !is_punct_byte(
                s[i],
            ),
    ensures
        lex(s) == Seq::<TokenV>::empty(),
    decreases s.len(),
{
    if s.len() > 0 {
        assert(forall|i: int| 0 <= i < s.skip(1).len() ==> s.skip(1)[i] == s[i + 1]);
        lemma_lex_unrecognized_is_empty(s.skip(1));
    }
}

/// The views of a token sequence, element by element.
pub open spec fn views_of(ts: Seq<Token>) -> Seq<TokenV> {
    ts.map_values(|t: Token| t@)
}

proof fn lemma_views_of_push(ts: Seq<Token>, t: Token)
    ensures
        views_of(ts.push(t)) == views_of(ts).push(t@),
{
    assert(views_of(ts.push(t)) =~= views_of(ts).push(t@));
}

/// `word_run` is exactly the position of the first byte that is not a
/// letter (or the whole length when every byte is one).
pub proof fn lemma_word_run_is(s: Seq<u8>, n: int)
    requires
        0 <= n <= s.len(),
        forall|k: int| 0 <= k < n ==> is_word_byte(s[k]),
        n == s.len() || !is_word_byte(s[n]),
    ensures
        word_run(s) == n,
    decreases n,
{
    if n == 0 {
    } else {
        lemma_word_run_is(s.skip(1), n - 1);
    }
}

/// `digit_run` is exactly the position of the first byte that is not a
/// digit (or the whole length when every byte is one).
pub proof fn lemma_digit_run_is(s: Seq<u8>, n: int)
    requires
        0 <= n <= s.len(),
        forall|k: int| 0 <= k < n ==> is_digit_byte(s[k]),
        n == s.len() || !is_digit_byte(s[n]),
    ensures
        digit_run(s) == n,
    decreases n,
{
    if n == 0 {
    } else {
        lemma_digit_run_is(s.skip(1), n - 1);
    }
}

/// Relies on `String::from_utf8`: a buffer of ASCII bytes is valid UTF-8
/// and decodes to the characters of the same code points, one per byte.
#[verifier::external_body]
fn ascii_to_string(bytes: Vec<u8>) -> (r: String)
    requires
        forall|k: int| 0 <= k < bytes@.len() ==> bytes@[k] < 128,
    ensures
        r@ == chars_of_bytes(bytes@),
{
    String::from_utf8(bytes).unwrap_or_default()
}

fn byte_is_word(b: u8) -> (r: bool)
    ensures
        r == is_word_byte(b),
{
    (65 <= b && b <= 90) || (97 <= b && b <= 122)
}

fn byte_is_digit(b: u8) -> (r: bool)
    ensures
        r == is_digit_byte(b),
{
    48 <= b && b <= 57
}

/// Scans a byte buffer left to right with one cursor and never backtracks.
pub struct Tokenizer {
    src: Vec<u8>,
    index: usize,
}

impl Tokenizer {
    /// The byte buffer being scanned.
    pub closed spec fn source(&self) -> Seq<u8> {
        self.src@
    }

    /// The cursor: how many bytes have been consumed.
    pub closed spec fn pos(&self) -> nat {
        self.index as nat
    }

    /// The cursor never runs past the end of the buffer.
    pub closed spec fn wf(&self) -> bool {
        self.index <= self.src@.len()
    }

    pub fn new(src: Vec<u8>) -> (t: Self)
        ensures
            t.wf(),
            t.source() == src@,
            t.pos() == 0,
    {
        Self { src, index: 0 }
    }

    fn peek(&self) -> (r: Option<u8>)
        ensures
            self.pos() < self.source().len() ==> r == Some(self.source()[self.pos() as int]),
            self.pos() >= self.source().len() ==> r is None,
    {
        if self.index >= self.src.len() {
            return None;
        }
        Some(self.src[self.index])
    }

    fn consume(&mut self) -> (b: u8)
        requires
            old(self).pos() < old(self).source().len(),
        ensures
            final(self).source() == old(self).source(),
            final(self).pos() == old(self).pos() + 1,
            b == old(self).source()[old(self).pos() as int],
    {
        let b = self.src[self.index];
        assert(self.index < self.src.len());
        self.index = self.index + 1;
        b
    }

    /// Produces the token sequence of the unconsumed part of the buffer:
    /// exactly what the spec function [`lex`] says, leaving the cursor
    /// exhausted. There is no failure mode; unrecognized bytes are dropped.
    pub fn tokenize(&mut self) -> (tokens: Vec<Token>)
        requires
            old(self).wf(),
        ensures
            views_of(tokens@) == lex(old(self).source().skip(old(self).pos() as int)),
            final(self).source() == old(self).source(),
            final(self).pos() == final(self).source().len(),
            final(self).wf(),
    {
        let ghost src = self.src@;
        let ghost start0 = self.index as int;
        let mut tokens: Vec<Token> = Vec::new();

        while self.index < self.src.len()
            invariant
                self.wf(),
                self.src@ == src,
                0 <= start0 <= self.index as int,
                views_of(tokens@) + lex(src.skip(self.index as int)) == lex(src.skip(start0)),
            decreases src.len() - self.index,
        {
            let c = self.src[self.index];
            let ghost i0 = self.index as int;
            assert(src.skip(i0)[0] == c);
            if byte_is_word(c) {
                let mut buf: Vec<u8> = Vec::new();
                while self.index < self.src.len() && byte_is_word(self.src[self.index])
                    invariant
                        self.src@ == src,
                        0 <= i0 <= self.index as int <= src.len(),
                        buf@ == src.subrange(i0, self.index as int),
                        forall|k: int| i0 <= k < self.index as int ==> is_word_byte(src[k]),
                    decreases src.len() - self.index,
                {
                    let b = self.consume();
                    buf.push(b);
                    proof {
                        assert(buf@.len() == self.index as int - i0);
                        assert(buf@ =~= src.subrange(i0, self.index as int));
                    }
                }
                let ghost n = self.index as int - i0;
                proof {
                    let rest = src.skip(i0);
                    assert(forall|k: int| 0 <= k < n ==> rest[k] == src[k + i0]);
                    assert(n == rest.len() || !is_word_byte(rest[n]));
                    lemma_word_run_is(rest, n);
                    assert(buf@ =~= rest.take(n));
                }
                let word = ascii_to_string(buf);
                let ghost w = chars_of_bytes(src.skip(i0).take(n));
                let ew = "exit".to_owned();
                let lw = "let".to_owned();
                let tok = if word == ew {
                    Token::new_exit_token()
                } else if word == lw {
                    Token::new_let_token()
                } else {
                    Token::new_identifier_token(word)
                };
                assert(tok@ == word_token(w));
                proof {
                    lemma_views_of_push(tokens@, tok);
                }
                tokens.push(tok);
                proof {
                    assert(lex(src.skip(i0)) == seq![word_token(w)] + lex(
                        src.skip(i0).skip(n),
                    ));
                    assert(src.skip(i0).skip(n) =~= src.skip(self.index as int));
                    assert(views_of(tokens@) + lex(src.skip(self.index as int)) =~= lex(
                        src.skip(start0),
                    ));
                }
            } else if byte_is_digit(c) {
                let mut buf: Vec<u8> = Vec::new();
                while self.index < self.src.len() && byte_is_digit(self.src[self.index])
                    invariant
                        self.src@ == src,
                        0 <= i0 <= self.index as int <= src.len(),
                        buf@ == src.subrange(i0, self.index as int),
                        forall|k: int| i0 <= k < self.index as int ==> is_digit_byte(src[k]),
                    decreases src.len() - self.index,
                {
                    let b = self.consume();
                    buf.push(b);
                    proof {
                        assert(buf@ =~= src.subrange(i0, self.index as int));
                    }
                }
                let ghost n = self.index as int - i0;
                proof {
                    let rest = src.skip(i0);
                    assert(forall|k: int| 0 <= k < n ==> rest[k] == src[k + i0]);
                    assert(n == rest.len() || !is_digit_byte(rest[n]));
                    lemma_digit_run_is(rest, n);
                    assert(buf@ =~= rest.take(n));
                }
                let digits = ascii_to_string(buf);
                let ghost w = chars_of_bytes(src.skip(i0).take(n));
                let tok = Token::new_int_literal_token(digits);
                proof {
                    lemma_views_of_push(tokens@, tok);
                }
                tokens.push(tok);
                proof {
                    assert(lex(src.skip(i0)) == seq![
                        TokenV { kind: TokenType::IntLiteral, text: w },
                    ] + lex(src.skip(i0).skip(n)));
                    assert(src.skip(i0).skip(n) =~= src.skip(self.index as int));
                    assert(views_of(tokens@) + lex(src.skip(self.index as int)) =~= lex(
                        src.skip(start0),
                    ));
                }
            } else if c == 40 || c == 41 || c == 61 || c == 59 {
                let tok = if c == 40 {
                    Token::new_l_paren_token()
                } else if c == 41 {
                    Token::new_r_paren_token()
                } else if c == 61 {
                    Token::new_eq_token()
                } else {
                    Token::new_semi_colon_token()
                };
                assert(tok@ == punct_token(c));
                proof {
                    lemma_views_of_push(tokens@, tok);
                }
                tokens.push(tok);
                self.consume();
                proof {
                    assert(lex(src.skip(i0)) == seq![punct_token(c)] + lex(src.skip(i0).skip(1)));
                    assert(src.skip(i0).skip(1) =~= src.skip(self.index as int));
                    assert(views_of(tokens@) + lex(src.skip(self.index as int)) =~= lex(
                        src.skip(start0),
                    ));
                }
            } else {
                self.consume();
                proof {
                    assert(lex(src.skip(i0)) == lex(src.skip(i0).skip(1)));
                    assert(src.skip(i0).skip(1) =~= src.skip(self.index as int));
                }
            }
        }
        proof {
            assert(src.skip(self.index as int) =~= Seq::<u8>::empty());
            assert(lex(Seq::<u8>::empty()) =~= Seq::<TokenV>::empty());
            assert(views_of(tokens@) =~= views_of(tokens@) + lex(src.skip(self.index as int)));
        }
        tokens
    }
}

} // verus!
