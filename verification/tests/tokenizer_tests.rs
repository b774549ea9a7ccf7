use ntc::tokenizer::{Token, TokenType, Tokenizer};

fn lex(src: &str) -> Vec<Token> {
    let mut tokenizer = Tokenizer::new(src.as_bytes().to_vec());
    tokenizer.tokenize()
}

fn kinds(tokens: &[Token]) -> Vec<TokenType> {
    tokens.iter().map(|t| t.type_).collect()
}

#[test]
fn whitespace_and_junk_yield_no_tokens() {
    assert!(lex("").is_empty());
    assert!(lex("   \n\t\r  ").is_empty());
    assert!(lex("!@#$%^&*{}[]<>?,.~|/+-_").is_empty());
}

#[test]
fn keywords_are_recognized() {
    let toks = lex("exit let");
    assert_eq!(kinds(&toks), vec![TokenType::Exit, TokenType::Let]);
    assert!(toks[0].value.is_none());
    assert!(toks[1].value.is_none());
}

#[test]
fn identifiers_carry_their_spelling() {
    let toks = lex("foo Bar exits lets");
    assert_eq!(
        kinds(&toks),
        vec![TokenType::Ident, TokenType::Ident, TokenType::Ident, TokenType::Ident]
    );
    assert_eq!(toks[0].value.as_deref(), Some("foo"));
    assert_eq!(toks[1].value.as_deref(), Some("Bar"));
    assert_eq!(toks[2].value.as_deref(), Some("exits"));
    assert_eq!(toks[3].value.as_deref(), Some("lets"));
}

#[test]
fn int_literals_carry_their_digits() {
    let toks = lex("0 5 10 00042");
    assert_eq!(
        kinds(&toks),
        vec![
            TokenType::IntLiteral,
            TokenType::IntLiteral,
            TokenType::IntLiteral,
            TokenType::IntLiteral
        ]
    );
    assert_eq!(toks[0].value.as_deref(), Some("0"));
    assert_eq!(toks[1].value.as_deref(), Some("5"));
    assert_eq!(toks[2].value.as_deref(), Some("10"));
    assert_eq!(toks[3].value.as_deref(), Some("00042"));
}

#[test]
fn punctuation_tokens() {
    let toks = lex("();=");
    assert_eq!(
        kinds(&toks),
        vec![TokenType::LParen, TokenType::RParen, TokenType::SemiColon, TokenType::Eq]
    );
    assert!(toks.iter().all(|t| t.value.is_none()));
}

#[test]
fn runs_are_read_greedily() {
    let toks = lex("12ab(");
    assert_eq!(kinds(&toks), vec![TokenType::IntLiteral, TokenType::Ident, TokenType::LParen]);
    assert_eq!(toks[0].value.as_deref(), Some("12"));
    assert_eq!(toks[1].value.as_deref(), Some("ab"));
}

#[test]
fn keyword_must_be_the_whole_run() {
    let toks = lex("exitx");
    assert_eq!(kinds(&toks), vec![TokenType::Ident]);
    assert_eq!(toks[0].value.as_deref(), Some("exitx"));
}

#[test]
fn full_statement_token_sequence() {
    let toks = lex("let x = 5; exit(x);");
    assert_eq!(
        kinds(&toks),
        vec![
            TokenType::Let,
            TokenType::Ident,
            TokenType::Eq,
            TokenType::IntLiteral,
            TokenType::SemiColon,
            TokenType::Exit,
            TokenType::LParen,
            TokenType::Ident,
            TokenType::RParen,
            TokenType::SemiColon
        ]
    );
}

#[test]
fn unrecognized_bytes_between_tokens_are_dropped() {
    let toks = lex("let.x=%5;");
    assert_eq!(
        kinds(&toks),
        vec![
            TokenType::Let,
            TokenType::Ident,
            TokenType::Eq,
            TokenType::IntLiteral,
            TokenType::SemiColon
        ]
    );
}

#[test]
fn token_constructors_set_kind_and_payload() {
    let t = Token::new_int_literal_token("7".to_owned());
    assert_eq!(t.type_, TokenType::IntLiteral);
    assert_eq!(t.value.as_deref(), Some("7"));

    let t = Token::new_identifier_token("abc".to_owned());
    assert_eq!(t.type_, TokenType::Ident);
    assert_eq!(t.value.as_deref(), Some("abc"));

    assert_eq!(Token::new_exit_token().type_, TokenType::Exit);
    assert_eq!(Token::new_let_token().type_, TokenType::Let);
    assert_eq!(Token::new_l_paren_token().type_, TokenType::LParen);
    assert_eq!(Token::new_r_paren_token().type_, TokenType::RParen);
    assert_eq!(Token::new_eq_token().type_, TokenType::Eq);
    assert_eq!(Token::new_semi_colon_token().type_, TokenType::SemiColon);
    assert!(Token::new_exit_token().value.is_none());

    let t = Token::new(TokenType::Ident, Some("n".to_owned()));
    assert_eq!(t.type_, TokenType::Ident);
    assert_eq!(t.value.as_deref(), Some("n"));
}
