use ntc::parser::{NodeExpr, NodeProg, NodeStmt, ParseError, Parser};
use ntc::tokenizer::{Token, TokenType, Tokenizer};

fn parse_src(src: &str) -> Result<NodeProg, ParseError> {
    let mut tokenizer = Tokenizer::new(src.as_bytes().to_vec());
    let tokens = tokenizer.tokenize();
    let mut parser = Parser::new(tokens);
    parser.parse()
}

fn expr_payload(e: &NodeExpr) -> Option<&str> {
    match e {
        NodeExpr::IntLiteral(t) => t.value.as_deref(),
        NodeExpr::Ident(t) => t.value.as_deref(),
        NodeExpr::BinExpr(_) => None,
    }
}

#[test]
fn empty_source_parses_to_empty_program() {
    let prog = parse_src("").unwrap();
    assert!(prog.stmts.is_empty());
}

#[test]
fn exit_statement_with_literal() {
    let prog = parse_src("exit(10);").unwrap();
    assert_eq!(prog.stmts.len(), 1);
    match &prog.stmts[0] {
        NodeStmt::Exit(exit_stmt) => {
            assert!(matches!(*exit_stmt.expr, NodeExpr::IntLiteral(_)));
            assert_eq!(expr_payload(&exit_stmt.expr), Some("10"));
        }
        other => panic!("expected an exit statement, got {:?}", other),
    }
}

#[test]
fn let_statement_with_identifier_initializer() {
    let prog = parse_src("let y = x;").unwrap();
    assert_eq!(prog.stmts.len(), 1);
    match &prog.stmts[0] {
        NodeStmt::Let(let_stmt) => {
            assert_eq!(let_stmt.ident.type_, TokenType::Ident);
            assert_eq!(let_stmt.ident.value.as_deref(), Some("y"));
            assert!(matches!(*let_stmt.expr, NodeExpr::Ident(_)));
            assert_eq!(expr_payload(&let_stmt.expr), Some("x"));
        }
        other => panic!("expected a let statement, got {:?}", other),
    }
}

#[test]
fn statements_keep_source_order() {
    let prog = parse_src("let a = 1; let b = a; exit(b);").unwrap();
    assert_eq!(prog.stmts.len(), 3);
    assert!(matches!(prog.stmts[0], NodeStmt::Let(_)));
    assert!(matches!(prog.stmts[1], NodeStmt::Let(_)));
    assert!(matches!(prog.stmts[2], NodeStmt::Exit(_)));
}

#[test]
fn missing_l_paren_after_exit() {
    assert_eq!(parse_src("exit 5;").unwrap_err(), ParseError::ExpectedLParen);
    assert_eq!(parse_src("exit").unwrap_err(), ParseError::ExpectedLParen);
}

#[test]
fn missing_expression_in_exit() {
    assert_eq!(parse_src("exit();").unwrap_err(), ParseError::CouldNotParseExpression);
    assert_eq!(parse_src("exit(").unwrap_err(), ParseError::CouldNotParseExpression);
}

#[test]
fn missing_r_paren_in_exit() {
    assert_eq!(parse_src("exit(5;").unwrap_err(), ParseError::ExpectedRParen);
    assert_eq!(parse_src("exit(5").unwrap_err(), ParseError::ExpectedRParen);
}

#[test]
fn missing_semi_colon_after_exit() {
    assert_eq!(parse_src("exit(5)").unwrap_err(), ParseError::ExpectedSemiColon);
}

#[test]
fn missing_identifier_after_let() {
    assert_eq!(parse_src("let 5 = 5;").unwrap_err(), ParseError::ExpectedIdentifier);
    assert_eq!(parse_src("let").unwrap_err(), ParseError::ExpectedIdentifier);
}

#[test]
fn missing_equals_in_let() {
    assert_eq!(parse_src("let x 5;").unwrap_err(), ParseError::ExpectedEquals);
}

#[test]
fn missing_expression_in_let() {
    assert_eq!(parse_src("let x = ;").unwrap_err(), ParseError::ExpectedExpression);
    assert_eq!(parse_src("let x = let y;").unwrap_err(), ParseError::ExpectedExpression);
}

#[test]
fn missing_semi_colon_after_let() {
    assert_eq!(parse_src("let x = 5").unwrap_err(), ParseError::ExpectedSemiColon);
}

#[test]
fn statement_must_start_with_a_keyword() {
    assert_eq!(parse_src(");").unwrap_err(), ParseError::CouldNotParseStatement);
    assert_eq!(parse_src("x = 5;").unwrap_err(), ParseError::CouldNotParseStatement);
}

#[test]
fn parse_error_messages() {
    assert_eq!(ParseError::ExpectedLParen.message(), "ERROR: `(` expected");
    assert_eq!(ParseError::ExpectedRParen.message(), "ERROR: `)` expected");
    assert_eq!(ParseError::ExpectedSemiColon.message(), "ERROR: `;` expected");
    assert_eq!(ParseError::ExpectedEquals.message(), "ERROR: `=` expected");
    assert_eq!(ParseError::ExpectedIdentifier.message(), "ERROR: `identifier` expected");
    assert_eq!(ParseError::ExpectedExpression.message(), "ERROR: `expression` expected");
    assert_eq!(
        ParseError::CouldNotParseExpression.message(),
        "ERROR: could not parse expression"
    );
    assert_eq!(
        ParseError::CouldNotParseStatement.message(),
        "ERROR: could not parse statement"
    );
}

#[test]
fn parse_expr_consumes_one_expression_token() {
    let mut parser = Parser::new(vec![Token::new_int_literal_token("3".to_owned())]);
    let expr = parser.parse_expr().unwrap();
    assert!(matches!(expr, NodeExpr::IntLiteral(_)));
    assert_eq!(expr_payload(&expr), Some("3"));

    let mut parser = Parser::new(vec![Token::new_identifier_token("v".to_owned())]);
    let expr = parser.parse_expr().unwrap();
    assert!(matches!(expr, NodeExpr::Ident(_)));

    let mut parser = Parser::new(vec![Token::new_l_paren_token()]);
    assert!(parser.parse_expr().is_none());

    let mut parser = Parser::new(vec![]);
    assert!(parser.parse_expr().is_none());
}
