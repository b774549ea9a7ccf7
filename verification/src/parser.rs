//! Recursive-descent parsing: turns the token sequence into a program AST.
//!
//! The grammar has two statement forms, each exactly five tokens long:
//! `exit` `(` expression `)` `;` and `let` identifier `=` expression `;`,
//! where an expression is a single integer-literal or identifier token.
//! The spec functions [`parse_stmt_v`] and [`parse_v`] state exactly which
//! statement (or which diagnostic) a token sequence yields;
//! [`Parser::parse`] is proved to produce it.

use vstd::prelude::*;

use crate::arena::ArenaAllocator;
use crate::tokenizer::{Token, TokenType, TokenV};

verus! {

/// Mathematical model of an expression.
pub ghost enum ExprV {
    IntLiteral { digits: Seq<char> },
    Ident { name: Seq<char> },
    Add { lhs: Box<ExprV>, rhs: Box<ExprV> },
    Mul { lhs: Box<ExprV>, rhs: Box<ExprV> },
}

/// Mathematical model of a statement.
pub ghost enum StmtV {
    Exit { expr: ExprV },
    Let { name: Seq<char>, expr: ExprV },
}

/// An expression node: a single-token atom, or a binary node. The grammar
/// never produces a binary node; the shape exists in the AST only.
#[derive(Debug)]
pub enum NodeExpr {
    IntLiteral(Token),
    Ident(Token),
    BinExpr(Box<NodeBinExpr>),
}

/// An addition node owning its operand sub-trees.
#[derive(Debug)]
pub struct NodeBinExprAdd {
    pub lhs: Box<NodeExpr>,
    pub rhs: Box<NodeExpr>,
}

/// A multiplication node owning its operand sub-trees.
#[derive(Debug)]
pub struct NodeBinExprMul {
    pub lhs: Box<NodeExpr>,
    pub rhs: Box<NodeExpr>,
}

/// A binary expression node: addition or multiplication.
#[derive(Debug)]
pub enum NodeBinExpr {
    Add(Box<NodeBinExprAdd>),
    Mul(Box<NodeBinExprMul>),
}

/// An `exit(expr);` statement node.
#[derive(Debug)]
pub struct NodeStmtExit {
    pub expr: Box<NodeExpr>,
}

/// A `let name = expr;` statement node.
#[derive(Debug)]
pub struct NodeStmtLet {
    pub ident: Token,
    pub expr: Box<NodeExpr>,
}

/// A statement node.
#[derive(Debug)]
pub enum NodeStmt {
    Exit(Box<NodeStmtExit>),
    Let(Box<NodeStmtLet>),
}

/// A program: its statements in source order.
#[derive(Debug)]
pub struct NodeProg {
    pub stmts: Vec<NodeStmt>,
}

/// The model of an expression node.
pub open spec fn expr_view(e: NodeExpr) -> ExprV
    decreases e,
{
    match e {
        NodeExpr::IntLiteral(t) => ExprV::IntLiteral { digits: t@.text },
        NodeExpr::Ident(t) => ExprV::Ident { name: t@.text },
        NodeExpr::BinExpr(b) => match *b {
            NodeBinExpr::Add(a) => ExprV::Add {
                lhs: Box::new(expr_view(*a.lhs)),
                rhs: Box::new(expr_view(*a.rhs)),
            },
            NodeBinExpr::Mul(m) => ExprV::Mul {
                lhs: Box::new(expr_view(*m.lhs)),
                rhs: Box::new(expr_view(*m.rhs)),
            },
        },
    }
}

/// The model of a statement node.
pub open spec fn stmt_view(s: NodeStmt) -> StmtV {
    match s {
        NodeStmt::Exit(e) => StmtV::Exit { expr: expr_view(*e.expr) },
        NodeStmt::Let(l) => StmtV::Let { name: l.ident@.text, expr: expr_view(*l.expr) },
    }
}

/// The models of a statement sequence, element by element.
pub open spec fn stmt_views(ss: Seq<NodeStmt>) -> Seq<StmtV> {
    ss.map_values(|s: NodeStmt| stmt_view(s))
}

impl View for NodeExpr {
    type V = ExprV;

    open spec fn view(&self) -> ExprV {
        expr_view(*self)
    }
}

impl View for NodeStmt {
    type V = StmtV;

    open spec fn view(&self) -> StmtV {
        stmt_view(*self)
    }
}

impl View for NodeProg {
    type V = Seq<StmtV>;

    open spec fn view(&self) -> Seq<StmtV> {
        stmt_views(self.stmts@)
    }
}

impl Clone for NodeExpr {
    fn clone(&self) -> (res: Self)
        ensures
            res@ == self@,
        decreases *self,
    {
        match self {
            NodeExpr::IntLiteral(t) => NodeExpr::IntLiteral(t.clone()),
            NodeExpr::Ident(t) => NodeExpr::Ident(t.clone()),
            NodeExpr::BinExpr(b) => NodeExpr::BinExpr(Box::new((**b).clone())),
        }
    }
}

impl Clone for NodeBinExpr {
    fn clone(&self) -> (res: Self)
        ensures
            expr_view(NodeExpr::BinExpr(Box::new(res))) == expr_view(
                NodeExpr::BinExpr(Box::new(*self)),
            ),
        decreases *self,
    {
        match self {
            NodeBinExpr::Add(a) => NodeBinExpr::Add(
                Box::new(
                    NodeBinExprAdd { lhs: Box::new((*a.lhs).clone()), rhs: Box::new((*a.rhs).clone()) },
                ),
            ),
            NodeBinExpr::Mul(m) => NodeBinExpr::Mul(
                Box::new(
                    NodeBinExprMul { lhs: Box::new((*m.lhs).clone()), rhs: Box::new((*m.rhs).clone()) },
                ),
            ),
        }
    }
}

impl Clone for NodeStmtExit {
    fn clone(&self) -> (res: Self)
        ensures
            stmt_view(NodeStmt::Exit(Box::new(res))) == stmt_view(NodeStmt::Exit(Box::new(*self))),
    {
        NodeStmtExit { expr: Box::new((*self.expr).clone()) }
    }
}

impl Clone for NodeStmtLet {
    fn clone(&self) -> (res: Self)
        ensures
            stmt_view(NodeStmt::Let(Box::new(res))) == stmt_view(NodeStmt::Let(Box::new(*self))),
    {
        NodeStmtLet { ident: self.ident.clone(), expr: Box::new((*self.expr).clone()) }
    }
}

impl Clone for NodeStmt {
    fn clone(&self) -> (res: Self)
        ensures
            res@ == self@,
    {
        match self {
            NodeStmt::Exit(e) => NodeStmt::Exit(Box::new((**e).clone())),
            NodeStmt::Let(l) => NodeStmt::Let(Box::new((**l).clone())),
        }
    }
}

/// A syntax diagnostic: the token (or construct) that was expected but not
/// found. Every grammar violation is terminal for the whole compilation.
#[derive(Clone, Copy, PartialEq, Eq, Structural, Debug)]
pub enum ParseError {
    ExpectedLParen,
    ExpectedRParen,
    ExpectedSemiColon,
    ExpectedEquals,
    ExpectedIdentifier,
    ExpectedExpression,
    CouldNotParseExpression,
    CouldNotParseStatement,
}

impl ParseError {
    /// The diagnostic text for this error.
    pub open spec fn message_view(&self) -> Seq<char> {
        match self {
            ParseError::ExpectedLParen => "ERROR: `(` expected"@,
            ParseError::ExpectedRParen => "ERROR: `)` expected"@,
            ParseError::ExpectedSemiColon => "ERROR: `;` expected"@,
            ParseError::ExpectedEquals => "ERROR: `=` expected"@,
            ParseError::ExpectedIdentifier => "ERROR: `identifier` expected"@,
            ParseError::ExpectedExpression => "ERROR: `expression` expected"@,
            ParseError::CouldNotParseExpression => "ERROR: could not parse expression"@,
            ParseError::CouldNotParseStatement => "ERROR: could not parse statement"@,
        }
    }

    /// Renders the diagnostic.
    pub fn message(&self) -> (m: String)
        ensures
            m@ == self.message_view(),
    {
        match self {
            ParseError::ExpectedLParen => "ERROR: `(` expected".to_owned(),
            ParseError::ExpectedRParen => "ERROR: `)` expected".to_owned(),
            ParseError::ExpectedSemiColon => "ERROR: `;` expected".to_owned(),
            ParseError::ExpectedEquals => "ERROR: `=` expected".to_owned(),
            ParseError::ExpectedIdentifier => "ERROR: `identifier` expected".to_owned(),
            ParseError::ExpectedExpression => "ERROR: `expression` expected".to_owned(),
            ParseError::CouldNotParseExpression => "ERROR: could not parse expression".to_owned(),
            ParseError::CouldNotParseStatement => "ERROR: could not parse statement".to_owned(),
        }
    }
}

/// A token that forms an expression by itself.
pub open spec fn is_expr_token(t: TokenV) -> bool {
    t.kind == TokenType::IntLiteral || t.kind == TokenType::Ident
}

/// The expression a single token parses to.
pub open spec fn token_expr(t: TokenV) -> ExprV
    recommends
        is_expr_token(t),
{
    if t.kind == TokenType::IntLiteral {
        ExprV::IntLiteral { digits: t.text }
    } else {
        ExprV::Ident { name: t.text }
    }
}

/// What parsing one expression from the front of `toks` yields: the
/// expression of a leading integer-literal or identifier token, nothing
/// otherwise.
pub open spec fn parse_expr_v(toks: Seq<TokenV>) -> Option<ExprV> {
    if toks.len() > 0 && is_expr_token(toks[0]) {
        Some(token_expr(toks[0]))
    } else {
        None
    }
}

/// What parsing one statement from the front of `toks` yields: the
/// statement of a well-formed five-token prefix, or the diagnostic for the
/// first grammar position that is violated, in the order the tokens are
/// examined.
pub open spec fn parse_stmt_v(toks: Seq<TokenV>) -> Result<StmtV, ParseError> {
    if toks.len() == 0 {
        Err(ParseError::CouldNotParseStatement)
    } else if toks[0].kind == TokenType::Exit {
        if !(toks.len() >= 2 && toks[1].kind == TokenType::LParen) {
            Err(ParseError::ExpectedLParen)
        } else if !(toks.len() >= 3 && is_expr_token(toks[2])) {
            Err(ParseError::CouldNotParseExpression)
        } else if !(toks.len() >= 4 && toks[3].kind == TokenType::RParen) {
            Err(ParseError::ExpectedRParen)
        } else if !(toks.len() >= 5 && toks[4].kind == TokenType::SemiColon) {
            Err(ParseError::ExpectedSemiColon)
        } else {
            Ok(StmtV::Exit { expr: token_expr(toks[2]) })
        }
    } else if toks[0].kind == TokenType::Let {
        if !(toks.len() >= 2 && toks[1].kind == TokenType::Ident) {
            Err(ParseError::ExpectedIdentifier)
        } else if !(toks.len() >= 3 && toks[2].kind == TokenType::Eq) {
            Err(ParseError::ExpectedEquals)
        } else if !(toks.len() >= 4 && is_expr_token(toks[3])) {
            Err(ParseError::ExpectedExpression)
        } else if !(toks.len() >= 5 && toks[4].kind == TokenType::SemiColon) {
            Err(ParseError::ExpectedSemiColon)
        } else {
            Ok(StmtV::Let { name: toks[1].text, expr: token_expr(toks[3]) })
        }
    } else {
        Err(ParseError::CouldNotParseStatement)
    }
}

/// What parsing a whole token sequence yields: the statements of the
/// successive five-token groups, or the first statement's diagnostic.
pub open spec fn parse_v(toks: Seq<TokenV>) -> Result<Seq<StmtV>, ParseError>
    decreases toks.len(),
{
    if toks.len() == 0 {
        Ok(Seq::empty())
    } else {
        match parse_stmt_v(toks) {
            Err(e) => Err(e),
            Ok(s) => match parse_v(toks.skip(5)) {
                Err(e) => Err(e),
                Ok(rest) => Ok(seq![s] + rest),
            },
        }
    }
}

proof fn lemma_stmt_views_push(ss: Seq<NodeStmt>, s: NodeStmt)
    ensures
        stmt_views(ss.push(s)) == stmt_views(ss).push(stmt_view(s)),
{
    assert(stmt_views(ss.push(s)) =~= stmt_views(ss).push(stmt_view(s)));
}

/// The byte budget the parser's arena reserves up front.
pub const FOUR_MB: usize = 4 * 1024 * 1024;

/// Consumes the token sequence with one token of lookahead and no
/// backtracking, producing the program AST or the first diagnostic.
pub struct Parser {
    tokens: Vec<Token>,
    index: usize,
    allocator: ArenaAllocator,
}

impl Parser {
    /// The models of the tokens being parsed.
    pub closed spec fn toks(&self) -> Seq<TokenV> {
        crate::tokenizer::views_of(self.tokens@)
    }

    /// The cursor: how many tokens have been consumed.
    pub closed spec fn pos(&self) -> nat {
        self.index as nat
    }

    /// The cursor never runs past the end of the token sequence.
    pub closed spec fn wf(&self) -> bool {
        self.index <= self.tokens@.len()
    }

    pub fn new(tokens: Vec<Token>) -> (p: Self)
        ensures
            p.wf(),
            p.toks() == crate::tokenizer::views_of(tokens@),
            p.pos() == 0,
    {
        Self { tokens, index: 0, allocator: ArenaAllocator::new(FOUR_MB) }
    }

    fn peek(&self) -> (r: Option<Token>)
        ensures
            match r {
                Some(t) => self.pos() < self.toks().len() && t@ == self.toks()[self.pos() as int],
                None => self.pos() >= self.toks().len(),
            },
    {
        if self.index >= self.tokens.len() {
            return None;
        }
        Some(self.tokens[self.index].clone())
    }

    fn peek_is(&self, tt: TokenType) -> (r: bool)
        ensures
            r == (self.pos() < self.toks().len() && self.toks()[self.pos() as int].kind == tt),
    {
        match self.peek() {
            Some(t) => t.type_ == tt,
            None => false,
        }
    }

    fn consume(&mut self) -> (t: Token)
        requires
            old(self).pos() < old(self).toks().len(),
        ensures
            final(self).toks() == old(self).toks(),
            final(self).pos() == old(self).pos() + 1,
            final(self).wf(),
            t@ == old(self).toks()[old(self).pos() as int],
    {
        let t = self.tokens[self.index].clone();
        assert(self.index < self.tokens.len());
        self.index = self.index + 1;
        t
    }

    /// Parses one expression at the cursor: a single integer-literal or
    /// identifier token wraps into the matching expression node and the
    /// cursor advances by one; any other token yields nothing and the
    /// cursor stays.
    pub fn parse_expr(&mut self) -> (r: Option<NodeExpr>)
        requires
            old(self).wf(),
        ensures
            final(self).wf(),
            final(self).toks() == old(self).toks(),
            match parse_expr_v(old(self).toks().skip(old(self).pos() as int)) {
                Some(ev) => {
                    &&& r matches Some(node)
                    &&& node@ == ev
                    &&& final(self).pos() == old(self).pos() + 1
                },
                None => r is None && final(self).pos() == old(self).pos(),
            },
    {
        match self.peek() {
            Some(t) => {
                if t.type_ == TokenType::IntLiteral {
                    let tok = self.consume();
                    Some(NodeExpr::IntLiteral(tok))
                } else if t.type_ == TokenType::Ident {
                    let tok = self.consume();
                    Some(NodeExpr::Ident(tok))
                } else {
                    None
                }
            },
            None => None,
        }
    }

    /// Parses one statement at the cursor. On success the statement is
    /// exactly what [`parse_stmt_v`] says of the remaining tokens and the
    /// cursor moves past its five tokens; on failure the diagnostic is
    /// exactly what [`parse_stmt_v`] says.
    pub fn parse_stmt(&mut self) -> (r: Result<NodeStmt, ParseError>)
        requires
            old(self).wf(),
        ensures
            final(self).wf(),
            final(self).toks() == old(self).toks(),
            final(self).pos() >= old(self).pos(),
            match r {
                Ok(stmt) => parse_stmt_v(old(self).toks().skip(old(self).pos() as int)) == Ok::<
                    StmtV,
                    ParseError,
                >(stmt@) && final(self).pos() == old(self).pos() + 5,
                Err(e) => parse_stmt_v(old(self).toks().skip(old(self).pos() as int)) == Err::<
                    StmtV,
                    ParseError,
                >(e),
            },
    {
        let ghost rem = old(self).toks().skip(old(self).pos() as int);
        let first = match self.peek() {
            Some(t) => t,
            None => {
                return Err(ParseError::CouldNotParseStatement);
            },
        };
        assert(first@ == rem[0]);
        if first.type_ == TokenType::Exit {
            self.consume();
            if self.peek_is(TokenType::LParen) {
                self.consume();
            } else {
                return Err(ParseError::ExpectedLParen);
            }
            proof {
                assert(old(self).toks().skip(old(self).pos() as int + 2) =~= rem.skip(2));
            }
            let expr = match self.parse_expr() {
                Some(e) => e,
                None => {
                    return Err(ParseError::CouldNotParseExpression);
                },
            };
            if self.peek_is(TokenType::RParen) {
                self.consume();
            } else {
                return Err(ParseError::ExpectedRParen);
            }
            if self.peek_is(TokenType::SemiColon) {
                self.consume();
            } else {
                return Err(ParseError::ExpectedSemiColon);
            }
            let exit_stmt = Box::new(NodeStmtExit { expr: Box::new(expr) });
            Ok(NodeStmt::Exit(exit_stmt))
        } else if first.type_ == TokenType::Let {
            self.consume();
            let ident = if self.peek_is(TokenType::Ident) {
                let consumed = self.consume();
                Token { type_: TokenType::Ident, value: consumed.value }
            } else {
                return Err(ParseError::ExpectedIdentifier);
            };
            assert(ident@ == rem[1]);
            if self.peek_is(TokenType::Eq) {
                self.consume();
            } else {
                return Err(ParseError::ExpectedEquals);
            }
            proof {
                assert(old(self).toks().skip(old(self).pos() as int + 3) =~= rem.skip(3));
            }
            let expr = match self.parse_expr() {
                Some(e) => e,
                None => {
                    return Err(ParseError::ExpectedExpression);
                },
            };
            if self.peek_is(TokenType::SemiColon) {
                self.consume();
            } else {
                return Err(ParseError::ExpectedSemiColon);
            }
            let let_stmt = Box::new(NodeStmtLet { ident, expr: Box::new(expr) });
            Ok(NodeStmt::Let(let_stmt))
        } else {
            Err(ParseError::CouldNotParseStatement)
        }
    }

    /// Parses the whole token sequence into a program. On success the
    /// statement sequence is exactly what [`parse_v`] says of the tokens at
    /// the cursor; on failure the diagnostic is exactly what [`parse_v`]
    /// says, and it is terminal: no partial program is returned.
    pub fn parse(&mut self) -> (r: Result<NodeProg, ParseError>)
        requires
            old(self).wf(),
        ensures
            final(self).wf(),
            final(self).toks() == old(self).toks(),
            match r {
                Ok(prog) => parse_v(old(self).toks().skip(old(self).pos() as int)) == Ok::<
                    Seq<StmtV>,
                    ParseError,
                >(prog@),
                Err(e) => parse_v(old(self).toks().skip(old(self).pos() as int)) == Err::<
                    Seq<StmtV>,
                    ParseError,
                >(e),
            },
    {
        let ghost toks0 = old(self).toks();
        let ghost pos0 = old(self).pos() as int;
        let mut stmts: Vec<NodeStmt> = Vec::new();

        while self.index < self.tokens.len()
            invariant
                self.wf(),
                toks0 == old(self).toks(),
                pos0 == old(self).pos() as int,
                self.toks() == toks0,
                0 <= pos0 <= self.pos(),
                self.toks().len() == self.tokens@.len(),
                match parse_v(toks0.skip(self.pos() as int)) {
                    Ok(rest) => parse_v(toks0.skip(pos0)) == Ok::<Seq<StmtV>, ParseError>(
                        stmt_views(stmts@) + rest,
                    ),
                    Err(e) => parse_v(toks0.skip(pos0)) == Err::<Seq<StmtV>, ParseError>(e),
                },
            decreases self.tokens@.len() - self.pos(),
        {
            let ghost pos_here = self.pos() as int;
            let stmt = match self.parse_stmt() {
                Ok(s) => s,
                Err(e) => {
                    proof {
                        assert(toks0.skip(pos_here).len() > 0);
                    }
                    return Err(e);
                },
            };
            proof {
                lemma_stmt_views_push(stmts@, stmt);
                assert(toks0.skip(pos_here).len() > 0);
                assert(toks0.skip(pos_here).skip(5) =~= toks0.skip(pos_here + 5));
                match parse_v(toks0.skip(self.pos() as int)) {
                    Ok(rest) => {
                        assert(stmt_views(stmts@.push(stmt)) + rest =~= stmt_views(stmts@) + (seq![
                            stmt_view(stmt),
                        ] + rest));
                    },
                    Err(_) => {},
                }
            }
            stmts.push(stmt);
        }
        proof {
            assert(toks0.skip(self.pos() as int) =~= Seq::<TokenV>::empty());
            assert(stmt_views(stmts@) + Seq::<StmtV>::empty() =~= stmt_views(stmts@));
        }
        Ok(NodeProg { stmts })
    }
}

} // verus!
