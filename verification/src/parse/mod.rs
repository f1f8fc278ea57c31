//! The parser: from tokens to a program.
//!
//! The parser is a recursive descent over the tokens with one token of
//! lookahead. It stops at the first syntax error. String literals are
//! interned as they are read: the program holds their keys, and the arena
//! holds their texts.

use vstd::prelude::*;
use lasso::Rodeo;
use self::expr::{grown, Expr, ExprView};
use self::grammar::{ParseErrorView, Parsed};
use self::stmt::{lemma_views_stable, views_in, Stmt, StmtView};
use self::token::{BinaryOp, UnaryOp};
use crate::interp::intern::{interned, try_intern};
use crate::interp::value::Value;
use crate::lex::token::tokens::{Keyword, Literal, LiteralView, Operator, Punctuation};
use crate::lex::token::{Token, TokenValue, TokenValueView, TokenView};
use crate::lex::token_views;
use crate::util::Location;

pub mod expr;
pub mod grammar;
pub mod stmt;
pub mod token;

verus! {

/// A program: its statements in the order in which they are executed.
#[derive(Debug, PartialEq)]
pub struct Program {
    pub statements: Vec<Stmt>,
}

/// Why tokens are no program.
#[derive(Debug, Clone, PartialEq)]
pub enum ParseError {
    /// The token at `loc` is not what the grammar asks for there.
    SyntaxError { loc: Location, message: String },
    /// The tokens end without an end-of-file token. Tokens that a scan
    /// returned never give this error.
    EndOfFile,
}

impl View for ParseError {
    type V = ParseErrorView;

    open spec fn view(&self) -> ParseErrorView {
        match self {
            ParseError::SyntaxError { loc, message } => ParseErrorView::SyntaxError {
                loc: *loc,
                message: message@,
            },
            ParseError::EndOfFile => ParseErrorView::EndOfFile,
        }
    }
}

impl ParseErrorView {
    /// Where the error arose, for an error that arose at a token.
    pub open spec fn loc(self) -> Option<Location> {
        match self {
            ParseErrorView::SyntaxError { loc, .. } => Some(loc),
            ParseErrorView::EndOfFile => None,
        }
    }
}

impl ParseError {
    /// Where the error arose, for an error that arose at a token.
    pub fn loc(&self) -> (loc: Option<Location>)
        ensures
            loc == self@.loc(),
    {
        match self {
            ParseError::SyntaxError { loc, .. } => Some(*loc),
            ParseError::EndOfFile => None,
        }
    }
}

/// Whether `error` says that the arena refused a string literal of
/// `tokens`: a syntax error at the literal. The arena may refuse when it
/// has run out of keys or of memory.
pub open spec fn refused(error: ParseErrorView, tokens: Seq<TokenView>) -> bool {
    exists|k: int|
        0 <= k < tokens.len() && (#[trigger] tokens[k]).value is Literal
            && tokens[k].value->Literal_0 is String && error == (ParseErrorView::SyntaxError {
            loc: tokens[k].loc,
            message: "Unable to intern string literal."@,
        })
}

/// Whether the parser's `result` is what the grammar reads: the same
/// expression, as its syntax under the arena's texts `strings`, up to the
/// same position, or the same error. Where the arena refused a string
/// literal the result is that refusal instead.
pub open spec fn reads_expr(
    result: Result<(Expr, usize), ParseError>,
    expected: Parsed<ExprView>,
    tokens: Seq<TokenView>,
    strings: Seq<Seq<char>>,
) -> bool {
    match result {
        Ok((expr, next)) => expr.view_in(strings) is Some && expected == Ok::<
            (ExprView, int),
            ParseErrorView,
        >((expr.view_in(strings).unwrap(), next as int)),
        Err(error) => refused(error@, tokens) || expected == Err::<(ExprView, int), ParseErrorView>(
            error@,
        ),
    }
}

/// As `reads_expr`, for a statement.
pub open spec fn reads_stmt(
    result: Result<(Stmt, usize), ParseError>,
    expected: Parsed<StmtView>,
    tokens: Seq<TokenView>,
    strings: Seq<Seq<char>>,
) -> bool {
    match result {
        Ok((stmt, next)) => stmt.view_in(strings) is Some && expected == Ok::<
            (StmtView, int),
            ParseErrorView,
        >((stmt.view_in(strings).unwrap(), next as int)),
        Err(error) => refused(error@, tokens) || expected == Err::<(StmtView, int), ParseErrorView>(
            error@,
        ),
    }
}

/// As `reads_expr`, for the statements of a block.
pub open spec fn reads_block(
    result: Result<(Vec<Stmt>, usize), ParseError>,
    expected: Parsed<Seq<StmtView>>,
    tokens: Seq<TokenView>,
    strings: Seq<Seq<char>>,
) -> bool {
    match result {
        Ok((statements, next)) => views_in(statements@, strings) is Some && expected == Ok::<
            (Seq<StmtView>, int),
            ParseErrorView,
        >((views_in(statements@, strings).unwrap(), next as int)),
        Err(error) => refused(error@, tokens) || expected == Err::<
            (Seq<StmtView>, int),
            ParseErrorView,
        >(error@),
    }
}

/// As `reads_expr`, for a program.
pub open spec fn reads_program(
    result: Result<Program, ParseError>,
    expected: Result<Seq<StmtView>, ParseErrorView>,
    tokens: Seq<TokenView>,
    strings: Seq<Seq<char>>,
) -> bool {
    match result {
        Ok(program) => views_in(program.statements@, strings) is Some && expected == Ok::<
            Seq<StmtView>,
            ParseErrorView,
        >(views_in(program.statements@, strings).unwrap()),
        Err(error) => refused(error@, tokens) || expected == Err::<Seq<StmtView>, ParseErrorView>(
            error@,
        ),
    }
}

/// An arena that has grown twice has grown.
pub proof fn lemma_grown_twice(a: Seq<Seq<char>>, b: Seq<Seq<char>>, c: Seq<Seq<char>>)
    requires
        grown(a, b),
        grown(b, c),
    ensures
        grown(a, c),
{
    assert(c.take(a.len() as int) =~= b.take(a.len() as int)) by {
        assert forall|i: int| 0 <= i < a.len() implies c.take(a.len() as int)[i] == b.take(
            a.len() as int,
        )[i] by {
            assert(c.take(b.len() as int)[i] == b[i]);
        }
    }
}

/// The syntax of statements with one more statement.
proof fn lemma_views_pushed(statements: Seq<Stmt>, stmt: Stmt, strings: Seq<Seq<char>>)
    requires
        views_in(statements, strings) is Some,
        stmt.view_in(strings) is Some,
    ensures
        views_in(statements.push(stmt), strings) == Some(
            views_in(statements, strings).unwrap().push(stmt.view_in(strings).unwrap()),
        ),
{
    assert(statements.push(stmt).drop_last() =~= statements);
}

/// A parser over the tokens of one source.
pub struct Parser<'a> {
    tokens: &'a Vec<Token>,
}

impl<'a> View for Parser<'a> {
    type V = Seq<TokenView>;

    closed spec fn view(&self) -> Seq<TokenView> {
        token_views(self.tokens@)
    }
}

/// Computes `grammar::level_of`.
fn level_of(op: BinaryOp) -> (level: usize)
    ensures
        level == grammar::level_of(op),
{
    match op {
        BinaryOp::Equal | BinaryOp::NotEqual => 0,
        BinaryOp::Greater | BinaryOp::GreaterEqual | BinaryOp::Less | BinaryOp::LessEqual => 1,
        BinaryOp::Add | BinaryOp::Sub => 2,
        BinaryOp::Mul | BinaryOp::Div => 3,
    }
}

/// A syntax error with `message` at `loc`.
fn syntax_error(loc: Location, message: &str) -> (error: ParseError)
    ensures
        error@ == (ParseErrorView::SyntaxError { loc, message: message@ }),
{
    ParseError::SyntaxError { loc, message: String::from_str(message) }
}

impl<'a> Parser<'a> {
    /// A parser over `tokens`.
    pub fn new(tokens: &'a Vec<Token>) -> (parser: Self)
        ensures
            parser@ == token_views(tokens@),
    {
        Parser { tokens }
    }

    /// Computes `grammar::peek`.
    fn peek(&self, pos: usize) -> (result: Result<&'a Token, ParseError>)
        ensures
            match result {
                Ok(token) => pos < self.tokens@.len() && pos < usize::MAX && *token
                    == self.tokens@[pos as int]
                    && grammar::peek(self@, pos as int) == Some(token@),
                Err(e) => e == ParseError::EndOfFile && grammar::peek(self@, pos as int) is None,
            },
    {
        if pos < self.tokens.len() {
            Ok(&self.tokens[pos])
        } else {
            Err(ParseError::EndOfFile)
        }
    }

    /// Computes `grammar::expect` for a punctuation mark.
    fn expect(&self, pos: usize, mark: Punctuation, message: &str) -> (result: Result<
        usize,
        ParseError,
    >)
        ensures
            match result {
                Ok(after) => pos < self.tokens@.len() && after == pos + 1 && grammar::expect(
                    self@,
                    pos as int,
                    TokenValueView::Punctuation(mark),
                    message@,
                ) == Ok::<int, ParseErrorView>(after as int),
                Err(e) => grammar::expect(
                    self@,
                    pos as int,
                    TokenValueView::Punctuation(mark),
                    message@,
                ) == Err::<int, ParseErrorView>(e@),
            },
    {
        let token = self.peek(pos)?;
        match &token.value {
            TokenValue::Punctuation(found) => {
                if *found == mark {
                    return Ok(pos + 1);
                }
            },
            _ => {},
        }
        Err(syntax_error(token.loc, message))
    }

    /// Computes `grammar::binary_at`.
    fn binary_at(&self, pos: usize, level: usize) -> (found: Option<BinaryOp>)
        ensures
            found == grammar::binary_at(self@, pos as int, level as nat),
            found is Some ==> pos < self.tokens@.len() && pos < usize::MAX,
    {
        if pos >= self.tokens.len() {
            return None;
        }
        match &self.tokens[pos].value {
            TokenValue::Operator(op) => match BinaryOp::from_operator(*op) {
                Some(binary) => if level_of(binary) == level {
                    Some(binary)
                } else {
                    None
                },
                None => None,
            },
            _ => None,
        }
    }

    /// Computes `grammar::unary_at`.
    fn unary_at(&self, pos: usize) -> (found: Option<UnaryOp>)
        ensures
            found == grammar::unary_at(self@, pos as int),
            found is Some ==> pos < self.tokens@.len() && pos < usize::MAX,
    {
        if pos >= self.tokens.len() {
            return None;
        }
        match &self.tokens[pos].value {
            TokenValue::Operator(op) => UnaryOp::from_operator(*op),
            _ => None,
        }
    }

    /// Reads a literal, a name, or an expression in parentheses.
    fn primary(&self, pos: usize, arena: &mut Rodeo) -> (result: Result<(Expr, usize), ParseError>)
        ensures
            grown(interned(*old(arena)), interned(*final(arena))),
            reads_expr(
                result,
                grammar::primary(self@, pos as int),
                self@,
                interned(*final(arena)),
            ),
            result matches Ok((_, next)) ==> pos < next <= self.tokens@.len(),
        decreases self.tokens@.len() - pos, 0nat,
    {
        let ghost before = interned(*arena);
        assert(before.take(before.len() as int) =~= before);
        let token = self.peek(pos)?;
        let loc = token.loc;
        match &token.value {
            TokenValue::Keyword(Keyword::True) => Ok(
                (Expr::Literal { loc, value: Value::Bool(true) }, pos + 1),
            ),
            TokenValue::Keyword(Keyword::False) => Ok(
                (Expr::Literal { loc, value: Value::Bool(false) }, pos + 1),
            ),
            TokenValue::Keyword(Keyword::Nil) => Ok(
                (Expr::Literal { loc, value: Value::Nil }, pos + 1),
            ),
            TokenValue::Literal(Literal::Number(bits)) => Ok(
                (Expr::Literal { loc, value: Value::Number(*bits) }, pos + 1),
            ),
            TokenValue::Literal(Literal::String(text)) => {
                match try_intern(arena, text.as_str()) {
                    Ok(key) => {
                        assert(interned(*arena).take(before.len() as int) =~= before);
                        Ok((Expr::Literal { loc, value: Value::StringLiteral(key) }, pos + 1))
                    },
                    Err(_) => {
                        let error = syntax_error(loc, "Unable to intern string literal.");
                        assert(self@[pos as int].value is Literal);
                        assert(refused(error@, self@));
                        Err(error)
                    },
                }
            },
            TokenValue::Literal(Literal::Identifier(name)) => Ok(
                (Expr::Variable { loc, name: name.clone() }, pos + 1),
            ),
            TokenValue::Punctuation(Punctuation::ParenLeft) => {
                let (expr, next) = self.binary(pos + 1, 0, arena)?;
                let after = self.expect(next, Punctuation::ParenRight, "Expect ')' after expression.")?;
                Ok((Expr::Grouping { loc, expr: Box::new(expr) }, after))
            },
            _ => Err(syntax_error(loc, "Expect expression.")),
        }
    }

    /// Reads unary operators and the primary expression after them.
    fn unary(&self, pos: usize, arena: &mut Rodeo) -> (result: Result<(Expr, usize), ParseError>)
        ensures
            grown(interned(*old(arena)), interned(*final(arena))),
            reads_expr(result, grammar::unary(self@, pos as int), self@, interned(*final(arena))),
            result matches Ok((_, next)) ==> pos < next <= self.tokens@.len(),
        decreases self.tokens@.len() - pos, 1nat,
    {
        match self.unary_at(pos) {
            Some(op) => {
                let loc = self.tokens[pos].loc;
                let (expr, next) = self.unary(pos + 1, arena)?;
                Ok((Expr::Unary { loc, op, expr: Box::new(expr) }, next))
            },
            None => self.primary(pos, arena),
        }
    }

    /// Reads the operators of `level` with their right operands, after the
    /// operand `left`.
    fn binary_tail(&self, left: Expr, pos: usize, level: usize, arena: &mut Rodeo) -> (result:
        Result<(Expr, usize), ParseError>)
        requires
            left.view_in(interned(*old(arena))) is Some,
            pos <= self.tokens@.len(),
        ensures
            grown(interned(*old(arena)), interned(*final(arena))),
            reads_expr(
                result,
                grammar::binary_tail(
                    self@,
                    left.view_in(interned(*old(arena))).unwrap(),
                    pos as int,
                    level as nat,
                ),
                self@,
                interned(*final(arena)),
            ),
            result matches Ok((_, next)) ==> pos <= next <= self.tokens@.len(),
        decreases self.tokens@.len() - pos, (grammar::rank(level as nat) - 1) as nat,
    {
        let ghost before = interned(*arena);
        assert(before.take(before.len() as int) =~= before);
        match self.binary_at(pos, level) {
            Some(op) => {
                let loc = self.tokens[pos].loc;
                let (right, next) = self.operand(pos + 1, level, arena)?;
                let ghost between = interned(*arena);
                proof {
                    left.lemma_view_stable(before, between);
                }
                let joined = Expr::Binary { loc, op, left: Box::new(left), right: Box::new(right) };
                let result = self.binary_tail(joined, next, level, arena);
                proof {
                    lemma_grown_twice(before, between, interned(*arena));
                }
                result
            },
            None => Ok((left, pos)),
        }
    }

    /// Reads an operand of the binary operators of `level`.
    fn operand(&self, pos: usize, level: usize, arena: &mut Rodeo) -> (result: Result<
        (Expr, usize),
        ParseError,
    >)
        ensures
            grown(interned(*old(arena)), interned(*final(arena))),
            reads_expr(
                result,
                grammar::operand(self@, pos as int, level as nat),
                self@,
                interned(*final(arena)),
            ),
            result matches Ok((_, next)) ==> pos < next <= self.tokens@.len(),
        decreases self.tokens@.len() - pos, (grammar::rank(level as nat) - 2) as nat,
    {
        if level >= 3 {
            self.unary(pos, arena)
        } else {
            self.binary(pos, level + 1, arena)
        }
    }

    /// Reads an expression of the binary operators of `level` and of those
    /// that bind tighter.
    fn binary(&self, pos: usize, level: usize, arena: &mut Rodeo) -> (result: Result<
        (Expr, usize),
        ParseError,
    >)
        ensures
            grown(interned(*old(arena)), interned(*final(arena))),
            reads_expr(
                result,
                grammar::binary(self@, pos as int, level as nat),
                self@,
                interned(*final(arena)),
            ),
            result matches Ok((_, next)) ==> pos < next <= self.tokens@.len(),
        decreases self.tokens@.len() - pos, grammar::rank(level as nat),
    {
        let ghost before = interned(*arena);
        let (left, next) = self.operand(pos, level, arena)?;
        let ghost between = interned(*arena);
        let result = self.binary_tail(left, next, level, arena);
        proof {
            lemma_grown_twice(before, between, interned(*arena));
        }
        result
    }

    /// Reads an expression and the semicolon after it.
    fn terminated(&self, pos: usize, message: &str, arena: &mut Rodeo) -> (result: Result<
        (Expr, usize),
        ParseError,
    >)
        ensures
            grown(interned(*old(arena)), interned(*final(arena))),
            reads_expr(
                result,
                grammar::terminated(self@, pos as int, message@),
                self@,
                interned(*final(arena)),
            ),
            result matches Ok((_, next)) ==> pos < next <= self.tokens@.len(),
    {
        let (expr, next) = self.binary(pos, 0, arena)?;
        let after = self.expect(next, Punctuation::Semicolon, message)?;
        Ok((expr, after))
    }

    /// Reads what follows `var`.
    fn declaration(&self, loc: Location, pos: usize, arena: &mut Rodeo) -> (result: Result<
        (Stmt, usize),
        ParseError,
    >)
        ensures
            grown(interned(*old(arena)), interned(*final(arena))),
            reads_stmt(
                result,
                grammar::declaration(self@, loc, pos as int),
                self@,
                interned(*final(arena)),
            ),
            result matches Ok((_, next)) ==> pos < next <= self.tokens@.len(),
    {
        let ghost before = interned(*arena);
        assert(before.take(before.len() as int) =~= before);
        let token = self.peek(pos)?;
        match &token.value {
            TokenValue::Literal(Literal::Identifier(name)) => {
                let name = name.clone();
                let assigned = pos + 1 < self.tokens.len() && match &self.tokens[pos + 1].value {
                    TokenValue::Operator(Operator::Equal) => true,
                    _ => false,
                };
                if assigned {
                    let (init, after) = self.terminated(
                        pos + 2,
                        "Expect ';' after variable declaration.",
                        arena,
                    )?;
                    Ok((Stmt::Var { loc, name, init: Some(init) }, after))
                } else {
                    let after = self.expect(
                        pos + 1,
                        Punctuation::Semicolon,
                        "Expect ';' after variable declaration.",
                    )?;
                    Ok((Stmt::Var { loc, name, init: None }, after))
                }
            },
            _ => Err(syntax_error(token.loc, "Expect variable name.")),
        }
    }

    /// Reads what follows `if`, up to the closing parenthesis.
    fn condition(&self, pos: usize, arena: &mut Rodeo) -> (result: Result<(Expr, usize), ParseError>)
        ensures
            grown(interned(*old(arena)), interned(*final(arena))),
            reads_expr(
                result,
                grammar::condition(self@, pos as int),
                self@,
                interned(*final(arena)),
            ),
            result matches Ok((_, next)) ==> pos < next <= self.tokens@.len(),
    {
        let ghost before = interned(*arena);
        assert(before.take(before.len() as int) =~= before);
        let inside = self.expect(pos, Punctuation::ParenLeft, "Expect '(' after 'if'.")?;
        let (expr, next) = self.binary(inside, 0, arena)?;
        let after = self.expect(next, Punctuation::ParenRight, "Expect ')' after if condition.")?;
        Ok((expr, after))
    }

    /// Reads a statement.
    fn statement(&self, pos: usize, arena: &mut Rodeo) -> (result: Result<(Stmt, usize), ParseError>)
        ensures
            grown(interned(*old(arena)), interned(*final(arena))),
            reads_stmt(
                result,
                grammar::statement(self@, pos as int),
                self@,
                interned(*final(arena)),
            ),
            result matches Ok((_, next)) ==> pos < next <= self.tokens@.len(),
        decreases self.tokens@.len() - pos, 20nat,
    {
        let ghost before = interned(*arena);
        assert(before.take(before.len() as int) =~= before);
        let token = self.peek(pos)?;
        let loc = token.loc;
        match &token.value {
            TokenValue::Keyword(Keyword::Print) => {
                let (expr, after) = self.terminated(pos + 1, "Expect ';' after value.", arena)?;
                Ok((Stmt::Print { loc, expr }, after))
            },
            TokenValue::Keyword(Keyword::Var) => self.declaration(loc, pos + 1, arena),
            TokenValue::Punctuation(Punctuation::BraceLeft) => {
                let (statements, after) = self.block(pos + 1, arena)?;
                Ok((Stmt::Block { statements }, after))
            },
            TokenValue::Keyword(Keyword::If) => {
                let (condition, next) = self.condition(pos + 1, arena)?;
                let ghost first = interned(*arena);
                let (then, after) = match self.statement(next, arena) {
                    Ok(read) => read,
                    Err(e) => {
                        proof {
                            lemma_grown_twice(before, first, interned(*arena));
                        }
                        return Err(e);
                    },
                };
                let ghost second = interned(*arena);
                proof {
                    condition.lemma_view_stable(first, second);
                    lemma_grown_twice(before, first, second);
                }
                let otherwise = after < self.tokens.len() && match &self.tokens[after].value {
                    TokenValue::Keyword(Keyword::Else) => true,
                    _ => false,
                };
                if otherwise {
                    let (other, end) = match self.statement(after + 1, arena) {
                        Ok(read) => read,
                        Err(e) => {
                            proof {
                                lemma_grown_twice(before, second, interned(*arena));
                            }
                            return Err(e);
                        },
                    };
                    proof {
                        let third = interned(*arena);
                        condition.lemma_view_stable(second, third);
                        then.lemma_view_stable(second, third);
                        lemma_grown_twice(before, second, third);
                    }
                    Ok(
                        (
                            Stmt::If {
                                loc,
                                condition,
                                then: Box::new(then),
                                otherwise: Some(Box::new(other)),
                            },
                            end,
                        ),
                    )
                } else {
                    Ok((Stmt::If { loc, condition, then: Box::new(then), otherwise: None }, after))
                }
            },
            _ => {
                let (expr, after) = self.terminated(pos, "Expect ';' after expression.", arena)?;
                Ok((Stmt::Expr { expr }, after))
            },
        }
    }

    /// Reads the statements of a block up to its closing brace, and the
    /// brace.
    fn block(&self, pos: usize, arena: &mut Rodeo) -> (result: Result<(Vec<Stmt>, usize), ParseError>)
        ensures
            grown(interned(*old(arena)), interned(*final(arena))),
            reads_block(result, grammar::block(self@, pos as int), self@, interned(*final(arena))),
            result matches Ok((_, next)) ==> pos < next <= self.tokens@.len(),
        decreases self.tokens@.len() - pos, 21nat,
    {
        let ghost before = interned(*arena);
        let ghost tokens = self@;
        assert(before.take(before.len() as int) =~= before);
        let mut statements: Vec<Stmt> = Vec::new();
        let mut at: usize = pos;
        loop
            invariant
                tokens == self@,
                before == interned(*old(arena)),
                pos <= at,
                grown(before, interned(*arena)),
                views_in(statements@, interned(*arena)) is Some,
                match grammar::block(tokens, at as int) {
                    Ok((rest, after)) => grammar::block(tokens, pos as int) == Ok::<
                        (Seq<StmtView>, int),
                        ParseErrorView,
                    >((views_in(statements@, interned(*arena)).unwrap() + rest, after)),
                    Err(e) => grammar::block(tokens, pos as int) == Err::<
                        (Seq<StmtView>, int),
                        ParseErrorView,
                    >(e),
                },
            decreases self.tokens@.len() - at,
        {
            let ghost read = views_in(statements@, interned(*arena)).unwrap();
            let token = self.peek(at)?;
            match &token.value {
                TokenValue::Punctuation(Punctuation::BraceRight) => {
                    assert(read + Seq::<StmtView>::empty() =~= read);
                    return Ok((statements, at + 1));
                },
                TokenValue::Eof => {
                    return Err(syntax_error(token.loc, "Expect '}' after block."));
                },
                _ => {},
            }
            let ghost earlier = interned(*arena);
            let (stmt, next) = match self.statement(at, arena) {
                Ok(read) => read,
                Err(e) => {
                    proof {
                        lemma_grown_twice(before, earlier, interned(*arena));
                    }
                    return Err(e);
                },
            };
            proof {
                let strings = interned(*arena);
                lemma_grown_twice(before, earlier, strings);
                lemma_views_stable(statements@, earlier, strings);
                lemma_views_pushed(statements@, stmt, strings);
                let first = stmt.view_in(strings).unwrap();
                match grammar::block(tokens, next as int) {
                    Ok((rest, after)) => {
                        assert(read + (seq![first] + rest) =~= read.push(first) + rest);
                    },
                    Err(_) => {},
                }
            }
            statements.push(stmt);
            at = next;
        }
    }

    /// Reads the statements of a program, up to the end-of-file token.
    fn program(&self, arena: &mut Rodeo) -> (result: Result<Program, ParseError>)
        ensures
            grown(interned(*old(arena)), interned(*final(arena))),
            reads_program(result, grammar::program(self@, 0), self@, interned(*final(arena))),
    {
        let ghost before = interned(*arena);
        let ghost tokens = self@;
        assert(before.take(before.len() as int) =~= before);
        let mut statements: Vec<Stmt> = Vec::new();
        let mut at: usize = 0;
        loop
            invariant
                tokens == self@,
                before == interned(*old(arena)),
                grown(before, interned(*arena)),
                views_in(statements@, interned(*arena)) is Some,
                match grammar::program(tokens, at as int) {
                    Ok(rest) => grammar::program(tokens, 0) == Ok::<Seq<StmtView>, ParseErrorView>(
                        views_in(statements@, interned(*arena)).unwrap() + rest,
                    ),
                    Err(e) => grammar::program(tokens, 0) == Err::<Seq<StmtView>, ParseErrorView>(
                        e,
                    ),
                },
            decreases self.tokens@.len() - at,
        {
            let ghost read = views_in(statements@, interned(*arena)).unwrap();
            let token = self.peek(at)?;
            match &token.value {
                TokenValue::Eof => {
                    assert(read + Seq::<StmtView>::empty() =~= read);
                    return Ok(Program { statements });
                },
                _ => {},
            }
            let ghost earlier = interned(*arena);
            let (stmt, next) = match self.statement(at, arena) {
                Ok(read) => read,
                Err(e) => {
                    proof {
                        lemma_grown_twice(before, earlier, interned(*arena));
                    }
                    return Err(e);
                },
            };
            proof {
                let strings = interned(*arena);
                lemma_grown_twice(before, earlier, strings);
                lemma_views_stable(statements@, earlier, strings);
                lemma_views_pushed(statements@, stmt, strings);
                let first = stmt.view_in(strings).unwrap();
                match grammar::program(tokens, next as int) {
                    Ok(rest) => {
                        assert(read + (seq![first] + rest) =~= read.push(first) + rest);
                    },
                    Err(_) => {},
                }
            }
            statements.push(stmt);
            at = next;
        }
    }

    /// Parses the tokens into a program, or gives the first syntax error.
    ///
    /// String literals are interned in `arena`, which only grows. The
    /// program is the one that the grammar reads from the tokens: its
    /// syntax, with the texts that the arena now holds for its string
    /// literals, is `grammar::program`. The one other outcome is that the
    /// arena refused a string literal; the error then stands at that
    /// literal. Tokens that end with the end-of-file token never give
    /// `EndOfFile`.
    pub fn parse(self, arena: &mut Rodeo) -> (result: Result<Program, ParseError>)
        ensures
            grown(interned(*old(arena)), interned(*final(arena))),
            reads_program(result, grammar::program(self@, 0), self@, interned(*final(arena))),
            self@.len() > 0 && self@.last().value == TokenValueView::Eof ==> !(result matches Err(
                ParseError::EndOfFile,
            )),
    {
        proof {
            if self@.len() > 0 && self@.last().value == TokenValueView::Eof {
                grammar::lemma_never_end_of_file(self@);
            }
        }
        self.program(arena)
    }
}

} // verus!
