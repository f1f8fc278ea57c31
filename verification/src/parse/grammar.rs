//! The grammar, as functions from tokens and a position to what is read
//! there.
//!
//! A program is statements up to the end-of-file token. A statement is
//! `print` EXPR `;`, `var` NAME (`=` EXPR)? `;`, a block `{` statements `}`,
//! `if` `(` EXPR `)` statement (`else` statement)?, or EXPR `;`. Binary
//! operators associate to the left; equality binds loosest, then
//! comparison, then `+` and `-`, then `*` and `/`, then the unary
//! operators, then literals, names and parentheses.

use vstd::prelude::*;
use super::expr::{Constant, ExprView};
use super::stmt::{tokens_of, StmtView};
use super::token::{BinaryOp, UnaryOp};
use crate::lex::token::tokens::{Keyword, LiteralView, Operator, Punctuation};
use crate::lex::token::{TokenValueView, TokenView};
use crate::util::Location;

verus! {

/// Why tokens are no program.
pub enum ParseErrorView {
    SyntaxError { loc: Location, message: Seq<char> },
    EndOfFile,
}

/// What was read from a position on, with the position after it; or why
/// nothing could be read.
pub type Parsed<T> = Result<(T, int), ParseErrorView>;

/// The token at `pos`.
pub open spec fn peek(tokens: Seq<TokenView>, pos: int) -> Option<TokenView> {
    if 0 <= pos < tokens.len() {
        Some(tokens[pos])
    } else {
        None
    }
}

/// Reads the token `value` at `pos`. Any other token there is a syntax
/// error with `message`, at that token.
pub open spec fn expect(
    tokens: Seq<TokenView>,
    pos: int,
    value: TokenValueView,
    message: Seq<char>,
) -> Result<int, ParseErrorView> {
    match peek(tokens, pos) {
        None => Err(ParseErrorView::EndOfFile),
        Some(token) => if token.value == value {
            Ok(pos + 1)
        } else {
            Err(ParseErrorView::SyntaxError { loc: token.loc, message })
        },
    }
}

/// How tightly a binary operator binds: 0 for equality, 1 for comparison, 2
/// for `+` and `-`, 3 for `*` and `/`.
pub open spec fn level_of(op: BinaryOp) -> nat {
    match op {
        BinaryOp::Equal | BinaryOp::NotEqual => 0,
        BinaryOp::Greater | BinaryOp::GreaterEqual | BinaryOp::Less | BinaryOp::LessEqual => 1,
        BinaryOp::Add | BinaryOp::Sub => 2,
        BinaryOp::Mul | BinaryOp::Div => 3,
    }
}

/// The binary operator of `level` that stands at `pos`, if one does.
pub open spec fn binary_at(tokens: Seq<TokenView>, pos: int, level: nat) -> Option<BinaryOp> {
    match peek(tokens, pos) {
        Some(TokenView { value: TokenValueView::Operator(op), .. }) => match BinaryOp::of(op) {
            Some(binary) => if level_of(binary) == level {
                Some(binary)
            } else {
                None
            },
            None => None,
        },
        _ => None,
    }
}

/// The unary operator that stands at `pos`, if one does.
pub open spec fn unary_at(tokens: Seq<TokenView>, pos: int) -> Option<UnaryOp> {
    match peek(tokens, pos) {
        Some(TokenView { value: TokenValueView::Operator(op), .. }) => UnaryOp::of(op),
        _ => None,
    }
}

/// A literal, a name, or an expression in parentheses.
pub open spec fn primary(tokens: Seq<TokenView>, pos: int) -> Parsed<ExprView>
    decreases tokens.len() - pos, 0nat,
{
    match peek(tokens, pos) {
        None => Err(ParseErrorView::EndOfFile),
        Some(token) => {
            let loc = token.loc;
            match token.value {
                TokenValueView::Keyword(Keyword::True) => Ok(
                    (ExprView::Literal { loc, value: Constant::Bool(true) }, pos + 1),
                ),
                TokenValueView::Keyword(Keyword::False) => Ok(
                    (ExprView::Literal { loc, value: Constant::Bool(false) }, pos + 1),
                ),
                TokenValueView::Keyword(Keyword::Nil) => Ok(
                    (ExprView::Literal { loc, value: Constant::Nil }, pos + 1),
                ),
                TokenValueView::Literal(LiteralView::Number(bits)) => Ok(
                    (ExprView::Literal { loc, value: Constant::Number(bits) }, pos + 1),
                ),
                TokenValueView::Literal(LiteralView::String(text)) => Ok(
                    (ExprView::Literal { loc, value: Constant::Text(text) }, pos + 1),
                ),
                TokenValueView::Literal(LiteralView::Identifier(name)) => Ok(
                    (ExprView::Variable { loc, name }, pos + 1),
                ),
                TokenValueView::Punctuation(Punctuation::ParenLeft) => match binary(
                    tokens,
                    pos + 1,
                    0,
                ) {
                    Ok((expr, next)) => match expect(
                        tokens,
                        next,
                        TokenValueView::Punctuation(Punctuation::ParenRight),
                        "Expect ')' after expression."@,
                    ) {
                        Ok(after) => Ok((ExprView::Grouping { loc, expr: Box::new(expr) }, after)),
                        Err(e) => Err(e),
                    },
                    Err(e) => Err(e),
                },
                _ => Err(ParseErrorView::SyntaxError { loc, message: "Expect expression."@ }),
            }
        },
    }
}

/// Unary operators in front of a primary expression.
pub open spec fn unary(tokens: Seq<TokenView>, pos: int) -> Parsed<ExprView>
    decreases tokens.len() - pos, 1nat,
{
    match unary_at(tokens, pos) {
        Some(op) => match unary(tokens, pos + 1) {
            Ok((expr, next)) => Ok(
                (ExprView::Unary { loc: tokens[pos].loc, op, expr: Box::new(expr) }, next),
            ),
            Err(e) => Err(e),
        },
        None => primary(tokens, pos),
    }
}

/// The rank of the binary expressions of a level among the functions of
/// the grammar.
pub open spec fn rank(level: nat) -> nat {
    if level >= 3 {
        4
    } else {
        (13 - 3 * level) as nat
    }
}

/// The operators of `level` with their right operands, from `pos` on,
/// after the operand `left`: each operator takes what was read before it
/// as its left operand.
pub open spec fn binary_tail(tokens: Seq<TokenView>, left: ExprView, pos: int, level: nat)
    -> Parsed<ExprView>
    decreases tokens.len() - pos, (rank(level) - 1) as nat,
{
    match binary_at(tokens, pos, level) {
        Some(op) => match operand(tokens, pos + 1, level) {
            Ok((right, next)) => if pos < next <= tokens.len() {
                binary_tail(
                    tokens,
                    ExprView::Binary {
                        loc: tokens[pos].loc,
                        op,
                        left: Box::new(left),
                        right: Box::new(right),
                    },
                    next,
                    level,
                )
            } else {
                Err(ParseErrorView::EndOfFile)
            },
            Err(e) => Err(e),
        },
        None => Ok((left, pos)),
    }
}

/// An operand of the binary operators of `level`: an expression of the
/// next level, or a unary expression at the last level.
pub open spec fn operand(tokens: Seq<TokenView>, pos: int, level: nat) -> Parsed<ExprView>
    decreases tokens.len() - pos, (rank(level) - 2) as nat,
{
    if level >= 3 {
        unary(tokens, pos)
    } else {
        binary(tokens, pos, level + 1)
    }
}

/// An expression of the binary operators of `level` and of those that
/// bind tighter. Level 0 is every expression.
pub open spec fn binary(tokens: Seq<TokenView>, pos: int, level: nat) -> Parsed<ExprView>
    decreases tokens.len() - pos, rank(level),
{
    match operand(tokens, pos, level) {
        Ok((left, next)) => if pos < next <= tokens.len() {
            binary_tail(tokens, left, next, level)
        } else {
            Err(ParseErrorView::EndOfFile)
        },
        Err(e) => Err(e),
    }
}

/// An expression.
pub open spec fn expression(tokens: Seq<TokenView>, pos: int) -> Parsed<ExprView> {
    binary(tokens, pos, 0)
}

/// An expression and the semicolon after it.
pub open spec fn terminated(tokens: Seq<TokenView>, pos: int, message: Seq<char>) -> Parsed<
    ExprView,
> {
    match expression(tokens, pos) {
        Ok((expr, next)) => match expect(
            tokens,
            next,
            TokenValueView::Punctuation(Punctuation::Semicolon),
            message,
        ) {
            Ok(after) => Ok((expr, after)),
            Err(e) => Err(e),
        },
        Err(e) => Err(e),
    }
}

/// What follows `var`: a name, an initializer where `=` follows the name,
/// and a semicolon.
pub open spec fn declaration(tokens: Seq<TokenView>, loc: Location, pos: int) -> Parsed<StmtView> {
    match peek(tokens, pos) {
        None => Err(ParseErrorView::EndOfFile),
        Some(TokenView { value: TokenValueView::Literal(LiteralView::Identifier(name)), .. }) => {
            match peek(tokens, pos + 1) {
                Some(TokenView { value: TokenValueView::Operator(Operator::Equal), .. }) => {
                    match terminated(
                        tokens,
                        pos + 2,
                        "Expect ';' after variable declaration."@,
                    ) {
                        Ok((init, after)) => Ok(
                            (StmtView::Var { loc, name, init: Some(init) }, after),
                        ),
                        Err(e) => Err(e),
                    }
                },
                _ => match expect(
                    tokens,
                    pos + 1,
                    TokenValueView::Punctuation(Punctuation::Semicolon),
                    "Expect ';' after variable declaration."@,
                ) {
                    Ok(after) => Ok((StmtView::Var { loc, name, init: None }, after)),
                    Err(e) => Err(e),
                },
            }
        },
        Some(token) => Err(
            ParseErrorView::SyntaxError { loc: token.loc, message: "Expect variable name."@ },
        ),
    }
}

/// What follows `if`: a condition in parentheses and a statement.
pub open spec fn condition(tokens: Seq<TokenView>, pos: int) -> Parsed<ExprView> {
    match expect(
        tokens,
        pos,
        TokenValueView::Punctuation(Punctuation::ParenLeft),
        "Expect '(' after 'if'."@,
    ) {
        Ok(inside) => match expression(tokens, inside) {
            Ok((expr, next)) => match expect(
                tokens,
                next,
                TokenValueView::Punctuation(Punctuation::ParenRight),
                "Expect ')' after if condition."@,
            ) {
                Ok(after) => Ok((expr, after)),
                Err(e) => Err(e),
            },
            Err(e) => Err(e),
        },
        Err(e) => Err(e),
    }
}

/// A statement.
pub open spec fn statement(tokens: Seq<TokenView>, pos: int) -> Parsed<StmtView>
    decreases tokens.len() - pos, 20nat,
{
    match peek(tokens, pos) {
        None => Err(ParseErrorView::EndOfFile),
        Some(token) => {
            let loc = token.loc;
            match token.value {
                TokenValueView::Keyword(Keyword::Print) => match terminated(
                    tokens,
                    pos + 1,
                    "Expect ';' after value."@,
                ) {
                    Ok((expr, after)) => Ok((StmtView::Print { loc, expr }, after)),
                    Err(e) => Err(e),
                },
                TokenValueView::Keyword(Keyword::Var) => declaration(tokens, loc, pos + 1),
                TokenValueView::Punctuation(Punctuation::BraceLeft) => match block(
                    tokens,
                    pos + 1,
                ) {
                    Ok((statements, after)) => Ok((StmtView::Block { statements }, after)),
                    Err(e) => Err(e),
                },
                TokenValueView::Keyword(Keyword::If) => match condition(tokens, pos + 1) {
                    Ok((test, next)) => if pos < next <= tokens.len() {
                        match statement(tokens, next) {
                            Ok((then, after)) => if next < after <= tokens.len() {
                                match peek(tokens, after) {
                                    Some(
                                        TokenView {
                                            value: TokenValueView::Keyword(Keyword::Else),
                                            ..
                                        },
                                    ) => match statement(tokens, after + 1) {
                                        Ok((otherwise, end)) => Ok(
                                            (
                                                StmtView::If {
                                                    loc,
                                                    condition: test,
                                                    then: Box::new(then),
                                                    otherwise: Some(Box::new(otherwise)),
                                                },
                                                end,
                                            ),
                                        ),
                                        Err(e) => Err(e),
                                    },
                                    _ => Ok(
                                        (
                                            StmtView::If {
                                                loc,
                                                condition: test,
                                                then: Box::new(then),
                                                otherwise: None,
                                            },
                                            after,
                                        ),
                                    ),
                                }
                            } else {
                                Err(ParseErrorView::EndOfFile)
                            },
                            Err(e) => Err(e),
                        }
                    } else {
                        Err(ParseErrorView::EndOfFile)
                    },
                    Err(e) => Err(e),
                },
                _ => match terminated(tokens, pos, "Expect ';' after expression."@) {
                    Ok((expr, after)) => Ok((StmtView::Expr { expr }, after)),
                    Err(e) => Err(e),
                },
            }
        },
    }
}

/// The statements of a block up to its closing brace, and the brace.
pub open spec fn block(tokens: Seq<TokenView>, pos: int) -> Parsed<Seq<StmtView>>
    decreases tokens.len() - pos, 21nat,
{
    match peek(tokens, pos) {
        None => Err(ParseErrorView::EndOfFile),
        Some(token) => match token.value {
            TokenValueView::Punctuation(Punctuation::BraceRight) => Ok((Seq::empty(), pos + 1)),
            TokenValueView::Eof => Err(
                ParseErrorView::SyntaxError {
                    loc: token.loc,
                    message: "Expect '}' after block."@,
                },
            ),
            _ => match statement(tokens, pos) {
                Ok((first, next)) => if pos < next <= tokens.len() {
                    match block(tokens, next) {
                        Ok((rest, after)) => Ok((seq![first] + rest, after)),
                        Err(e) => Err(e),
                    }
                } else {
                    Err(ParseErrorView::EndOfFile)
                },
                Err(e) => Err(e),
            },
        },
    }
}

/// The statements of a program, from `pos` up to the end-of-file token.
pub open spec fn program(tokens: Seq<TokenView>, pos: int) -> Result<Seq<StmtView>, ParseErrorView>
    decreases tokens.len() - pos, 22nat,
{
    match peek(tokens, pos) {
        None => Err(ParseErrorView::EndOfFile),
        Some(token) => match token.value {
            TokenValueView::Eof => Ok(Seq::empty()),
            _ => match statement(tokens, pos) {
                Ok((first, next)) => if pos < next <= tokens.len() {
                    match program(tokens, next) {
                        Ok(rest) => Ok(seq![first] + rest),
                        Err(e) => Err(e),
                    }
                } else {
                    Err(ParseErrorView::EndOfFile)
                },
                Err(e) => Err(e),
            },
        },
    }
}


/// Whether what was read from `pos` on ends at or before `limit` and has
/// read at least `least` tokens, or is an error at a token.
pub open spec fn within<T>(read: Parsed<T>, pos: int, least: int, limit: int) -> bool {
    match read {
        Ok((_, next)) => pos + least <= next <= limit,
        Err(e) => e != ParseErrorView::EndOfFile,
    }
}

/// Whether an end-of-file token stands at `limit`, and `pos` is not
/// behind it.
pub open spec fn before_eof(tokens: Seq<TokenView>, pos: int, limit: int) -> bool {
    0 <= pos <= limit < tokens.len() && tokens[limit].value == TokenValueView::Eof
}

/// An expression that begins at or before an end-of-file token ends at or
/// before it, and its first token is not that token.
pub proof fn lemma_primary_within(tokens: Seq<TokenView>, pos: int, limit: int)
    requires
        before_eof(tokens, pos, limit),
    ensures
        within(primary(tokens, pos), pos, 1, limit),
    decreases tokens.len() - pos, 0nat,
{
    if tokens[pos].value == TokenValueView::Punctuation(Punctuation::ParenLeft) {
        lemma_binary_within(tokens, pos + 1, 0, limit);
    }
}

/// As `lemma_primary_within`, for unary expressions.
pub proof fn lemma_unary_within(tokens: Seq<TokenView>, pos: int, limit: int)
    requires
        before_eof(tokens, pos, limit),
    ensures
        within(unary(tokens, pos), pos, 1, limit),
    decreases tokens.len() - pos, 1nat,
{
    if unary_at(tokens, pos) is Some {
        lemma_unary_within(tokens, pos + 1, limit);
    } else {
        lemma_primary_within(tokens, pos, limit);
    }
}

/// As `lemma_primary_within`, for the operators that follow an operand;
/// there may be none.
pub proof fn lemma_binary_tail_within(
    tokens: Seq<TokenView>,
    left: ExprView,
    pos: int,
    level: nat,
    limit: int,
)
    requires
        before_eof(tokens, pos, limit),
    ensures
        within(binary_tail(tokens, left, pos, level), pos, 0, limit),
    decreases tokens.len() - pos, (rank(level) - 1) as nat,
{
    if let Some(op) = binary_at(tokens, pos, level) {
        lemma_operand_within(tokens, pos + 1, level, limit);
        if let Ok((right, next)) = operand(tokens, pos + 1, level) {
            lemma_binary_tail_within(
                tokens,
                ExprView::Binary {
                    loc: tokens[pos].loc,
                    op,
                    left: Box::new(left),
                    right: Box::new(right),
                },
                next,
                level,
                limit,
            );
        }
    }
}

/// As `lemma_primary_within`, for an operand.
pub proof fn lemma_operand_within(tokens: Seq<TokenView>, pos: int, level: nat, limit: int)
    requires
        before_eof(tokens, pos, limit),
    ensures
        within(operand(tokens, pos, level), pos, 1, limit),
    decreases tokens.len() - pos, (rank(level) - 2) as nat,
{
    if level >= 3 {
        lemma_unary_within(tokens, pos, limit);
    } else {
        lemma_binary_within(tokens, pos, level + 1, limit);
    }
}

/// As `lemma_primary_within`, for binary expressions.
pub proof fn lemma_binary_within(tokens: Seq<TokenView>, pos: int, level: nat, limit: int)
    requires
        before_eof(tokens, pos, limit),
    ensures
        within(binary(tokens, pos, level), pos, 1, limit),
    decreases tokens.len() - pos, rank(level),
{
    lemma_operand_within(tokens, pos, level, limit);
    if let Ok((left, next)) = operand(tokens, pos, level) {
        lemma_binary_tail_within(tokens, left, next, level, limit);
    }
}

/// As `lemma_primary_within`, for an expression and its semicolon.
pub proof fn lemma_terminated_within(
    tokens: Seq<TokenView>,
    pos: int,
    message: Seq<char>,
    limit: int,
)
    requires
        before_eof(tokens, pos, limit),
    ensures
        within(terminated(tokens, pos, message), pos, 1, limit),
{
    lemma_binary_within(tokens, pos, 0, limit);
}

/// As `lemma_primary_within`, for what follows `var`.
pub proof fn lemma_declaration_within(tokens: Seq<TokenView>, loc: Location, pos: int, limit: int)
    requires
        before_eof(tokens, pos, limit),
    ensures
        within(declaration(tokens, loc, pos), pos, 1, limit),
{
    if let TokenValueView::Literal(LiteralView::Identifier(_)) = tokens[pos].value {
        if let Some(TokenView { value: TokenValueView::Operator(Operator::Equal), .. }) = peek(
            tokens,
            pos + 1,
        ) {
            lemma_terminated_within(
                tokens,
                pos + 2,
                "Expect ';' after variable declaration."@,
                limit,
            );
        }
    }
}

/// As `lemma_primary_within`, for what follows `if`.
pub proof fn lemma_condition_within(tokens: Seq<TokenView>, pos: int, limit: int)
    requires
        before_eof(tokens, pos, limit),
    ensures
        within(condition(tokens, pos), pos, 1, limit),
{
    if tokens[pos].value == TokenValueView::Punctuation(Punctuation::ParenLeft) {
        lemma_binary_within(tokens, pos + 1, 0, limit);
    }
}

/// As `lemma_primary_within`, for a statement.
pub proof fn lemma_statement_within(tokens: Seq<TokenView>, pos: int, limit: int)
    requires
        before_eof(tokens, pos, limit),
    ensures
        within(statement(tokens, pos), pos, 1, limit),
    decreases tokens.len() - pos, 20nat,
{
    let loc = tokens[pos].loc;
    match tokens[pos].value {
        TokenValueView::Keyword(Keyword::Print) => {
            lemma_terminated_within(tokens, pos + 1, "Expect ';' after value."@, limit);
        },
        TokenValueView::Keyword(Keyword::Var) => {
            lemma_declaration_within(tokens, loc, pos + 1, limit);
        },
        TokenValueView::Punctuation(Punctuation::BraceLeft) => {
            lemma_block_within(tokens, pos + 1, limit);
        },
        TokenValueView::Keyword(Keyword::If) => {
            lemma_condition_within(tokens, pos + 1, limit);
            if let Ok((_, next)) = condition(tokens, pos + 1) {
                lemma_statement_within(tokens, next, limit);
                if let Ok((_, after)) = statement(tokens, next) {
                    if let Some(
                        TokenView { value: TokenValueView::Keyword(Keyword::Else), .. },
                    ) = peek(tokens, after) {
                        lemma_statement_within(tokens, after + 1, limit);
                    }
                }
            }
        },
        _ => {
            lemma_terminated_within(tokens, pos, "Expect ';' after expression."@, limit);
        },
    }
}

/// As `lemma_primary_within`, for a block.
pub proof fn lemma_block_within(tokens: Seq<TokenView>, pos: int, limit: int)
    requires
        before_eof(tokens, pos, limit),
    ensures
        within(block(tokens, pos), pos, 1, limit),
    decreases tokens.len() - pos, 21nat,
{
    match tokens[pos].value {
        TokenValueView::Punctuation(Punctuation::BraceRight) => {},
        TokenValueView::Eof => {},
        _ => {
            lemma_statement_within(tokens, pos, limit);
            if let Ok((_, next)) = statement(tokens, pos) {
                lemma_block_within(tokens, next, limit);
            }
        },
    }
}

/// Tokens with an end-of-file token at or after `pos` are a program or
/// have a syntax error at one of the tokens: reading never runs past the
/// tokens.
pub proof fn lemma_program_within(tokens: Seq<TokenView>, pos: int, limit: int)
    requires
        before_eof(tokens, pos, limit),
    ensures
        program(tokens, pos) != Err::<Seq<StmtView>, ParseErrorView>(ParseErrorView::EndOfFile),
    decreases tokens.len() - pos, 22nat,
{
    match tokens[pos].value {
        TokenValueView::Eof => {},
        _ => {
            lemma_statement_within(tokens, pos, limit);
            if let Ok((_, next)) = statement(tokens, pos) {
                lemma_program_within(tokens, next, limit);
            }
        },
    }
}

/// Tokens that end with the end-of-file token, as those of every scan do,
/// never give `EndOfFile`.
pub proof fn lemma_never_end_of_file(tokens: Seq<TokenView>)
    requires
        tokens.len() > 0,
        tokens.last().value == TokenValueView::Eof,
    ensures
        program(tokens, 0) != Err::<Seq<StmtView>, ParseErrorView>(ParseErrorView::EndOfFile),
{
    lemma_program_within(tokens, 0, tokens.len() - 1);
}

/// What the tokens from `from` up to `to` are, without their locations.
pub open spec fn values(tokens: Seq<TokenView>, from: int, to: int) -> Seq<TokenValueView> {
    Seq::new((to - from) as nat, |i: int| tokens[from + i].value)
}

/// Whether what was read from `pos` on is written by exactly the tokens
/// that were read, after `before`.
pub open spec fn spelled(
    tokens: Seq<TokenView>,
    pos: int,
    before: Seq<TokenValueView>,
    read: Parsed<ExprView>,
) -> bool {
    read matches Ok((expr, next)) ==> 0 <= pos <= next <= tokens.len() && before + values(
        tokens,
        pos,
        next,
    ) == expr.tokens()
}

/// As `spelled`, for a statement.
pub open spec fn spelled_stmt(tokens: Seq<TokenView>, pos: int, read: Parsed<StmtView>) -> bool {
    read matches Ok((stmt, next)) ==> 0 <= pos <= next <= tokens.len() && values(
        tokens,
        pos,
        next,
    ) == stmt.tokens()
}

/// Tokens up to a position and from it on are the tokens of both
/// stretches.
proof fn lemma_values_split(tokens: Seq<TokenView>, from: int, mid: int, to: int)
    requires
        from <= mid <= to,
    ensures
        values(tokens, from, to) == values(tokens, from, mid) + values(tokens, mid, to),
{
    assert(values(tokens, from, to) =~= values(tokens, from, mid) + values(tokens, mid, to));
}

/// One token is its value.
proof fn lemma_values_one(tokens: Seq<TokenView>, pos: int)
    ensures
        values(tokens, pos, pos + 1) == seq![tokens[pos].value],
        values(tokens, pos, pos) == Seq::<TokenValueView>::empty(),
{
    assert(values(tokens, pos, pos + 1) =~= seq![tokens[pos].value]);
    assert(values(tokens, pos, pos) =~= Seq::<TokenValueView>::empty());
}

/// A primary expression is written by the tokens that were read for it.
pub proof fn lemma_primary_spelled(tokens: Seq<TokenView>, pos: int)
    ensures
        spelled(tokens, pos, Seq::empty(), primary(tokens, pos)),
    decreases tokens.len() - pos, 0nat,
{
    if let Ok((expr, next)) = primary(tokens, pos) {
        lemma_values_one(tokens, pos);
        if tokens[pos].value == TokenValueView::Punctuation(Punctuation::ParenLeft) {
            lemma_binary_spelled(tokens, pos + 1, 0);
            let inner = binary(tokens, pos + 1, 0)->Ok_0;
            lemma_values_one(tokens, inner.1);
            lemma_values_split(tokens, pos, pos + 1, next);
            lemma_values_split(tokens, pos + 1, inner.1, next);
            assert(Seq::<TokenValueView>::empty() + values(tokens, pos + 1, inner.1) =~= values(
                tokens,
                pos + 1,
                inner.1,
            ));
            assert(Seq::<TokenValueView>::empty() + values(tokens, pos, next) =~= expr.tokens());
        } else {
            assert(Seq::<TokenValueView>::empty() + values(tokens, pos, next) =~= expr.tokens());
        }
    }
}

/// A unary expression is written by the tokens that were read for it.
pub proof fn lemma_unary_spelled(tokens: Seq<TokenView>, pos: int)
    ensures
        spelled(tokens, pos, Seq::empty(), unary(tokens, pos)),
    decreases tokens.len() - pos, 1nat,
{
    if let Ok((expr, next)) = unary(tokens, pos) {
        if unary_at(tokens, pos) is Some {
            lemma_unary_spelled(tokens, pos + 1);
            lemma_values_one(tokens, pos);
            lemma_values_split(tokens, pos, pos + 1, next);
            assert(Seq::<TokenValueView>::empty() + values(tokens, pos + 1, next) =~= values(
                tokens,
                pos + 1,
                next,
            ));
            assert(Seq::<TokenValueView>::empty() + values(tokens, pos, next) =~= expr.tokens());
        } else {
            lemma_primary_spelled(tokens, pos);
        }
    }
}

/// The operators after an operand, with their operands, are written by
/// the tokens that were read for them.
pub proof fn lemma_binary_tail_spelled(
    tokens: Seq<TokenView>,
    left: ExprView,
    pos: int,
    level: nat,
)
    requires
        0 <= pos <= tokens.len(),
    ensures
        spelled(tokens, pos, left.tokens(), binary_tail(tokens, left, pos, level)),
    decreases tokens.len() - pos, (rank(level) - 1) as nat,
{
    if let Ok((expr, end)) = binary_tail(tokens, left, pos, level) {
        if let Some(op) = binary_at(tokens, pos, level) {
            lemma_operand_spelled(tokens, pos + 1, level);
            let (right, next) = operand(tokens, pos + 1, level)->Ok_0;
            let joined = ExprView::Binary {
                loc: tokens[pos].loc,
                op,
                left: Box::new(left),
                right: Box::new(right),
            };
            lemma_binary_tail_spelled(tokens, joined, next, level);
            lemma_values_one(tokens, pos);
            lemma_values_split(tokens, pos, pos + 1, end);
            lemma_values_split(tokens, pos + 1, next, end);
            assert(Seq::<TokenValueView>::empty() + values(tokens, pos + 1, next) =~= values(
                tokens,
                pos + 1,
                next,
            ));
            assert(left.tokens() + values(tokens, pos, end) =~= joined.tokens() + values(
                tokens,
                next,
                end,
            ));
        } else {
            lemma_values_one(tokens, pos);
            assert(left.tokens() + values(tokens, pos, pos) =~= left.tokens());
        }
    }
}

/// An operand is written by the tokens that were read for it.
pub proof fn lemma_operand_spelled(tokens: Seq<TokenView>, pos: int, level: nat)
    ensures
        spelled(tokens, pos, Seq::empty(), operand(tokens, pos, level)),
    decreases tokens.len() - pos, (rank(level) - 2) as nat,
{
    if level >= 3 {
        lemma_unary_spelled(tokens, pos);
    } else {
        lemma_binary_spelled(tokens, pos, level + 1);
    }
}

/// A binary expression is written by the tokens that were read for it.
pub proof fn lemma_binary_spelled(tokens: Seq<TokenView>, pos: int, level: nat)
    ensures
        spelled(tokens, pos, Seq::empty(), binary(tokens, pos, level)),
    decreases tokens.len() - pos, rank(level),
{
    if let Ok((expr, end)) = binary(tokens, pos, level) {
        lemma_operand_spelled(tokens, pos, level);
        let (left, next) = operand(tokens, pos, level)->Ok_0;
        lemma_binary_tail_spelled(tokens, left, next, level);
        lemma_values_split(tokens, pos, next, end);
        assert(Seq::<TokenValueView>::empty() + values(tokens, pos, next) =~= values(
            tokens,
            pos,
            next,
        ));
        assert(Seq::<TokenValueView>::empty() + values(tokens, pos, end) =~= expr.tokens());
    }
}

/// An expression with its semicolon is written by the tokens that were
/// read, the semicolon last.
pub proof fn lemma_terminated_spelled(tokens: Seq<TokenView>, pos: int, message: Seq<char>)
    ensures
        terminated(tokens, pos, message) matches Ok((expr, next)) ==> 0 <= pos <= next
            <= tokens.len() && values(tokens, pos, next) == expr.tokens() + seq![
            TokenValueView::Punctuation(Punctuation::Semicolon),
        ],
{
    if let Ok((expr, next)) = terminated(tokens, pos, message) {
        lemma_binary_spelled(tokens, pos, 0);
        let inner = binary(tokens, pos, 0)->Ok_0;
        lemma_values_one(tokens, inner.1);
        lemma_values_split(tokens, pos, inner.1, next);
        assert(Seq::<TokenValueView>::empty() + values(tokens, pos, inner.1) =~= values(
            tokens,
            pos,
            inner.1,
        ));
    }
}

/// What follows `var` is written by the tokens that were read for it.
pub proof fn lemma_declaration_spelled(tokens: Seq<TokenView>, loc: Location, pos: int)
    ensures
        declaration(tokens, loc, pos) matches Ok((stmt, next)) ==> 0 <= pos <= next
            <= tokens.len() && seq![TokenValueView::Keyword(Keyword::Var)] + values(
            tokens,
            pos,
            next,
        ) == stmt.tokens(),
{
    if let Ok((stmt, end)) = declaration(tokens, loc, pos) {
        lemma_values_one(tokens, pos);
        lemma_values_one(tokens, pos + 1);
        if let Some(TokenView { value: TokenValueView::Operator(Operator::Equal), .. }) = peek(
            tokens,
            pos + 1,
        ) {
            lemma_terminated_spelled(tokens, pos + 2, "Expect ';' after variable declaration."@);
            lemma_values_split(tokens, pos, pos + 1, end);
            lemma_values_split(tokens, pos + 1, pos + 2, end);
        } else {
            lemma_values_split(tokens, pos, pos + 1, end);
        }
        assert(seq![TokenValueView::Keyword(Keyword::Var)] + values(tokens, pos, end)
            =~= stmt.tokens());
    }
}

/// The condition of an `if` is written by the tokens that were read for
/// it, between its parentheses.
pub proof fn lemma_condition_spelled(tokens: Seq<TokenView>, pos: int)
    ensures
        condition(tokens, pos) matches Ok((expr, next)) ==> 0 <= pos <= next <= tokens.len()
            && values(tokens, pos, next) == seq![
            TokenValueView::Punctuation(Punctuation::ParenLeft),
        ] + expr.tokens() + seq![TokenValueView::Punctuation(Punctuation::ParenRight)],
{
    if let Ok((expr, end)) = condition(tokens, pos) {
        lemma_values_one(tokens, pos);
        lemma_binary_spelled(tokens, pos + 1, 0);
        let (test, close) = binary(tokens, pos + 1, 0)->Ok_0;
        lemma_values_one(tokens, close);
        lemma_values_split(tokens, pos, pos + 1, end);
        lemma_values_split(tokens, pos + 1, close, end);
        assert(Seq::<TokenValueView>::empty() + values(tokens, pos + 1, close) =~= values(
            tokens,
            pos + 1,
            close,
        ));
        assert(values(tokens, pos, end) =~= seq![
            TokenValueView::Punctuation(Punctuation::ParenLeft),
        ] + expr.tokens() + seq![TokenValueView::Punctuation(Punctuation::ParenRight)]);
    }
}

/// A statement is written by the tokens that were read for it.
pub proof fn lemma_statement_spelled(tokens: Seq<TokenView>, pos: int)
    ensures
        spelled_stmt(tokens, pos, statement(tokens, pos)),
    decreases tokens.len() - pos, 20nat,
{
    if let Ok((stmt, end)) = statement(tokens, pos) {
        let loc = tokens[pos].loc;
        lemma_values_one(tokens, pos);
        match tokens[pos].value {
            TokenValueView::Keyword(Keyword::Print) => {
                lemma_terminated_spelled(tokens, pos + 1, "Expect ';' after value."@);
                lemma_values_split(tokens, pos, pos + 1, end);
                assert(values(tokens, pos, end) =~= stmt.tokens());
            },
            TokenValueView::Keyword(Keyword::Var) => {
                lemma_declaration_spelled(tokens, loc, pos + 1);
                lemma_values_split(tokens, pos, pos + 1, end);
            },
            TokenValueView::Punctuation(Punctuation::BraceLeft) => {
                lemma_block_spelled(tokens, pos + 1);
                lemma_values_split(tokens, pos, pos + 1, end);
                assert(values(tokens, pos, end) =~= stmt.tokens());
            },
            TokenValueView::Keyword(Keyword::If) => {
                lemma_condition_spelled(tokens, pos + 1);
                let (test, next) = condition(tokens, pos + 1)->Ok_0;
                lemma_statement_spelled(tokens, next);
                let (then, after) = statement(tokens, next)->Ok_0;
                let head = seq![TokenValueView::Keyword(Keyword::If)] + values(
                    tokens,
                    pos + 1,
                    next,
                ) + then.tokens();
                if let Some(TokenView { value: TokenValueView::Keyword(Keyword::Else), .. }) =
                    peek(tokens, after) {
                    lemma_values_one(tokens, after);
                    lemma_statement_spelled(tokens, after + 1);
                    lemma_values_split(tokens, pos, pos + 1, end);
                    lemma_values_split(tokens, pos + 1, next, end);
                    lemma_values_split(tokens, next, after, end);
                    lemma_values_split(tokens, after, after + 1, end);
                    let other = statement(tokens, after + 1)->Ok_0.0;
                    assert(values(tokens, pos, end) =~= head + (seq![
                        TokenValueView::Keyword(Keyword::Else),
                    ] + other.tokens()));
                    assert(stmt.tokens() =~= head + (seq![TokenValueView::Keyword(Keyword::Else)]
                        + other.tokens()));
                } else {
                    lemma_values_split(tokens, pos, pos + 1, end);
                    lemma_values_split(tokens, pos + 1, next, end);
                    assert(values(tokens, pos, end) =~= head);
                    assert(stmt.tokens() =~= head);
                }
            },
            _ => {
                lemma_terminated_spelled(tokens, pos, "Expect ';' after expression."@);
            },
        }
    }
}

/// The statements of a block are written by the tokens that were read for
/// them, and the closing brace comes after them.
pub proof fn lemma_block_spelled(tokens: Seq<TokenView>, pos: int)
    ensures
        block(tokens, pos) matches Ok((statements, next)) ==> 0 <= pos <= next <= tokens.len()
            && values(tokens, pos, next) == tokens_of(statements) + seq![
            TokenValueView::Punctuation(Punctuation::BraceRight),
        ],
    decreases tokens.len() - pos, 21nat,
{
    if let Ok((statements, end)) = block(tokens, pos) {
        lemma_values_one(tokens, pos);
        match tokens[pos].value {
            TokenValueView::Punctuation(Punctuation::BraceRight) => {
                assert(values(tokens, pos, end) =~= tokens_of(statements) + seq![
                    TokenValueView::Punctuation(Punctuation::BraceRight),
                ]);
            },
            _ => {
                lemma_statement_spelled(tokens, pos);
                let (first, next) = statement(tokens, pos)->Ok_0;
                lemma_block_spelled(tokens, next);
                let (rest, after) = block(tokens, next)->Ok_0;
                lemma_values_split(tokens, pos, next, end);
                assert(statements.drop_first() =~= rest);
                assert(values(tokens, pos, end) =~= tokens_of(statements) + seq![
                    TokenValueView::Punctuation(Punctuation::BraceRight),
                ]);
            },
        }
    }
}

/// A program is written by the tokens from `pos` up to the end-of-file
/// token at which reading stopped: parsing reads nothing into a program
/// that the tokens do not say, and leaves no token out.
pub proof fn lemma_program_spelled(tokens: Seq<TokenView>, pos: int)
    requires
        0 <= pos,
    ensures
        program(tokens, pos) matches Ok(statements) ==> {
            let end = pos + tokens_of(statements).len();
            &&& end < tokens.len()
            &&& tokens[end].value == TokenValueView::Eof
            &&& values(tokens, pos, end) == tokens_of(statements)
        },
    decreases tokens.len() - pos, 22nat,
{
    if let Ok(statements) = program(tokens, pos) {
        lemma_values_one(tokens, pos);
        match tokens[pos].value {
            TokenValueView::Eof => {},
            _ => {
                lemma_statement_spelled(tokens, pos);
                let (first, next) = statement(tokens, pos)->Ok_0;
                lemma_program_spelled(tokens, next);
                let rest = program(tokens, next)->Ok_0;
                assert(statements.drop_first() =~= rest);
                let end = next + tokens_of(rest).len();
                lemma_values_split(tokens, pos, next, end);
                assert(values(tokens, pos, next).len() == next - pos);
            },
        }
    }
}

} // verus!
