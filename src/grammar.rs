//! The grammar of Weave, as a recursive-descent reading of a token sequence.
//!
//! Each `p_*` function reads one construct starting at a position and gives
//! its tree and the position after it, or the error at the first token that
//! the grammar does not accept there. Positions past the end read as
//! end-of-input. Positions only move forward; the checks of the form
//! `forward(toks, p, q)` say so where a reading goes on from the end of an
//! earlier one, which makes the definitions well founded.
use vstd::prelude::*;

use crate::ast::{BinaryOp, ExprV, StmtV, TypeV, UnaryOp};
use crate::token::{TokenKind, TokenView};

verus! {

/// What the parser expected where it stopped.
#[derive(Clone, Copy, Debug, PartialEq, Eq, Structural)]
pub enum Expected {
    Identifier,
    Equals,
    LeftParen,
    RightParen,
    LeftBrace,
    RightBrace,
    Colon,
    ParameterName,
    FieldName,
    TypeAnnotation,
    StringLiteral,
    Expression,
}

/// A parse fault: what was expected, and the kind of the token found instead.
#[derive(Clone, Copy, Debug, PartialEq, Eq, Structural)]
pub struct ParseError {
    pub expected: Expected,
    pub found: TokenKind,
}

pub type Parsed<V> = Result<(V, int), ParseError>;

pub open spec fn kind_at(toks: Seq<TokenView>, p: int) -> TokenKind {
    if 0 <= p < toks.len() {
        toks[p].kind
    } else {
        TokenKind::Eof
    }
}

pub open spec fn text_at(toks: Seq<TokenView>, p: int) -> Seq<char> {
    if 0 <= p < toks.len() {
        toks[p].text
    } else {
        Seq::empty()
    }
}

pub open spec fn fail<V>(expected: Expected, toks: Seq<TokenView>, p: int) -> Parsed<V> {
    Err(ParseError { expected, found: kind_at(toks, p) })
}

pub open spec fn forward(toks: Seq<TokenView>, p: int, q: int) -> bool {
    p < q <= toks.len()
}

/// The position after an optional token of the given kind.
pub open spec fn skip_opt(toks: Seq<TokenView>, p: int, k: TokenKind) -> int {
    if kind_at(toks, p) == k {
        p + 1
    } else {
        p
    }
}

pub open spec fn equality_op(k: TokenKind) -> Option<BinaryOp> {
    match k {
        TokenKind::EqualEqual => Some(BinaryOp::Equal),
        TokenKind::BangEqual => Some(BinaryOp::NotEqual),
        _ => None,
    }
}

pub open spec fn comparison_op(k: TokenKind) -> Option<BinaryOp> {
    match k {
        TokenKind::Greater => Some(BinaryOp::Greater),
        TokenKind::GreaterEqual => Some(BinaryOp::GreaterEqual),
        TokenKind::Less => Some(BinaryOp::Less),
        TokenKind::LessEqual => Some(BinaryOp::LessEqual),
        _ => None,
    }
}

pub open spec fn additive_op(k: TokenKind) -> Option<BinaryOp> {
    match k {
        TokenKind::Plus => Some(BinaryOp::Add),
        TokenKind::Minus => Some(BinaryOp::Subtract),
        _ => None,
    }
}

pub open spec fn multiplicative_op(k: TokenKind) -> Option<BinaryOp> {
    match k {
        TokenKind::Star => Some(BinaryOp::Multiply),
        TokenKind::Slash => Some(BinaryOp::Divide),
        _ => None,
    }
}

pub open spec fn unary_op(k: TokenKind) -> Option<UnaryOp> {
    match k {
        TokenKind::Bang => Some(UnaryOp::Not),
        TokenKind::Minus => Some(UnaryOp::Negate),
        _ => None,
    }
}

pub open spec fn binary(l: ExprV, op: BinaryOp, r: ExprV) -> ExprV {
    ExprV::Binary(Box::new(l), op, Box::new(r))
}

/// `type := "str" | "number" | "bool" | IDENT`
pub open spec fn p_type(toks: Seq<TokenView>, p: int) -> Parsed<TypeV> {
    match kind_at(toks, p) {
        TokenKind::TypeStr => Ok((TypeV::Str, p + 1)),
        TokenKind::TypeNumber => Ok((TypeV::Number, p + 1)),
        TokenKind::TypeBool => Ok((TypeV::Bool, p + 1)),
        TokenKind::Identifier => Ok((TypeV::Custom(text_at(toks, p)), p + 1)),
        _ => fail(Expected::TypeAnnotation, toks, p),
    }
}

/// `expr := equality`
pub open spec fn p_expression(toks: Seq<TokenView>, p: int) -> Parsed<ExprV>
    decreases toks.len() - p, 9int,
{
    p_equality(toks, p)
}

/// A left-associative chain of `==` and `!=`.
pub open spec fn p_equality(toks: Seq<TokenView>, p: int) -> Parsed<ExprV>
    decreases toks.len() - p, 8int,
{
    match p_comparison(toks, p) {
        Ok((l, q)) => if forward(toks, p, q) {
            p_equality_rest(toks, q, l)
        } else {
            fail(Expected::Expression, toks, p)
        },
        Err(e) => Err(e),
    }
}

pub open spec fn p_equality_rest(toks: Seq<TokenView>, p: int, acc: ExprV) -> Parsed<ExprV>
    decreases toks.len() - p, 0int,
{
    match equality_op(kind_at(toks, p)) {
        Some(op) => match p_comparison(toks, p + 1) {
            Ok((r, q)) => if forward(toks, p, q) {
                p_equality_rest(toks, q, binary(acc, op, r))
            } else {
                fail(Expected::Expression, toks, p)
            },
            Err(e) => Err(e),
        },
        None => Ok((acc, p)),
    }
}

/// A left-associative chain of `<`, `<=`, `>`, `>=`.
pub open spec fn p_comparison(toks: Seq<TokenView>, p: int) -> Parsed<ExprV>
    decreases toks.len() - p, 7int,
{
    match p_term(toks, p) {
        Ok((l, q)) => if forward(toks, p, q) {
            p_comparison_rest(toks, q, l)
        } else {
            fail(Expected::Expression, toks, p)
        },
        Err(e) => Err(e),
    }
}

pub open spec fn p_comparison_rest(toks: Seq<TokenView>, p: int, acc: ExprV) -> Parsed<ExprV>
    decreases toks.len() - p, 0int,
{
    match comparison_op(kind_at(toks, p)) {
        Some(op) => match p_term(toks, p + 1) {
            Ok((r, q)) => if forward(toks, p, q) {
                p_comparison_rest(toks, q, binary(acc, op, r))
            } else {
                fail(Expected::Expression, toks, p)
            },
            Err(e) => Err(e),
        },
        None => Ok((acc, p)),
    }
}

/// A left-associative chain of `+` and `-`.
pub open spec fn p_term(toks: Seq<TokenView>, p: int) -> Parsed<ExprV>
    decreases toks.len() - p, 6int,
{
    match p_factor(toks, p) {
        Ok((l, q)) => if forward(toks, p, q) {
            p_term_rest(toks, q, l)
        } else {
            fail(Expected::Expression, toks, p)
        },
        Err(e) => Err(e),
    }
}

pub open spec fn p_term_rest(toks: Seq<TokenView>, p: int, acc: ExprV) -> Parsed<ExprV>
    decreases toks.len() - p, 0int,
{
    match additive_op(kind_at(toks, p)) {
        Some(op) => match p_factor(toks, p + 1) {
            Ok((r, q)) => if forward(toks, p, q) {
                p_term_rest(toks, q, binary(acc, op, r))
            } else {
                fail(Expected::Expression, toks, p)
            },
            Err(e) => Err(e),
        },
        None => Ok((acc, p)),
    }
}

/// A left-associative chain of `*` and `/`.
pub open spec fn p_factor(toks: Seq<TokenView>, p: int) -> Parsed<ExprV>
    decreases toks.len() - p, 5int,
{
    match p_unary(toks, p) {
        Ok((l, q)) => if forward(toks, p, q) {
            p_factor_rest(toks, q, l)
        } else {
            fail(Expected::Expression, toks, p)
        },
        Err(e) => Err(e),
    }
}

pub open spec fn p_factor_rest(toks: Seq<TokenView>, p: int, acc: ExprV) -> Parsed<ExprV>
    decreases toks.len() - p, 0int,
{
    match multiplicative_op(kind_at(toks, p)) {
        Some(op) => match p_unary(toks, p + 1) {
            Ok((r, q)) => if forward(toks, p, q) {
                p_factor_rest(toks, q, binary(acc, op, r))
            } else {
                fail(Expected::Expression, toks, p)
            },
            Err(e) => Err(e),
        },
        None => Ok((acc, p)),
    }
}

/// Prefix `!` and `-`, right-associative.
pub open spec fn p_unary(toks: Seq<TokenView>, p: int) -> Parsed<ExprV>
    decreases toks.len() - p, 4int,
{
    match unary_op(kind_at(toks, p)) {
        Some(op) => match p_unary(toks, p + 1) {
            Ok((e, q)) => Ok((ExprV::Unary(op, Box::new(e)), q)),
            Err(e) => Err(e),
        },
        None => p_call(toks, p),
    }
}

/// Whether an identifier followed by the tokens at `p` starts a struct
/// literal: `{`, an identifier, then `:`.
pub open spec fn struct_literal_ahead(toks: Seq<TokenView>, p: int) -> bool {
    &&& kind_at(toks, p) == TokenKind::LeftBrace
    &&& kind_at(toks, p + 1) == TokenKind::Identifier
    &&& kind_at(toks, p + 2) == TokenKind::Colon
}

/// A primary expression followed by calls and field accesses, or a struct
/// literal.
pub open spec fn p_call(toks: Seq<TokenView>, p: int) -> Parsed<ExprV>
    decreases toks.len() - p, 3int,
{
    match p_primary(toks, p) {
        Ok((e, q)) => if forward(toks, p, q) {
            if e is Identifier && struct_literal_ahead(toks, q) {
                p_struct_literal(toks, q, e->Identifier_0)
            } else {
                p_postfix(toks, q, e)
            }
        } else {
            fail(Expected::Expression, toks, p)
        },
        Err(e) => Err(e),
    }
}

/// `( args )` and `. name`, and `. name ( args )`, which calls `name` with
/// the object as first argument.
pub open spec fn p_postfix(toks: Seq<TokenView>, p: int, acc: ExprV) -> Parsed<ExprV>
    decreases toks.len() - p, 0int,
{
    match kind_at(toks, p) {
        TokenKind::LeftParen => match p_args(toks, p + 1, Seq::empty()) {
            Ok((args, q)) => if kind_at(toks, q) != TokenKind::RightParen {
                fail(Expected::RightParen, toks, q)
            } else if forward(toks, p, q + 1) {
                p_postfix(toks, q + 1, ExprV::Call(Box::new(acc), args))
            } else {
                fail(Expected::Expression, toks, p)
            },
            Err(e) => Err(e),
        },
        TokenKind::Dot => if kind_at(toks, p + 1) != TokenKind::Identifier {
            fail(Expected::FieldName, toks, p + 1)
        } else if kind_at(toks, p + 2) == TokenKind::LeftParen {
            match p_args(toks, p + 3, seq![acc]) {
                Ok((args, q)) => if kind_at(toks, q) != TokenKind::RightParen {
                    fail(Expected::RightParen, toks, q)
                } else if forward(toks, p, q + 1) {
                    p_postfix(
                        toks,
                        q + 1,
                        ExprV::Call(Box::new(ExprV::Identifier(text_at(toks, p + 1))), args),
                    )
                } else {
                    fail(Expected::Expression, toks, p)
                },
                Err(e) => Err(e),
            }
        } else {
            p_postfix(toks, p + 2, ExprV::FieldAccess(Box::new(acc), text_at(toks, p + 1)))
        },
        _ => Ok((acc, p)),
    }
}

/// A possibly empty, comma-separated argument list, appended to `acc`; it
/// stops before the `)`.
pub open spec fn p_args(toks: Seq<TokenView>, p: int, acc: Seq<ExprV>) -> Parsed<Seq<ExprV>>
    decreases toks.len() - p, 11int,
{
    if kind_at(toks, p) == TokenKind::RightParen {
        Ok((acc, p))
    } else {
        p_arg_list(toks, p, acc)
    }
}

pub open spec fn p_arg_list(toks: Seq<TokenView>, p: int, acc: Seq<ExprV>) -> Parsed<Seq<ExprV>>
    decreases toks.len() - p, 10int,
{
    match p_expression(toks, p) {
        Ok((e, q)) => if kind_at(toks, q) == TokenKind::Comma {
            if forward(toks, p, q + 1) {
                p_arg_list(toks, q + 1, acc.push(e))
            } else {
                fail(Expected::Expression, toks, p)
            }
        } else {
            Ok((acc.push(e), q))
        },
        Err(e) => Err(e),
    }
}

/// `NAME { field: expr [,] ... }`; `p` is at the `{`.
pub open spec fn p_struct_literal(toks: Seq<TokenView>, p: int, name: Seq<char>) -> Parsed<ExprV>
    decreases toks.len() - p, 0int,
{
    if kind_at(toks, p) != TokenKind::LeftBrace {
        fail(Expected::LeftBrace, toks, p)
    } else {
        match p_inits(toks, p + 1, Seq::empty()) {
            Ok((fs, q)) => if kind_at(toks, q) == TokenKind::RightBrace {
                Ok((ExprV::StructLiteral(name, fs), q + 1))
            } else {
                fail(Expected::RightBrace, toks, q)
            },
            Err(e) => Err(e),
        }
    }
}

pub open spec fn p_inits(toks: Seq<TokenView>, p: int, acc: Seq<(Seq<char>, ExprV)>) -> Parsed<
    Seq<(Seq<char>, ExprV)>,
>
    decreases toks.len() - p, 0int,
{
    let k = kind_at(toks, p);
    if k == TokenKind::RightBrace || k == TokenKind::Eof {
        Ok((acc, p))
    } else if k != TokenKind::Identifier {
        fail(Expected::FieldName, toks, p)
    } else if kind_at(toks, p + 1) != TokenKind::Colon {
        fail(Expected::Colon, toks, p + 1)
    } else {
        match p_expression(toks, p + 2) {
            Ok((e, q)) => {
                let next = skip_opt(toks, q, TokenKind::Comma);
                if forward(toks, p, next) {
                    p_inits(toks, next, acc.push((text_at(toks, p), e)))
                } else {
                    fail(Expected::Expression, toks, p)
                }
            },
            Err(e) => Err(e),
        }
    }
}

/// `NUMBER | STRING | true | false | nil | IDENT | ( expr )`
pub open spec fn p_primary(toks: Seq<TokenView>, p: int) -> Parsed<ExprV>
    decreases toks.len() - p, 1int,
{
    match kind_at(toks, p) {
        TokenKind::Number => Ok((ExprV::Number(text_at(toks, p)), p + 1)),
        TokenKind::Str => Ok((ExprV::String(text_at(toks, p)), p + 1)),
        TokenKind::True => Ok((ExprV::Boolean(true), p + 1)),
        TokenKind::False => Ok((ExprV::Boolean(false), p + 1)),
        TokenKind::Nil => Ok((ExprV::Nil, p + 1)),
        TokenKind::Identifier => Ok((ExprV::Identifier(text_at(toks, p)), p + 1)),
        TokenKind::LeftParen => match p_expression(toks, p + 1) {
            Ok((e, q)) => if kind_at(toks, q) == TokenKind::RightParen {
                Ok((ExprV::Grouping(Box::new(e)), q + 1))
            } else {
                fail(Expected::RightParen, toks, q)
            },
            Err(e) => Err(e),
        },
        _ => fail(Expected::Expression, toks, p),
    }
}

/// `{ stmt* }`: the statements of a block and the position after its `}`.
pub open spec fn p_block(toks: Seq<TokenView>, p: int) -> Parsed<Seq<StmtV>>
    decreases toks.len() - p, 0int,
{
    if kind_at(toks, p) != TokenKind::LeftBrace {
        fail(Expected::LeftBrace, toks, p)
    } else {
        match p_block_stmts(toks, p + 1, Seq::empty()) {
            Ok((ss, q)) => if kind_at(toks, q) == TokenKind::RightBrace {
                Ok((ss, q + 1))
            } else {
                fail(Expected::RightBrace, toks, q)
            },
            Err(e) => Err(e),
        }
    }
}

/// Statements appended to `acc` up to a `}` or the end of input.
pub open spec fn p_block_stmts(toks: Seq<TokenView>, p: int, acc: Seq<StmtV>) -> Parsed<
    Seq<StmtV>,
>
    decreases toks.len() - p, 13int,
{
    let k = kind_at(toks, p);
    if k == TokenKind::RightBrace || k == TokenKind::Eof {
        Ok((acc, p))
    } else {
        match p_statement(toks, p) {
            Ok((s, q)) => if forward(toks, p, q) {
                p_block_stmts(toks, q, acc.push(s))
            } else {
                fail(Expected::Expression, toks, p)
            },
            Err(e) => Err(e),
        }
    }
}

/// Top-level statements appended to `acc`, up to the end of input.
pub open spec fn p_program(toks: Seq<TokenView>, p: int, acc: Seq<StmtV>) -> Parsed<Seq<StmtV>>
    decreases toks.len() - p, 13int,
{
    if kind_at(toks, p) == TokenKind::Eof {
        Ok((acc, p))
    } else {
        match p_statement(toks, p) {
            Ok((s, q)) => if forward(toks, p, q) {
                p_program(toks, q, acc.push(s))
            } else {
                fail(Expected::Expression, toks, p)
            },
            Err(e) => Err(e),
        }
    }
}

/// A statement, chosen by its first token.
pub open spec fn p_statement(toks: Seq<TokenView>, p: int) -> Parsed<StmtV>
    decreases toks.len() - p, 12int,
{
    match kind_at(toks, p) {
        TokenKind::Let => p_let(toks, p),
        TokenKind::Fn => p_function(toks, p),
        TokenKind::If => p_if(toks, p),
        TokenKind::While => p_while(toks, p),
        TokenKind::Return => p_return(toks, p),
        TokenKind::LeftBrace => match p_block(toks, p) {
            Ok((ss, q)) => Ok((StmtV::Block(ss), q)),
            Err(e) => Err(e),
        },
        TokenKind::Struct => p_struct(toks, p),
        TokenKind::Type => p_type_alias(toks, p),
        _ => p_expression_statement(toks, p),
    }
}

/// `let NAME = expr [;]`
pub open spec fn p_let(toks: Seq<TokenView>, p: int) -> Parsed<StmtV>
    decreases toks.len() - p, 0int,
{
    if kind_at(toks, p + 1) != TokenKind::Identifier {
        fail(Expected::Identifier, toks, p + 1)
    } else if kind_at(toks, p + 2) != TokenKind::Equal {
        fail(Expected::Equals, toks, p + 2)
    } else {
        match p_expression(toks, p + 3) {
            Ok((e, q)) => Ok(
                (StmtV::Let(text_at(toks, p + 1), e), skip_opt(toks, q, TokenKind::Semicolon)),
            ),
            Err(e) => Err(e),
        }
    }
}

/// `fn NAME ( params ) [-> type] { body }`
pub open spec fn p_function(toks: Seq<TokenView>, p: int) -> Parsed<StmtV>
    decreases toks.len() - p, 0int,
{
    if kind_at(toks, p + 1) != TokenKind::Identifier {
        fail(Expected::Identifier, toks, p + 1)
    } else if kind_at(toks, p + 2) != TokenKind::LeftParen {
        fail(Expected::LeftParen, toks, p + 2)
    } else {
        match p_params(toks, p + 3, Seq::empty()) {
            Ok((ps, q)) => {
                let ret = if kind_at(toks, q + 1) == TokenKind::Arrow {
                    match p_type(toks, q + 2) {
                        Ok((t, r)) => Ok((Some(t), r)),
                        Err(e) => Err(e),
                    }
                } else {
                    Ok((None, q + 1))
                };
                match ret {
                    Ok((rt, r)) => if forward(toks, p, r) {
                        match p_block(toks, r) {
                            Ok((body, end)) => Ok(
                                (StmtV::Function(text_at(toks, p + 1), ps, rt, body), end),
                            ),
                            Err(e) => Err(e),
                        }
                    } else {
                        fail(Expected::Expression, toks, p)
                    },
                    Err(e) => Err(e),
                }
            },
            Err(e) => Err(e),
        }
    }
}

/// Parameters `NAME [: type]`, each optionally followed by a comma, appended
/// to `acc`; it stops at the `)`.
pub open spec fn p_params(
    toks: Seq<TokenView>,
    p: int,
    acc: Seq<(Seq<char>, Option<TypeV>)>,
) -> Parsed<Seq<(Seq<char>, Option<TypeV>)>>
    decreases toks.len() - p, 0int,
{
    let k = kind_at(toks, p);
    if k == TokenKind::RightParen {
        Ok((acc, p))
    } else if k != TokenKind::Identifier {
        fail(Expected::ParameterName, toks, p)
    } else {
        let ty = if kind_at(toks, p + 1) == TokenKind::Colon {
            match p_type(toks, p + 2) {
                Ok((t, q)) => Ok((Some(t), q)),
                Err(e) => Err(e),
            }
        } else {
            Ok((None, p + 1))
        };
        match ty {
            Ok((t, q)) => {
                let next = skip_opt(toks, q, TokenKind::Comma);
                if forward(toks, p, next) {
                    p_params(toks, next, acc.push((text_at(toks, p), t)))
                } else {
                    fail(Expected::Expression, toks, p)
                }
            },
            Err(e) => Err(e),
        }
    }
}

/// `if expr { ... } [else { ... }]`
pub open spec fn p_if(toks: Seq<TokenView>, p: int) -> Parsed<StmtV>
    decreases toks.len() - p, 0int,
{
    match p_expression(toks, p + 1) {
        Ok((c, q)) => if forward(toks, p, q) {
            match p_block(toks, q) {
                Ok((th, r)) => if kind_at(toks, r) == TokenKind::Else {
                    if forward(toks, p, r + 1) {
                        match p_block(toks, r + 1) {
                            Ok((el, end)) => Ok((StmtV::If(c, th, Some(el)), end)),
                            Err(e) => Err(e),
                        }
                    } else {
                        fail(Expected::Expression, toks, p)
                    }
                } else {
                    Ok((StmtV::If(c, th, None), r))
                },
                Err(e) => Err(e),
            }
        } else {
            fail(Expected::Expression, toks, p)
        },
        Err(e) => Err(e),
    }
}

/// `while expr { ... }`
pub open spec fn p_while(toks: Seq<TokenView>, p: int) -> Parsed<StmtV>
    decreases toks.len() - p, 0int,
{
    match p_expression(toks, p + 1) {
        Ok((c, q)) => if forward(toks, p, q) {
            match p_block(toks, q) {
                Ok((body, r)) => Ok((StmtV::While(c, body), r)),
                Err(e) => Err(e),
            }
        } else {
            fail(Expected::Expression, toks, p)
        },
        Err(e) => Err(e),
    }
}

/// `return [expr] [;]`; the expression is left out before `;` or `}`.
pub open spec fn p_return(toks: Seq<TokenView>, p: int) -> Parsed<StmtV>
    decreases toks.len() - p, 0int,
{
    let k = kind_at(toks, p + 1);
    if k == TokenKind::Semicolon || k == TokenKind::RightBrace {
        Ok((StmtV::Return(None), skip_opt(toks, p + 1, TokenKind::Semicolon)))
    } else {
        match p_expression(toks, p + 1) {
            Ok((e, q)) => Ok((StmtV::Return(Some(e)), skip_opt(toks, q, TokenKind::Semicolon))),
            Err(e) => Err(e),
        }
    }
}

/// `struct NAME { field: type [,] ... }`
pub open spec fn p_struct(toks: Seq<TokenView>, p: int) -> Parsed<StmtV> {
    if kind_at(toks, p + 1) != TokenKind::Identifier {
        fail(Expected::Identifier, toks, p + 1)
    } else if kind_at(toks, p + 2) != TokenKind::LeftBrace {
        fail(Expected::LeftBrace, toks, p + 2)
    } else {
        match p_schema(toks, p + 3, Seq::empty()) {
            Ok((fs, q)) => if kind_at(toks, q) == TokenKind::RightBrace {
                Ok((StmtV::Struct(text_at(toks, p + 1), fs), q + 1))
            } else {
                fail(Expected::RightBrace, toks, q)
            },
            Err(e) => Err(e),
        }
    }
}

/// Field declarations appended to `acc`, up to a `}` or the end of input.
pub open spec fn p_schema(toks: Seq<TokenView>, p: int, acc: Seq<(Seq<char>, TypeV)>) -> Parsed<
    Seq<(Seq<char>, TypeV)>,
>
    decreases toks.len() - p,
{
    let k = kind_at(toks, p);
    if k == TokenKind::RightBrace || k == TokenKind::Eof {
        Ok((acc, p))
    } else if k != TokenKind::Identifier {
        fail(Expected::FieldName, toks, p)
    } else if kind_at(toks, p + 1) != TokenKind::Colon {
        fail(Expected::Colon, toks, p + 1)
    } else {
        match p_type(toks, p + 2) {
            Ok((t, q)) => p_schema(
                toks,
                skip_opt(toks, q, TokenKind::Comma),
                acc.push((text_at(toks, p), t)),
            ),
            Err(e) => Err(e),
        }
    }
}

/// `type NAME = STRING ("|" STRING)*`
pub open spec fn p_type_alias(toks: Seq<TokenView>, p: int) -> Parsed<StmtV> {
    if kind_at(toks, p + 1) != TokenKind::Identifier {
        fail(Expected::Identifier, toks, p + 1)
    } else if kind_at(toks, p + 2) != TokenKind::Equal {
        fail(Expected::Equals, toks, p + 2)
    } else {
        match p_variants(toks, p + 3, Seq::empty()) {
            Ok((vs, q)) => Ok((StmtV::TypeAlias(text_at(toks, p + 1), vs), q)),
            Err(e) => Err(e),
        }
    }
}

/// String variants separated by `|`, appended to `acc`.
pub open spec fn p_variants(toks: Seq<TokenView>, p: int, acc: Seq<Seq<char>>) -> Parsed<
    Seq<Seq<char>>,
>
    decreases toks.len() - p,
{
    if kind_at(toks, p) != TokenKind::Str {
        fail(Expected::StringLiteral, toks, p)
    } else if kind_at(toks, p + 1) == TokenKind::Pipe {
        p_variants(toks, p + 2, acc.push(text_at(toks, p)))
    } else {
        Ok((acc.push(text_at(toks, p)), p + 1))
    }
}

/// `expr [;]`
pub open spec fn p_expression_statement(toks: Seq<TokenView>, p: int) -> Parsed<StmtV>
    decreases toks.len() - p, 10int,
{
    match p_expression(toks, p) {
        Ok((e, q)) => Ok((StmtV::Expression(e), skip_opt(toks, q, TokenKind::Semicolon))),
        Err(e) => Err(e),
    }
}

/// The program that a token sequence spells, or the first parse fault.
pub open spec fn parse_tokens(toks: Seq<TokenView>) -> Result<Seq<StmtV>, ParseError> {
    match p_program(toks, 0, Seq::empty()) {
        Ok((ss, _)) => Ok(ss),
        Err(e) => Err(e),
    }
}

/// A token sequence spells at most one program: parsing is a function of
/// the tokens, so two parse trees of one sequence are the same tree.
pub proof fn lemma_parse_tree_unique(toks: Seq<TokenView>, a: Seq<StmtV>, b: Seq<StmtV>)
    requires
        parse_tokens(toks) == Ok::<Seq<StmtV>, ParseError>(a),
        parse_tokens(toks) == Ok::<Seq<StmtV>, ParseError>(b),
    ensures
        a == b,
{
}

/// In `if x { ... }` with `x` an identifier, where the `{` is not followed by
/// an identifier and a `:`, the condition is the identifier alone and the
/// `{` opens the then-block, not a struct literal.
pub proof fn lemma_if_identifier_condition(toks: Seq<TokenView>, p: int)
    requires
        kind_at(toks, p) == TokenKind::If,
        kind_at(toks, p + 1) == TokenKind::Identifier,
        kind_at(toks, p + 2) == TokenKind::LeftBrace,
        !(kind_at(toks, p + 3) == TokenKind::Identifier && kind_at(toks, p + 4)
            == TokenKind::Colon),
    ensures
        p_expression(toks, p + 1) == Ok::<(ExprV, int), ParseError>(
            (ExprV::Identifier(text_at(toks, p + 1)), p + 2),
        ),
        p_if(toks, p) is Ok ==> {
            let st = p_if(toks, p)->Ok_0.0;
            &&& st is If
            &&& st->If_0 == ExprV::Identifier(text_at(toks, p + 1))
            &&& p_block(toks, p + 2) is Ok
            &&& st->If_1 == p_block(toks, p + 2)->Ok_0.0
        },
{
    lemma_identifier_before_block(toks, p + 1);
}

/// An identifier followed by a `{` that does not open a struct literal is
/// an expression of its own, ending before the `{`.
proof fn lemma_identifier_before_block(toks: Seq<TokenView>, q: int)
    requires
        kind_at(toks, q) == TokenKind::Identifier,
        kind_at(toks, q + 1) == TokenKind::LeftBrace,
        !(kind_at(toks, q + 2) == TokenKind::Identifier && kind_at(toks, q + 3)
            == TokenKind::Colon),
    ensures
        p_expression(toks, q) == Ok::<(ExprV, int), ParseError>(
            (ExprV::Identifier(text_at(toks, q)), q + 1),
        ),
{
    let x = ExprV::Identifier(text_at(toks, q));
    let ok = Ok::<(ExprV, int), ParseError>((x, q + 1));
    assert(p_primary(toks, q) == ok);
    assert(p_call(toks, q) == ok) by {
        assert(!struct_literal_ahead(toks, q + 1));
        assert(p_postfix(toks, q + 1, x) == ok);
    }
    assert(p_unary(toks, q) == ok);
    assert(p_factor(toks, q) == ok) by {
        assert(p_factor_rest(toks, q + 1, x) == ok);
    }
    assert(p_term(toks, q) == ok) by {
        assert(p_term_rest(toks, q + 1, x) == ok);
    }
    assert(p_comparison(toks, q) == ok) by {
        assert(p_comparison_rest(toks, q + 1, x) == ok);
    }
    assert(p_equality(toks, q) == ok) by {
        assert(p_equality_rest(toks, q + 1, x) == ok);
    }
}

} // verus!
