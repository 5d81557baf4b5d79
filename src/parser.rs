//! The recursive-descent parser, proved to read tokens as the grammar says.
use vstd::prelude::*;

use crate::ast::{
    exprs_view, inits_view, lemma_exprs_view_push, lemma_inits_view_push, lemma_params_view_push,
    lemma_schema_view_push, lemma_stmts_view_push, lemma_strings_view_push, params_view,
    schema_view, stmts_view, strings_view, Ast, ExprV, BinaryOp, Expr, Stmt, StmtV, Type, UnaryOp,
};
use crate::grammar::{
    additive_op, comparison_op, equality_op, kind_at, multiplicative_op, p_arg_list, p_args,
    p_block, p_block_stmts, p_call, p_comparison, p_comparison_rest, p_equality, p_equality_rest,
    p_expression, p_expression_statement, p_factor, p_factor_rest, p_function, p_if, p_inits,
    p_let, p_params, p_postfix, p_primary, p_program, p_return, p_schema, p_statement,
    p_struct, p_struct_literal, p_term, p_term_rest, p_type, p_type_alias, p_unary, p_variants,
    p_while, skip_opt, text_at, unary_op, Expected, ParseError, Parsed,
};
use crate::token::{tokens_view, Token, TokenKind, TokenView};

verus! {

/// What a reading by the parser comes to, in the terms of the grammar.
pub open spec fn outcome<T, V>(r: Result<(T, usize), ParseError>, f: spec_fn(T) -> V) -> Parsed<V> {
    match r {
        Ok((t, q)) => Ok((f(t), q as int)),
        Err(e) => Err(e),
    }
}

/// A successful reading ends after `p` (or at it, where `empty_ok` allows an
/// empty reading) and within the tokens.
pub open spec fn ends_within<T>(r: Result<(T, usize), ParseError>, p: int, n: int, empty_ok: bool) -> bool {
    r is Ok ==> (if empty_ok { p <= r->Ok_0.1 } else { p < r->Ok_0.1 }) && r->Ok_0.1 <= n
}

pub struct Parser {
    tokens: Vec<Token>,
    position: usize,
}

impl Parser {
    /// The tokens being parsed.
    pub closed spec fn toks(&self) -> Seq<TokenView> {
        tokens_view(self.tokens@)
    }

    /// The position of the next token to read.
    pub closed spec fn pos(&self) -> int {
        self.position as int
    }

    pub fn new(tokens: Vec<Token>) -> (r: Parser)
        ensures
            r.toks() == tokens_view(tokens@),
            r.pos() == 0,
    {
        Parser { tokens, position: 0 }
    }

    /// Parses the rest of the tokens as a program.
    #[verifier::loop_isolation(false)]
    pub fn parse(&mut self) -> (r: Result<Ast, ParseError>)
        requires
            old(self).pos() <= old(self).toks().len(),
        ensures
            final(self).toks() == old(self).toks(),
            match r {
                Ok(ast) => p_program(old(self).toks(), old(self).pos(), Seq::empty()) == Ok::<
                    (Seq<StmtV>, int),
                    ParseError,
                >((ast@, final(self).pos())),
                Err(e) => p_program(old(self).toks(), old(self).pos(), Seq::empty()) == Err::<
                    (Seq<StmtV>, int),
                    ParseError,
                >(e),
            },
    {
        let mut statements: Vec<Stmt> = Vec::new();
        let ghost start = self.position as int;
        loop
            invariant
                self.toks() == old(self).toks(),
                start <= self.pos() <= self.toks().len(),
                start == old(self).pos(),
                p_program(self.toks(), self.pos(), stmts_view(statements@)) == p_program(
                    self.toks(),
                    start,
                    Seq::empty(),
                ),
            decreases self.tokens@.len() - self.position,
        {
            let p = self.position;
            if self.kind(p) == TokenKind::Eof {
                return Ok(Ast::new(statements));
            }
            match self.statement(p) {
                Ok((s, q)) => {
                    proof {
                        lemma_stmts_view_push(statements@, s);
                    }
                    statements.push(s);
                    self.position = q;
                },
                Err(e) => return Err(e),
            }
        }
    }

    fn kind(&self, p: usize) -> (k: TokenKind)
        ensures
            k == kind_at(self.toks(), p as int),
            k != TokenKind::Eof ==> p < self.toks().len(),
            self.toks().len() <= usize::MAX,
    {
        if p < self.tokens.len() {
            self.tokens[p].kind
        } else {
            TokenKind::Eof
        }
    }

    fn text(&self, p: usize) -> (t: String)
        ensures
            t@ == text_at(self.toks(), p as int),
    {
        if p < self.tokens.len() {
            self.tokens[p].text.clone()
        } else {
            String::new()
        }
    }

    fn error<T>(&self, expected: Expected, p: usize) -> (r: Result<T, ParseError>)
        ensures
            r == Err::<T, ParseError>(ParseError { expected, found: kind_at(self.toks(), p as int) }),
    {
        Err(ParseError { expected, found: self.kind(p) })
    }

    fn skip(&self, p: usize, k: TokenKind) -> (q: usize)
        requires
            p <= self.toks().len(),
            k != TokenKind::Eof,
        ensures
            q == skip_opt(self.toks(), p as int, k),
            q <= self.toks().len(),
    {
        if self.kind(p) == k {
            p + 1
        } else {
            p
        }
    }

    fn statement(&self, p: usize) -> (r: Result<(Stmt, usize), ParseError>)
        requires
            p <= self.toks().len(),
        ensures
            outcome(r, |s: Stmt| s@) == p_statement(self.toks(), p as int),
            ends_within(r, p as int, self.toks().len() as int, false),
        decreases self.toks().len() - p, 12int,
    {
        match self.kind(p) {
            TokenKind::Let => self.let_statement(p),
            TokenKind::Fn => self.function(p),
            TokenKind::If => self.if_statement(p),
            TokenKind::While => self.while_statement(p),
            TokenKind::Return => self.return_statement(p),
            TokenKind::LeftBrace => match self.block(p) {
                Ok((stmts, q)) => Ok((Stmt::Block(stmts), q)),
                Err(e) => Err(e),
            },
            TokenKind::Struct => self.struct_declaration(p),
            TokenKind::Type => self.type_alias(p),
            _ => self.expression_statement(p),
        }
    }

    #[verifier::loop_isolation(false)]
    fn block(&self, p: usize) -> (r: Result<(Vec<Stmt>, usize), ParseError>)
        requires
            p <= self.toks().len(),
        ensures
            outcome(r, |v: Vec<Stmt>| stmts_view(v@)) == p_block(self.toks(), p as int),
            ends_within(r, p as int, self.toks().len() as int, false),
        decreases self.toks().len() - p, 0int,
    {
        if self.kind(p) != TokenKind::LeftBrace {
            return self.error(Expected::LeftBrace, p);
        }
        let mut stmts: Vec<Stmt> = Vec::new();
        let mut q = p + 1;
        loop
            invariant
                p < q <= self.toks().len(),
                kind_at(self.toks(), p as int) == TokenKind::LeftBrace,
                p_block_stmts(self.toks(), q as int, stmts_view(stmts@)) == p_block_stmts(
                    self.toks(),
                    p + 1,
                    Seq::empty(),
                ),
            decreases self.toks().len() - q,
        {
            let k = self.kind(q);
            if k == TokenKind::RightBrace {
                return Ok((stmts, q + 1));
            }
            if k == TokenKind::Eof {
                return self.error(Expected::RightBrace, q);
            }
            match self.statement(q) {
                Ok((s, r)) => {
                    proof {
                        lemma_stmts_view_push(stmts@, s);
                    }
                    stmts.push(s);
                    q = r;
                },
                Err(e) => return Err(e),
            }
        }
    }

    fn let_statement(&self, p: usize) -> (r: Result<(Stmt, usize), ParseError>)
        requires
            p < self.toks().len() <= usize::MAX,
        ensures
            outcome(r, |s: Stmt| s@) == p_let(self.toks(), p as int),
            ends_within(r, p as int, self.toks().len() as int, false),
        decreases self.toks().len() - p, 0int,
    {
        if self.kind(p + 1) != TokenKind::Identifier {
            return self.error(Expected::Identifier, p + 1);
        }
        let name = self.text(p + 1);
        if self.kind(p + 2) != TokenKind::Equal {
            return self.error(Expected::Equals, p + 2);
        }
        match self.expression(p + 3) {
            Ok((value, q)) => Ok((Stmt::Let { name, value }, self.skip(q, TokenKind::Semicolon))),
            Err(e) => Err(e),
        }
    }

    #[verifier::loop_isolation(false)]
    fn function(&self, p: usize) -> (r: Result<(Stmt, usize), ParseError>)
        requires
            p < self.toks().len() <= usize::MAX,
        ensures
            outcome(r, |s: Stmt| s@) == p_function(self.toks(), p as int),
            ends_within(r, p as int, self.toks().len() as int, false),
        decreases self.toks().len() - p, 0int,
    {
        if self.kind(p + 1) != TokenKind::Identifier {
            return self.error(Expected::Identifier, p + 1);
        }
        let name = self.text(p + 1);
        if self.kind(p + 2) != TokenKind::LeftParen {
            return self.error(Expected::LeftParen, p + 2);
        }
        let mut params: Vec<(String, Option<Type>)> = Vec::new();
        assert(params_view(params@) =~= Seq::empty());
        let mut q = p + 3;
        loop
            invariant
                p + 3 <= q <= self.toks().len(),
                kind_at(self.toks(), p + 2) == TokenKind::LeftParen,
                p_params(self.toks(), q as int, params_view(params@)) == p_params(
                    self.toks(),
                    p + 3,
                    Seq::empty(),
                ),
            decreases self.toks().len() - q,
        {
            let k = self.kind(q);
            if k == TokenKind::RightParen {
                break;
            }
            if k != TokenKind::Identifier {
                return self.error(Expected::ParameterName, q);
            }
            let param = self.text(q);
            let (ty, r) = if self.kind(q + 1) == TokenKind::Colon {
                match self.parse_type(q + 2) {
                    Ok((t, r)) => (Some(t), r),
                    Err(e) => return Err(e),
                }
            } else {
                (None, q + 1)
            };
            proof {
                lemma_params_view_push(params@, (param, ty));
            }
            params.push((param, ty));
            q = self.skip(r, TokenKind::Comma);
        }
        let (return_type, r) = if self.kind(q + 1) == TokenKind::Arrow {
            match self.parse_type(q + 2) {
                Ok((t, r)) => (Some(t), r),
                Err(e) => return Err(e),
            }
        } else {
            (None, q + 1)
        };
        match self.block(r) {
            Ok((body, end)) => Ok((Stmt::Function { name, params, return_type, body }, end)),
            Err(e) => Err(e),
        }
    }

    fn if_statement(&self, p: usize) -> (r: Result<(Stmt, usize), ParseError>)
        requires
            p < self.toks().len() <= usize::MAX,
        ensures
            outcome(r, |s: Stmt| s@) == p_if(self.toks(), p as int),
            ends_within(r, p as int, self.toks().len() as int, false),
        decreases self.toks().len() - p, 0int,
    {
        let (condition, q) = match self.expression(p + 1) {
            Ok(x) => x,
            Err(e) => return Err(e),
        };
        let (then_branch, r) = match self.block(q) {
            Ok(x) => x,
            Err(e) => return Err(e),
        };
        if self.kind(r) == TokenKind::Else {
            match self.block(r + 1) {
                Ok((else_branch, end)) => Ok(
                    (Stmt::If { condition, then_branch, else_branch: Some(else_branch) }, end),
                ),
                Err(e) => Err(e),
            }
        } else {
            Ok((Stmt::If { condition, then_branch, else_branch: None }, r))
        }
    }

    fn while_statement(&self, p: usize) -> (r: Result<(Stmt, usize), ParseError>)
        requires
            p < self.toks().len() <= usize::MAX,
        ensures
            outcome(r, |s: Stmt| s@) == p_while(self.toks(), p as int),
            ends_within(r, p as int, self.toks().len() as int, false),
        decreases self.toks().len() - p, 0int,
    {
        let (condition, q) = match self.expression(p + 1) {
            Ok(x) => x,
            Err(e) => return Err(e),
        };
        match self.block(q) {
            Ok((body, r)) => Ok((Stmt::While { condition, body }, r)),
            Err(e) => Err(e),
        }
    }

    fn return_statement(&self, p: usize) -> (r: Result<(Stmt, usize), ParseError>)
        requires
            p < self.toks().len() <= usize::MAX,
        ensures
            outcome(r, |s: Stmt| s@) == p_return(self.toks(), p as int),
            ends_within(r, p as int, self.toks().len() as int, false),
        decreases self.toks().len() - p, 0int,
    {
        let k = self.kind(p + 1);
        if k == TokenKind::Semicolon || k == TokenKind::RightBrace {
            return Ok((Stmt::Return(None), self.skip(p + 1, TokenKind::Semicolon)));
        }
        match self.expression(p + 1) {
            Ok((e, q)) => Ok((Stmt::Return(Some(e)), self.skip(q, TokenKind::Semicolon))),
            Err(e) => Err(e),
        }
    }

    #[verifier::loop_isolation(false)]
    fn struct_declaration(&self, p: usize) -> (r: Result<(Stmt, usize), ParseError>)
        requires
            p < self.toks().len() <= usize::MAX,
        ensures
            outcome(r, |s: Stmt| s@) == p_struct(self.toks(), p as int),
            ends_within(r, p as int, self.toks().len() as int, false),
    {
        if self.kind(p + 1) != TokenKind::Identifier {
            return self.error(Expected::Identifier, p + 1);
        }
        let name = self.text(p + 1);
        if self.kind(p + 2) != TokenKind::LeftBrace {
            return self.error(Expected::LeftBrace, p + 2);
        }
        let mut fields: Vec<(String, Type)> = Vec::new();
        assert(schema_view(fields@) =~= Seq::empty());
        let mut q = p + 3;
        loop
            invariant
                p + 3 <= q <= self.toks().len(),
                kind_at(self.toks(), p + 2) == TokenKind::LeftBrace,
                p_schema(self.toks(), q as int, schema_view(fields@)) == p_schema(
                    self.toks(),
                    p + 3,
                    Seq::empty(),
                ),
            decreases self.toks().len() - q,
        {
            let k = self.kind(q);
            if k == TokenKind::RightBrace {
                return Ok((Stmt::Struct { name, fields }, q + 1));
            }
            if k == TokenKind::Eof {
                return self.error(Expected::RightBrace, q);
            }
            if k != TokenKind::Identifier {
                return self.error(Expected::FieldName, q);
            }
            let field = self.text(q);
            if self.kind(q + 1) != TokenKind::Colon {
                return self.error(Expected::Colon, q + 1);
            }
            match self.parse_type(q + 2) {
                Ok((t, r)) => {
                    proof {
                        lemma_schema_view_push(fields@, (field, t));
                    }
                    fields.push((field, t));
                    q = self.skip(r, TokenKind::Comma);
                },
                Err(e) => return Err(e),
            }
        }
    }

    #[verifier::loop_isolation(false)]
    fn type_alias(&self, p: usize) -> (r: Result<(Stmt, usize), ParseError>)
        requires
            p < self.toks().len() <= usize::MAX,
        ensures
            outcome(r, |s: Stmt| s@) == p_type_alias(self.toks(), p as int),
            ends_within(r, p as int, self.toks().len() as int, false),
    {
        if self.kind(p + 1) != TokenKind::Identifier {
            return self.error(Expected::Identifier, p + 1);
        }
        let name = self.text(p + 1);
        if self.kind(p + 2) != TokenKind::Equal {
            return self.error(Expected::Equals, p + 2);
        }
        let mut variants: Vec<String> = Vec::new();
        assert(strings_view(variants@) =~= Seq::empty());
        let mut q = p + 3;
        loop
            invariant
                p + 3 <= q <= self.toks().len(),
                p_variants(self.toks(), q as int, strings_view(variants@)) == p_variants(
                    self.toks(),
                    p + 3,
                    Seq::empty(),
                ),
            decreases self.toks().len() - q,
        {
            if self.kind(q) != TokenKind::Str {
                return self.error(Expected::StringLiteral, q);
            }
            let v = self.text(q);
            proof {
                lemma_strings_view_push(variants@, v);
            }
            variants.push(v);
            if self.kind(q + 1) == TokenKind::Pipe {
                q = q + 2;
            } else {
                return Ok((Stmt::TypeAlias { name, variants }, q + 1));
            }
        }
    }

    fn expression_statement(&self, p: usize) -> (r: Result<(Stmt, usize), ParseError>)
        requires
            p <= self.toks().len(),
        ensures
            outcome(r, |s: Stmt| s@) == p_expression_statement(self.toks(), p as int),
            ends_within(r, p as int, self.toks().len() as int, false),
        decreases self.toks().len() - p, 10int,
    {
        match self.expression(p) {
            Ok((e, q)) => Ok((Stmt::Expression(e), self.skip(q, TokenKind::Semicolon))),
            Err(e) => Err(e),
        }
    }

    fn parse_type(&self, p: usize) -> (r: Result<(Type, usize), ParseError>)
        ensures
            outcome(r, |t: Type| t@) == p_type(self.toks(), p as int),
            ends_within(r, p as int, self.toks().len() as int, false),
    {
        match self.kind(p) {
            TokenKind::TypeStr => Ok((Type::Str, p + 1)),
            TokenKind::TypeNumber => Ok((Type::Number, p + 1)),
            TokenKind::TypeBool => Ok((Type::Bool, p + 1)),
            TokenKind::Identifier => Ok((Type::Custom(self.text(p)), p + 1)),
            _ => self.error(Expected::TypeAnnotation, p),
        }
    }

    fn expression(&self, p: usize) -> (r: Result<(Expr, usize), ParseError>)
        ensures
            outcome(r, |e: Expr| e@) == p_expression(self.toks(), p as int),
            ends_within(r, p as int, self.toks().len() as int, false),
        decreases self.toks().len() - p, 9int,
    {
        self.equality(p)
    }

    #[verifier::rlimit(30)]
    fn equality(&self, p: usize) -> (r: Result<(Expr, usize), ParseError>)
        ensures
            outcome(r, |e: Expr| e@) == p_equality(self.toks(), p as int),
            ends_within(r, p as int, self.toks().len() as int, false),
        decreases self.toks().len() - p, 8int,
    {
        let (mut expr, mut q) = match self.comparison(p) {
            Ok(x) => x,
            Err(e) => return Err(e),
        };
        loop
            invariant
                p < q <= self.toks().len(),
                p_equality_rest(self.toks(), q as int, expr@) == p_equality(self.toks(), p as int),
            decreases self.toks().len() - q,
        {
            let op = match equality_op_of(self.kind(q)) {
                Some(op) => op,
                None => return Ok((expr, q)),
            };
            match self.comparison(q + 1) {
                Ok((right, r)) => {
                    expr = Expr::Binary { left: Box::new(expr), operator: op, right: Box::new(right) };
                    q = r;
                },
                Err(e) => return Err(e),
            }
        }
    }

    #[verifier::rlimit(30)]
    fn comparison(&self, p: usize) -> (r: Result<(Expr, usize), ParseError>)
        ensures
            outcome(r, |e: Expr| e@) == p_comparison(self.toks(), p as int),
            ends_within(r, p as int, self.toks().len() as int, false),
        decreases self.toks().len() - p, 7int,
    {
        let (mut expr, mut q) = match self.term(p) {
            Ok(x) => x,
            Err(e) => return Err(e),
        };
        loop
            invariant
                p < q <= self.toks().len(),
                p_comparison_rest(self.toks(), q as int, expr@) == p_comparison(
                    self.toks(),
                    p as int,
                ),
            decreases self.toks().len() - q,
        {
            let op = match comparison_op_of(self.kind(q)) {
                Some(op) => op,
                None => return Ok((expr, q)),
            };
            match self.term(q + 1) {
                Ok((right, r)) => {
                    expr = Expr::Binary { left: Box::new(expr), operator: op, right: Box::new(right) };
                    q = r;
                },
                Err(e) => return Err(e),
            }
        }
    }

    fn term(&self, p: usize) -> (r: Result<(Expr, usize), ParseError>)
        ensures
            outcome(r, |e: Expr| e@) == p_term(self.toks(), p as int),
            ends_within(r, p as int, self.toks().len() as int, false),
        decreases self.toks().len() - p, 6int,
    {
        let (mut expr, mut q) = match self.factor(p) {
            Ok(x) => x,
            Err(e) => return Err(e),
        };
        loop
            invariant
                p < q <= self.toks().len(),
                p_term_rest(self.toks(), q as int, expr@) == p_term(self.toks(), p as int),
            decreases self.toks().len() - q,
        {
            let op = match additive_op_of(self.kind(q)) {
                Some(op) => op,
                None => return Ok((expr, q)),
            };
            match self.factor(q + 1) {
                Ok((right, r)) => {
                    expr = Expr::Binary { left: Box::new(expr), operator: op, right: Box::new(right) };
                    q = r;
                },
                Err(e) => return Err(e),
            }
        }
    }

    fn factor(&self, p: usize) -> (r: Result<(Expr, usize), ParseError>)
        ensures
            outcome(r, |e: Expr| e@) == p_factor(self.toks(), p as int),
            ends_within(r, p as int, self.toks().len() as int, false),
        decreases self.toks().len() - p, 5int,
    {
        let (mut expr, mut q) = match self.unary(p) {
            Ok(x) => x,
            Err(e) => return Err(e),
        };
        loop
            invariant
                p < q <= self.toks().len(),
                p_factor_rest(self.toks(), q as int, expr@) == p_factor(self.toks(), p as int),
            decreases self.toks().len() - q,
        {
            let op = match multiplicative_op_of(self.kind(q)) {
                Some(op) => op,
                None => return Ok((expr, q)),
            };
            match self.unary(q + 1) {
                Ok((right, r)) => {
                    expr = Expr::Binary { left: Box::new(expr), operator: op, right: Box::new(right) };
                    q = r;
                },
                Err(e) => return Err(e),
            }
        }
    }

    fn unary(&self, p: usize) -> (r: Result<(Expr, usize), ParseError>)
        ensures
            outcome(r, |e: Expr| e@) == p_unary(self.toks(), p as int),
            ends_within(r, p as int, self.toks().len() as int, false),
        decreases self.toks().len() - p, 4int,
    {
        match unary_op_of(self.kind(p)) {
            Some(op) => match self.unary(p + 1) {
                Ok((operand, q)) => Ok((Expr::Unary { operator: op, operand: Box::new(operand) }, q)),
                Err(e) => Err(e),
            },
            None => self.call(p),
        }
    }

    fn call(&self, p: usize) -> (r: Result<(Expr, usize), ParseError>)
        ensures
            outcome(r, |e: Expr| e@) == p_call(self.toks(), p as int),
            ends_within(r, p as int, self.toks().len() as int, false),
        decreases self.toks().len() - p, 3int,
    {
        let (expr, q) = match self.primary(p) {
            Ok(x) => x,
            Err(e) => return Err(e),
        };
        if let Expr::Identifier(name) = &expr {
            if self.kind(q) == TokenKind::LeftBrace && self.kind(q + 1) == TokenKind::Identifier
                && self.kind(q + 2) == TokenKind::Colon {
                return self.struct_literal(q, name.clone());
            }
        }
        self.postfix(q, expr)
    }

    #[verifier::loop_isolation(false)]
    #[verifier::rlimit(40)]
    fn postfix(&self, p: usize, expr: Expr) -> (r: Result<(Expr, usize), ParseError>)
        requires
            p <= self.toks().len(),
        ensures
            outcome(r, |e: Expr| e@) == p_postfix(self.toks(), p as int, expr@),
            ends_within(r, p as int, self.toks().len() as int, true),
        decreases self.toks().len() - p, 0int,
    {
        let ghost start = expr@;
        let mut expr = expr;
        let mut q = p;
        loop
            invariant
                p <= q <= self.toks().len(),
                p_postfix(self.toks(), q as int, expr@) == p_postfix(self.toks(), p as int, start),
            decreases self.toks().len() - q,
        {
            match self.kind(q) {
                TokenKind::LeftParen => {
                    let none: Vec<Expr> = Vec::new();
                    assert(exprs_view(none@) == Seq::<ExprV>::empty());
                    let (arguments, r) = match self.arguments(q + 1, none) {
                        Ok(x) => x,
                        Err(e) => return Err(e),
                    };
                    if self.kind(r) != TokenKind::RightParen {
                        return self.error(Expected::RightParen, r);
                    }
                    expr = Expr::Call { callee: Box::new(expr), arguments };
                    q = r + 1;
                },
                TokenKind::Dot => {
                    if self.kind(q + 1) != TokenKind::Identifier {
                        return self.error(Expected::FieldName, q + 1);
                    }
                    let field = self.text(q + 1);
                    if self.kind(q + 2) == TokenKind::LeftParen {
                        let mut first: Vec<Expr> = Vec::new();
                        proof {
                            lemma_exprs_view_push(first@, expr);
                        }
                        first.push(expr);
                        let (arguments, r) = match self.arguments(q + 3, first) {
                            Ok(x) => x,
                            Err(e) => return Err(e),
                        };
                        if self.kind(r) != TokenKind::RightParen {
                            return self.error(Expected::RightParen, r);
                        }
                        let callee = Expr::Identifier(field);
                        assert(callee@ == ExprV::Identifier(callee->Identifier_0@));
                        expr = Expr::Call { callee: Box::new(callee), arguments };
                        q = r + 1;
                    } else {
                        expr = Expr::FieldAccess { object: Box::new(expr), field };
                        q = q + 2;
                    }
                },
                _ => return Ok((expr, q)),
            }
        }
    }

    #[verifier::loop_isolation(false)]
    fn arguments(&self, p: usize, acc: Vec<Expr>) -> (r: Result<(Vec<Expr>, usize), ParseError>)
        requires
            p <= self.toks().len(),
        ensures
            outcome(r, |v: Vec<Expr>| exprs_view(v@)) == p_args(self.toks(), p as int, exprs_view(acc@)),
            ends_within(r, p as int, self.toks().len() as int, true),
        decreases self.toks().len() - p, 11int,
    {
        if self.kind(p) == TokenKind::RightParen {
            return Ok((acc, p));
        }
        let ghost acc0 = exprs_view(acc@);
        let mut acc = acc;
        let mut q = p;
        loop
            invariant
                p <= q <= self.toks().len(),
                p_arg_list(self.toks(), q as int, exprs_view(acc@)) == p_args(
                    self.toks(),
                    p as int,
                    acc0,
                ),
            decreases self.toks().len() - q,
        {
            match self.expression(q) {
                Ok((e, r)) => {
                    proof {
                        lemma_exprs_view_push(acc@, e);
                    }
                    acc.push(e);
                    if self.kind(r) == TokenKind::Comma {
                        q = r + 1;
                    } else {
                        return Ok((acc, r));
                    }
                },
                Err(e) => return Err(e),
            }
        }
    }

    #[verifier::loop_isolation(false)]
    fn struct_literal(&self, p: usize, name: String) -> (r: Result<(Expr, usize), ParseError>)
        requires
            p <= self.toks().len(),
        ensures
            outcome(r, |e: Expr| e@) == p_struct_literal(self.toks(), p as int, name@),
            ends_within(r, p as int, self.toks().len() as int, false),
        decreases self.toks().len() - p, 0int,
    {
        if self.kind(p) != TokenKind::LeftBrace {
            return self.error(Expected::LeftBrace, p);
        }
        let mut fields: Vec<(String, Expr)> = Vec::new();
        let mut q = p + 1;
        loop
            invariant
                p < q <= self.toks().len(),
                kind_at(self.toks(), p as int) == TokenKind::LeftBrace,
                p_inits(self.toks(), q as int, inits_view(fields@)) == p_inits(
                    self.toks(),
                    p + 1,
                    Seq::empty(),
                ),
            decreases self.toks().len() - q,
        {
            let k = self.kind(q);
            if k == TokenKind::RightBrace {
                return Ok((Expr::StructLiteral { name, fields }, q + 1));
            }
            if k == TokenKind::Eof {
                return self.error(Expected::RightBrace, q);
            }
            if k != TokenKind::Identifier {
                return self.error(Expected::FieldName, q);
            }
            let field = self.text(q);
            if self.kind(q + 1) != TokenKind::Colon {
                return self.error(Expected::Colon, q + 1);
            }
            match self.expression(q + 2) {
                Ok((value, r)) => {
                    proof {
                        lemma_inits_view_push(fields@, (field, value));
                    }
                    fields.push((field, value));
                    q = self.skip(r, TokenKind::Comma);
                },
                Err(e) => return Err(e),
            }
        }
    }

    fn primary(&self, p: usize) -> (r: Result<(Expr, usize), ParseError>)
        ensures
            outcome(r, |e: Expr| e@) == p_primary(self.toks(), p as int),
            ends_within(r, p as int, self.toks().len() as int, false),
        decreases self.toks().len() - p, 1int,
    {
        match self.kind(p) {
            TokenKind::Number => Ok((Expr::Number(self.text(p)), p + 1)),
            TokenKind::Str => Ok((Expr::String(self.text(p)), p + 1)),
            TokenKind::True => Ok((Expr::Boolean(true), p + 1)),
            TokenKind::False => Ok((Expr::Boolean(false), p + 1)),
            TokenKind::Nil => Ok((Expr::Nil, p + 1)),
            TokenKind::Identifier => Ok((Expr::Identifier(self.text(p)), p + 1)),
            TokenKind::LeftParen => match self.expression(p + 1) {
                Ok((e, q)) => {
                    if self.kind(q) == TokenKind::RightParen {
                        Ok((Expr::Grouping(Box::new(e)), q + 1))
                    } else {
                        self.error(Expected::RightParen, q)
                    }
                },
                Err(e) => Err(e),
            },
            _ => self.error(Expected::Expression, p),
        }
    }
}

fn equality_op_of(k: TokenKind) -> (r: Option<BinaryOp>)
    ensures
        r == equality_op(k),
{
    match k {
        TokenKind::EqualEqual => Some(BinaryOp::Equal),
        TokenKind::BangEqual => Some(BinaryOp::NotEqual),
        _ => None,
    }
}

fn comparison_op_of(k: TokenKind) -> (r: Option<BinaryOp>)
    ensures
        r == comparison_op(k),
{
    match k {
        TokenKind::Greater => Some(BinaryOp::Greater),
        TokenKind::GreaterEqual => Some(BinaryOp::GreaterEqual),
        TokenKind::Less => Some(BinaryOp::Less),
        TokenKind::LessEqual => Some(BinaryOp::LessEqual),
        _ => None,
    }
}

fn additive_op_of(k: TokenKind) -> (r: Option<BinaryOp>)
    ensures
        r == additive_op(k),
{
    match k {
        TokenKind::Plus => Some(BinaryOp::Add),
        TokenKind::Minus => Some(BinaryOp::Subtract),
        _ => None,
    }
}

fn multiplicative_op_of(k: TokenKind) -> (r: Option<BinaryOp>)
    ensures
        r == multiplicative_op(k),
{
    match k {
        TokenKind::Star => Some(BinaryOp::Multiply),
        TokenKind::Slash => Some(BinaryOp::Divide),
        _ => None,
    }
}

fn unary_op_of(k: TokenKind) -> (r: Option<UnaryOp>)
    ensures
        r == unary_op(k),
{
    match k {
        TokenKind::Bang => Some(UnaryOp::Not),
        TokenKind::Minus => Some(UnaryOp::Negate),
        _ => None,
    }
}

} // verus!
