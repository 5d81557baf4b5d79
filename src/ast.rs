//! The syntax tree, and its mathematical model.
use vstd::prelude::*;

verus! {

broadcast use vstd::std_specs::vec::group_vec_axioms, vstd::seq::group_seq_axioms;

/// A type annotation. Custom names are resolved when the program runs.
#[derive(Clone, Debug, PartialEq, Eq)]
pub enum Type {
    Str,
    Number,
    Bool,
    Custom(String),
}

#[derive(Clone, Copy, Debug, PartialEq, Eq, Structural)]
pub enum BinaryOp {
    Add,
    Subtract,
    Multiply,
    Divide,
    Equal,
    NotEqual,
    Less,
    LessEqual,
    Greater,
    GreaterEqual,
}

#[derive(Clone, Copy, Debug, PartialEq, Eq, Structural)]
pub enum UnaryOp {
    Negate,
    Not,
}

/// An expression. A number literal keeps its lexeme.
#[derive(Debug)]
pub enum Expr {
    String(String),
    Number(String),
    Boolean(bool),
    Nil,
    Identifier(String),
    Binary { left: Box<Expr>, operator: BinaryOp, right: Box<Expr> },
    Unary { operator: UnaryOp, operand: Box<Expr> },
    Call { callee: Box<Expr>, arguments: Vec<Expr> },
    Grouping(Box<Expr>),
    StructLiteral { name: String, fields: Vec<(String, Expr)> },
    FieldAccess { object: Box<Expr>, field: String },
}

#[derive(Debug)]
pub enum Stmt {
    Expression(Expr),
    Let { name: String, value: Expr },
    Function {
        name: String,
        params: Vec<(String, Option<Type>)>,
        return_type: Option<Type>,
        body: Vec<Stmt>,
    },
    If { condition: Expr, then_branch: Vec<Stmt>, else_branch: Option<Vec<Stmt>> },
    While { condition: Expr, body: Vec<Stmt> },
    Return(Option<Expr>),
    Block(Vec<Stmt>),
    Struct { name: String, fields: Vec<(String, Type)> },
    TypeAlias { name: String, variants: Vec<String> },
}

/// A whole program: its top-level statements in order.
#[derive(Debug)]
pub struct Ast {
    pub statements: Vec<Stmt>,
}

impl Ast {
    pub fn new(statements: Vec<Stmt>) -> (r: Ast)
        ensures
            r.statements == statements,
    {
        Ast { statements }
    }
}

pub ghost enum TypeV {
    Str,
    Number,
    Bool,
    Custom(Seq<char>),
}

pub ghost enum ExprV {
    String(Seq<char>),
    Number(Seq<char>),
    Boolean(bool),
    Nil,
    Identifier(Seq<char>),
    Binary(Box<ExprV>, BinaryOp, Box<ExprV>),
    Unary(UnaryOp, Box<ExprV>),
    Call(Box<ExprV>, Seq<ExprV>),
    Grouping(Box<ExprV>),
    StructLiteral(Seq<char>, Seq<(Seq<char>, ExprV)>),
    FieldAccess(Box<ExprV>, Seq<char>),
}

pub ghost enum StmtV {
    Expression(ExprV),
    Let(Seq<char>, ExprV),
    Function(Seq<char>, Seq<(Seq<char>, Option<TypeV>)>, Option<TypeV>, Seq<StmtV>),
    If(ExprV, Seq<StmtV>, Option<Seq<StmtV>>),
    While(ExprV, Seq<StmtV>),
    Return(Option<ExprV>),
    Block(Seq<StmtV>),
    Struct(Seq<char>, Seq<(Seq<char>, TypeV)>),
    TypeAlias(Seq<char>, Seq<Seq<char>>),
}

impl View for Type {
    type V = TypeV;

    open spec fn view(&self) -> TypeV {
        match self {
            Type::Str => TypeV::Str,
            Type::Number => TypeV::Number,
            Type::Bool => TypeV::Bool,
            Type::Custom(n) => TypeV::Custom(n@),
        }
    }
}

pub open spec fn opt_type_view(t: Option<Type>) -> Option<TypeV> {
    match t {
        Some(t) => Some(t@),
        None => None,
    }
}

pub open spec fn expr_view(e: Expr) -> ExprV
    decreases e,
{
    match e {
        Expr::String(s) => ExprV::String(s@),
        Expr::Number(s) => ExprV::Number(s@),
        Expr::Boolean(b) => ExprV::Boolean(b),
        Expr::Nil => ExprV::Nil,
        Expr::Identifier(s) => ExprV::Identifier(s@),
        Expr::Binary { left, operator, right } => ExprV::Binary(
            Box::new(expr_view(*left)),
            operator,
            Box::new(expr_view(*right)),
        ),
        Expr::Unary { operator, operand } => ExprV::Unary(operator, Box::new(expr_view(*operand))),
        Expr::Call { callee, arguments } => ExprV::Call(
            Box::new(expr_view(*callee)),
            exprs_view(arguments@),
        ),
        Expr::Grouping(inner) => ExprV::Grouping(Box::new(expr_view(*inner))),
        Expr::StructLiteral { name, fields } => ExprV::StructLiteral(name@, inits_view(fields@)),
        Expr::FieldAccess { object, field } => ExprV::FieldAccess(
            Box::new(expr_view(*object)),
            field@,
        ),
    }
}

pub open spec fn exprs_view(es: Seq<Expr>) -> Seq<ExprV>
    decreases es,
{
    if es.len() == 0 {
        Seq::empty()
    } else {
        exprs_view(es.drop_last()).push(expr_view(es.last()))
    }
}

pub open spec fn inits_view(fs: Seq<(String, Expr)>) -> Seq<(Seq<char>, ExprV)>
    decreases fs,
{
    if fs.len() == 0 {
        Seq::empty()
    } else {
        inits_view(fs.drop_last()).push((fs.last().0@, expr_view(fs.last().1)))
    }
}

impl View for Expr {
    type V = ExprV;

    open spec fn view(&self) -> ExprV {
        expr_view(*self)
    }
}

pub open spec fn params_view(ps: Seq<(String, Option<Type>)>) -> Seq<(Seq<char>, Option<TypeV>)> {
    ps.map_values(|p: (String, Option<Type>)| (p.0@, opt_type_view(p.1)))
}

pub open spec fn schema_view(fs: Seq<(String, Type)>) -> Seq<(Seq<char>, TypeV)> {
    fs.map_values(|f: (String, Type)| (f.0@, f.1@))
}

pub open spec fn strings_view(vs: Seq<String>) -> Seq<Seq<char>> {
    vs.map_values(|v: String| v@)
}

pub open spec fn stmt_view(s: Stmt) -> StmtV
    decreases s,
{
    match s {
        Stmt::Expression(e) => StmtV::Expression(e@),
        Stmt::Let { name, value } => StmtV::Let(name@, value@),
        Stmt::Function { name, params, return_type, body } => StmtV::Function(
            name@,
            params_view(params@),
            opt_type_view(return_type),
            stmts_view(body@),
        ),
        Stmt::If { condition, then_branch, else_branch } => StmtV::If(
            condition@,
            stmts_view(then_branch@),
            match else_branch {
                Some(b) => Some(stmts_view(b@)),
                None => None,
            },
        ),
        Stmt::While { condition, body } => StmtV::While(condition@, stmts_view(body@)),
        Stmt::Return(e) => StmtV::Return(
            match e {
                Some(e) => Some(e@),
                None => None,
            },
        ),
        Stmt::Block(b) => StmtV::Block(stmts_view(b@)),
        Stmt::Struct { name, fields } => StmtV::Struct(name@, schema_view(fields@)),
        Stmt::TypeAlias { name, variants } => StmtV::TypeAlias(name@, strings_view(variants@)),
    }
}

pub open spec fn stmts_view(ss: Seq<Stmt>) -> Seq<StmtV>
    decreases ss,
{
    if ss.len() == 0 {
        Seq::empty()
    } else {
        stmts_view(ss.drop_last()).push(stmt_view(ss.last()))
    }
}

pub proof fn lemma_exprs_view_push(es: Seq<Expr>, e: Expr)
    ensures
        exprs_view(es.push(e)) == exprs_view(es).push(e@),
{
    assert(es.push(e).drop_last() =~= es);
}

pub proof fn lemma_inits_view_push(fs: Seq<(String, Expr)>, f: (String, Expr))
    ensures
        inits_view(fs.push(f)) == inits_view(fs).push((f.0@, f.1@)),
{
    assert(fs.push(f).drop_last() =~= fs);
}

pub proof fn lemma_stmts_view_push(ss: Seq<Stmt>, s: Stmt)
    ensures
        stmts_view(ss.push(s)) == stmts_view(ss).push(s@),
{
    assert(ss.push(s).drop_last() =~= ss);
}

pub proof fn lemma_params_view_push(ps: Seq<(String, Option<Type>)>, p: (String, Option<Type>))
    ensures
        params_view(ps.push(p)) == params_view(ps).push((p.0@, opt_type_view(p.1))),
{
    assert(params_view(ps.push(p)) =~= params_view(ps).push((p.0@, opt_type_view(p.1))));
}

pub proof fn lemma_schema_view_push(fs: Seq<(String, Type)>, f: (String, Type))
    ensures
        schema_view(fs.push(f)) == schema_view(fs).push((f.0@, f.1@)),
{
    assert(schema_view(fs.push(f)) =~= schema_view(fs).push((f.0@, f.1@)));
}

pub proof fn lemma_strings_view_push(vs: Seq<String>, v: String)
    ensures
        strings_view(vs.push(v)) == strings_view(vs).push(v@),
{
    assert(strings_view(vs.push(v)) =~= strings_view(vs).push(v@));
}

impl View for Stmt {
    type V = StmtV;

    open spec fn view(&self) -> StmtV {
        stmt_view(*self)
    }
}

impl View for Ast {
    type V = Seq<StmtV>;

    open spec fn view(&self) -> Seq<StmtV> {
        stmts_view(self.statements@)
    }
}

} // verus!
