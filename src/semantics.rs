//! The meaning of running a program, as relations between the state before
//! and the state after, with the result.
//!
//! Numbers are computed by the host's number system, so wherever a number is
//! made (a literal, an arithmetic operation) any number may come out, and the
//! text that `print` writes for a number may be any text. Everything else is
//! determined: which values, which lines, which diagnostics, which faults.
//! Loops whose iteration budget runs out stop with a fault, and so do calls
//! nested deeper than the depth given.
use vstd::prelude::*;

use crate::ast::{strings_view, Expr, Stmt, Type};
use crate::runtime::{type_matches, Diagnostic, Fault};
use crate::table::{bind, index_of, lookup};
use crate::value::{binary_result, is_arithmetic, truthy, unary_result, ValueV};

verus! {

broadcast use vstd::std_specs::vec::group_vec_axioms, vstd::seq::group_seq_axioms;

/// The state of a run: variables of the current frame, the three tables,
/// what was printed, the diagnostics so far, and the loop budget.
pub ghost struct RunState {
    pub vars: Seq<(Seq<char>, ValueV)>,
    pub funcs: Seq<(Seq<char>, (Seq<(String, Option<Type>)>, Seq<Stmt>))>,
    pub structs: Seq<(Seq<char>, Seq<(String, Type)>)>,
    pub aliases: Seq<(Seq<char>, Seq<Seq<char>>)>,
    pub output: Seq<Seq<char>>,
    pub diags: Seq<Diagnostic>,
    pub steps: u64,
}

/// Names a pair of intermediate results; it serves as the trigger that
/// picks the intermediate state and result of a step.
pub open spec fn through<A, B>(a: A, b: B) -> bool {
    true
}

pub open spec fn diagnose(s: RunState, d: Diagnostic) -> RunState {
    RunState { diags: s.diags.push(d), ..s }
}

/// The text `print` writes for a value: for a number, any text.
pub open spec fn renders(v: ValueV, text: Seq<char>) -> bool
    decreases v,
{
    match v {
        ValueV::String(x) => text == x,
        ValueV::Number(_) => true,
        ValueV::Boolean(b) => text == if b { "true"@ } else { "false"@ },
        ValueV::Nil => text == "nil"@,
        ValueV::Struct(_, fs) => {
            &&& text.len() >= 4
            &&& renders_fields(fs, text.subrange(2, text.len() - 2))
            &&& text == "{ "@ + text.subrange(2, text.len() - 2) + " }"@
        },
    }
}

/// The fields of a record as `name: value`, separated by `, `.
pub open spec fn renders_fields(fs: Seq<(Seq<char>, ValueV)>, text: Seq<char>) -> bool
    decreases fs,
{
    if fs.len() == 0 {
        text.len() == 0
    } else {
        exists|a: Seq<char>, b: Seq<char>|
            #[trigger] through(a, b) && renders_fields(fs.drop_last(), a) && renders(fs.last().1, b)
                && text == a
                + (if fs.len() > 1 { ", "@ } else { Seq::empty() }) + fs.last().0 + ": "@ + b
    }
}

/// A `print` line: the texts of the values one after another.
pub open spec fn renders_all(vs: Seq<ValueV>, line: Seq<char>) -> bool
    decreases vs.len(),
{
    if vs.len() == 0 {
        line.len() == 0
    } else {
        exists|a: Seq<char>, b: Seq<char>|
            #[trigger] through(a, b) && renders_all(vs.drop_last(), a) && renders(vs.last(), b) && line
                == a + b
    }
}

/// The value of a binary operation on two values.
pub open spec fn binary_step(
    s: RunState,
    op: crate::ast::BinaryOp,
    l: ValueV,
    r: ValueV,
    t: RunState,
    res: Result<ValueV, Fault>,
) -> bool {
    if l is Number && r is Number && is_arithmetic(op) {
        t == s && res is Ok && res->Ok_0 is Number
    } else {
        match binary_result(op, l, r) {
            Some(v) => t == s && res == Ok::<ValueV, Fault>(v),
            None => t == diagnose(s, Diagnostic::InvalidBinaryOperation) && res == Ok::<
                ValueV,
                Fault,
            >(ValueV::Nil),
        }
    }
}

/// The first initialiser named `k`.
pub open spec fn init_index(inits: Seq<(String, Expr)>, k: Seq<char>, j: int) -> bool {
    &&& 0 <= j < inits.len()
    &&& inits[j].0@ == k
    &&& forall|m: int| 0 <= m < j ==> inits[m].0@ != k
}

/// Whether a name is a field of a schema.
pub open spec fn in_schema(schema: Seq<(String, Type)>, k: Seq<char>) -> bool {
    exists|i: int| 0 <= i < schema.len() && schema[i].0@ == k
}

/// The variables of a fresh frame: each parameter bound, in order, to its
/// argument.
pub open spec fn frame(params: Seq<(String, Option<Type>)>, vs: Seq<ValueV>) -> Seq<
    (Seq<char>, ValueV),
>
    decreases params.len(),
{
    if params.len() == 0 || vs.len() < params.len() {
        Seq::empty()
    } else {
        bind(
            frame(params.drop_last(), vs),
            params.last().0@,
            vs[params.len() - 1],
        )
    }
}

/// Whether argument `j` fails its parameter's annotation.
pub open spec fn mismatch(
    params: Seq<(String, Option<Type>)>,
    vs: Seq<ValueV>,
    aliases: Seq<(Seq<char>, Seq<Seq<char>>)>,
    j: int,
) -> bool {
    params[j].1 is Some && !type_matches(vs[j], params[j].1->0@, aliases)
}

/// Evaluating an expression at call depth `d`.
pub open spec fn eval(s: RunState, e: Expr, d: nat, t: RunState, r: Result<ValueV, Fault>) -> bool
    decreases d, 0int, e, 0int,
{
    match e {
        Expr::String(x) => t == s && r == Ok::<ValueV, Fault>(ValueV::String(x@)),
        Expr::Number(_) => t == s && r is Ok && r->Ok_0 is Number,
        Expr::Boolean(b) => t == s && r == Ok::<ValueV, Fault>(ValueV::Boolean(b)),
        Expr::Nil => t == s && r == Ok::<ValueV, Fault>(ValueV::Nil),
        Expr::Identifier(x) => match lookup(s.vars, x@) {
            Some(v) => t == s && r == Ok::<ValueV, Fault>(v),
            None => t == diagnose(s, Diagnostic::UndefinedVariable(x)) && r == Ok::<
                ValueV,
                Fault,
            >(ValueV::Nil),
        },
        Expr::Binary { left, operator, right } => exists|s1: RunState, r1: Result<ValueV, Fault>|
            #[trigger] through(s1, r1) && eval(s, *left, d, s1, r1) && match r1 {
                Err(f) => t == s1 && r == Err::<ValueV, Fault>(f),
                Ok(lv) => exists|s2: RunState, r2: Result<ValueV, Fault>|
                    #[trigger] through(s2, r2) && eval(s1, *right, d, s2, r2) && match r2 {
                        Err(f) => t == s2 && r == Err::<ValueV, Fault>(f),
                        Ok(rv) => binary_step(s2, operator, lv, rv, t, r),
                    },
            },
        Expr::Unary { operator, operand } => exists|s1: RunState, r1: Result<ValueV, Fault>|
            #[trigger] through(s1, r1) && eval(s, *operand, d, s1, r1) && match r1 {
                Err(f) => t == s1 && r == Err::<ValueV, Fault>(f),
                Ok(v) => match unary_result(operator, v) {
                    Some(w) => if operator == crate::ast::UnaryOp::Negate {
                        t == s1 && r is Ok && r->Ok_0 == w
                    } else {
                        t == s1 && r == Ok::<ValueV, Fault>(w)
                    },
                    None => t == diagnose(s1, Diagnostic::InvalidUnaryOperation) && r == Ok::<
                        ValueV,
                        Fault,
                    >(ValueV::Nil),
                },
            },
        Expr::Call { callee, arguments } => match *callee {
            Expr::Identifier(name) => call(s, name, arguments@, d, t, r),
            _ => t == diagnose(s, Diagnostic::NotCallable) && r == Ok::<ValueV, Fault>(ValueV::Nil),
        },
        Expr::Grouping(inner) => eval(s, *inner, d, t, r),
        Expr::StructLiteral { name, fields } => match lookup(s.structs, name@) {
            None => t == s && r == Err::<ValueV, Fault>(Fault::UndefinedStruct(name)),
            Some(schema) => exists|
                s1: RunState,
                r1: Result<Seq<(Seq<char>, ValueV)>, Fault>,
            |
                #[trigger] through(s1, r1) && build(s, name, schema, fields@, d, s1, r1) && t == s1 && match r1 {
                    Err(f) => r == Err::<ValueV, Fault>(f),
                    Ok(fs) => if exists|k: int|
                        0 <= k < fields@.len() && !in_schema(schema, #[trigger] fields@[k].0@) {
                        exists|k: int|
                            0 <= k < fields@.len() && !in_schema(schema, #[trigger] fields@[k].0@)
                                && (forall|m: int|
                                0 <= m < k ==> in_schema(schema, fields@[m].0@)) && r == Err::<
                                ValueV,
                                Fault,
                            >(Fault::UnknownField { strukt: name, field: fields@[k].0 })
                    } else {
                        r == Ok::<ValueV, Fault>(ValueV::Struct(name@, fs))
                    },
                },
        },
        Expr::FieldAccess { object, field } => exists|s1: RunState, r1: Result<ValueV, Fault>|
            #[trigger] through(s1, r1) && eval(s, *object, d, s1, r1) && t == s1 && match r1 {
                Err(f) => r == Err::<ValueV, Fault>(f),
                Ok(ValueV::Struct(_, fs)) => match lookup(fs, field@) {
                    Some(v) => r == Ok::<ValueV, Fault>(v),
                    None => r == Err::<ValueV, Fault>(Fault::NoSuchField(field)),
                },
                Ok(_) => r == Err::<ValueV, Fault>(Fault::NotARecord),
            },
    }
}

/// Evaluating expressions left to right, stopping at the first fault.
pub open spec fn eval_list(
    s: RunState,
    es: Seq<Expr>,
    d: nat,
    t: RunState,
    r: Result<Seq<ValueV>, Fault>,
) -> bool
    decreases d, 0int, es, 0int,
{
    if es.len() == 0 {
        t == s && r == Ok::<Seq<ValueV>, Fault>(Seq::empty())
    } else {
        exists|s1: RunState, r1: Result<Seq<ValueV>, Fault>|
            #[trigger] through(s1, r1) && eval_list(s, es.drop_last(), d, s1, r1) && match r1 {
                Err(f) => t == s1 && r == Err::<Seq<ValueV>, Fault>(f),
                Ok(vs) => exists|s2: RunState, r2: Result<ValueV, Fault>|
                    #[trigger] through(s2, r2) && eval(s1, es.last(), d, s2, r2) && t == s2 && match r2 {
                        Err(f) => r == Err::<Seq<ValueV>, Fault>(f),
                        Ok(v) => r == Ok::<Seq<ValueV>, Fault>(vs.push(v)),
                    },
            }
    }
}

/// The fields of a record under construction: the schema's fields in order,
/// each from its first initialiser and checked against its type.
pub open spec fn build(
    s: RunState,
    name: String,
    schema: Seq<(String, Type)>,
    inits: Seq<(String, Expr)>,
    d: nat,
    t: RunState,
    r: Result<Seq<(Seq<char>, ValueV)>, Fault>,
) -> bool
    decreases d, 0int, inits, schema.len(),
{
    if schema.len() == 0 {
        t == s && r == Ok::<Seq<(Seq<char>, ValueV)>, Fault>(Seq::empty())
    } else {
        let field = schema.last();
        exists|s1: RunState, r1: Result<Seq<(Seq<char>, ValueV)>, Fault>|
            #[trigger] through(s1, r1) && build(s, name, schema.drop_last(), inits, d, s1, r1) && match r1 {
                Err(f) => t == s1 && r == Err::<Seq<(Seq<char>, ValueV)>, Fault>(f),
                Ok(fs) => if exists|j: int| init_index(inits, field.0@, j) {
                    exists|j: int, s2: RunState, r2: Result<ValueV, Fault>|
                        #[trigger] through(j, (s2, r2)) && init_index(inits, field.0@, j) && eval(
                            s1,
                            inits[j].1,
                            d,
                            s2,
                            r2,
                        ) && t == s2 && match r2 {
                            Err(f) => r == Err::<Seq<(Seq<char>, ValueV)>, Fault>(f),
                            Ok(v) => if type_matches(v, field.1@, s2.aliases) {
                                r == Ok::<Seq<(Seq<char>, ValueV)>, Fault>(fs.push((field.0@, v)))
                            } else {
                                r == Err::<Seq<(Seq<char>, ValueV)>, Fault>(
                                    Fault::FieldTypeMismatch { strukt: name, field: field.0 },
                                )
                            },
                        }
                } else {
                    t == s1 && r == Err::<Seq<(Seq<char>, ValueV)>, Fault>(
                        Fault::MissingField { strukt: name, field: field.0 },
                    )
                },
            }
    }
}

/// A call of `name`: `print`, or a declared function run in a fresh frame.
pub open spec fn call(
    s: RunState,
    name: String,
    args: Seq<Expr>,
    d: nat,
    t: RunState,
    r: Result<ValueV, Fault>,
) -> bool
    decreases d, 0int, args, 1int,
{
    if name@ == "print"@ {
        exists|s1: RunState, r1: Result<Seq<ValueV>, Fault>|
            #[trigger] through(s1, r1) && eval_list(s, args, d, s1, r1) && match r1 {
                Err(f) => t == s1 && r == Err::<ValueV, Fault>(f),
                Ok(vs) => {
                    &&& r == Ok::<ValueV, Fault>(ValueV::Nil)
                    &&& t.output.len() > 0
                    &&& renders_all(vs, t.output.last())
                    &&& t == RunState { output: s1.output.push(t.output.last()), ..s1 }
                },
            }
    } else {
        match lookup(s.funcs, name@) {
            None => t == diagnose(s, Diagnostic::UndefinedFunction(name)) && r == Ok::<
                ValueV,
                Fault,
            >(ValueV::Nil),
            Some(def) => {
                let params = def.0;
                exists|s1: RunState, r1: Result<Seq<ValueV>, Fault>|
                    #[trigger] through(s1, r1) && eval_list(s, args, d, s1, r1) && match r1 {
                        Err(f) => t == s1 && r == Err::<ValueV, Fault>(f),
                        Ok(vs) => if vs.len() != params.len() {
                            t == diagnose(
                                s1,
                                Diagnostic::ArityMismatch {
                                    function: name,
                                    expected: params.len() as usize,
                                    got: vs.len() as usize,
                                },
                            ) && r == Ok::<ValueV, Fault>(ValueV::Nil)
                        } else if exists|j: int|
                            0 <= j < params.len() && #[trigger] mismatch(params, vs, s1.aliases, j) {
                            exists|j: int|
                                0 <= j < params.len() && #[trigger] mismatch(
                                    params,
                                    vs,
                                    s1.aliases,
                                    j,
                                ) && (forall|m: int|
                                    0 <= m < j ==> !mismatch(params, vs, s1.aliases, m)) && t
                                    == diagnose(
                                    s1,
                                    Diagnostic::ParameterTypeMismatch {
                                        function: name,
                                        parameter: params[j].0,
                                    },
                                ) && r == Ok::<ValueV, Fault>(ValueV::Nil)
                        } else if d == 0 {
                            t == s1 && r == Err::<ValueV, Fault>(Fault::CallDepthExceeded)
                        } else {
                            exists|s2: RunState, r2: Result<Option<ValueV>, Fault>|
                                #[trigger] through(s2, r2) && block(
                                    RunState { vars: frame(params, vs), ..s1 },
                                    def.1,
                                    (d - 1) as nat,
                                    s2,
                                    r2,
                                ) && t == RunState { vars: s1.vars, ..s2 } && r == match r2 {
                                    Ok(Some(v)) => Ok::<ValueV, Fault>(v),
                                    Ok(None) => Ok::<ValueV, Fault>(ValueV::Nil),
                                    Err(f) => Err::<ValueV, Fault>(f),
                                }
                        },
                    }
            },
        }
    }
}

/// Running statements in order up to the first return signal or fault.
pub open spec fn block(
    s: RunState,
    ss: Seq<Stmt>,
    d: nat,
    t: RunState,
    r: Result<Option<ValueV>, Fault>,
) -> bool
    decreases d, 1int, ss, 0int,
{
    if ss.len() == 0 {
        t == s && r == Ok::<Option<ValueV>, Fault>(None)
    } else {
        exists|s1: RunState, r1: Result<Option<ValueV>, Fault>|
            #[trigger] through(s1, r1) && block(s, ss.drop_last(), d, s1, r1) && if r1 == Ok::<
                Option<ValueV>,
                Fault,
            >(None) {
                exec(s1, ss.last(), d, t, r)
            } else {
                t == s1 && r == r1
            }
    }
}

/// Running one statement; `Some` is the return signal.
pub open spec fn exec(
    s: RunState,
    st: Stmt,
    d: nat,
    t: RunState,
    r: Result<Option<ValueV>, Fault>,
) -> bool
    decreases d, 1int, st, 0int,
{
    match st {
        Stmt::Expression(e) => exists|s1: RunState, r1: Result<ValueV, Fault>|
            #[trigger] through(s1, r1) && eval(s, e, d, s1, r1) && t == s1 && match r1 {
                Err(f) => r == Err::<Option<ValueV>, Fault>(f),
                Ok(_) => r == Ok::<Option<ValueV>, Fault>(None),
            },
        Stmt::Let { name, value } => exists|s1: RunState, r1: Result<ValueV, Fault>|
            #[trigger] through(s1, r1) && eval(s, value, d, s1, r1) && match r1 {
                Err(f) => t == s1 && r == Err::<Option<ValueV>, Fault>(f),
                Ok(v) => t == RunState { vars: bind(s1.vars, name@, v), ..s1 } && r == Ok::<
                    Option<ValueV>,
                    Fault,
                >(None),
            },
        Stmt::Function { name, params, return_type: _, body } => t == RunState {
            funcs: bind(s.funcs, name@, (params@, body@)),
            ..s
        } && r == Ok::<Option<ValueV>, Fault>(None),
        Stmt::If { condition, then_branch, else_branch } => exists|
            s1: RunState,
            r1: Result<ValueV, Fault>,
        |
            #[trigger] through(s1, r1) && eval(s, condition, d, s1, r1) && match r1 {
                Err(f) => t == s1 && r == Err::<Option<ValueV>, Fault>(f),
                Ok(c) => if truthy(c) {
                    block(s1, then_branch@, d, t, r)
                } else {
                    match else_branch {
                        Some(b) => block(s1, b@, d, t, r),
                        None => t == s1 && r == Ok::<Option<ValueV>, Fault>(None),
                    }
                },
            },
        Stmt::While { condition, body } => run_while(s, condition, body@, d, t, r),
        Stmt::Return(value) => match value {
            None => t == s && r == Ok::<Option<ValueV>, Fault>(Some(ValueV::Nil)),
            Some(e) => exists|s1: RunState, r1: Result<ValueV, Fault>|
                #[trigger] through(s1, r1) && eval(s, e, d, s1, r1) && t == s1 && match r1 {
                    Err(f) => r == Err::<Option<ValueV>, Fault>(f),
                    Ok(v) => r == Ok::<Option<ValueV>, Fault>(Some(v)),
                },
        },
        Stmt::Block(b) => block(s, b@, d, t, r),
        Stmt::Struct { name, fields } => t == RunState {
            structs: bind(s.structs, name@, fields@),
            ..s
        } && r == Ok::<Option<ValueV>, Fault>(None),
        Stmt::TypeAlias { name, variants } => t == RunState {
            aliases: bind(s.aliases, name@, strings_view(variants@)),
            ..s
        } && r == Ok::<Option<ValueV>, Fault>(None),
    }
}

/// A `while` loop: test, spend one unit of the budget, run the body, repeat.
pub open spec fn run_while(
    s: RunState,
    cond: Expr,
    body: Seq<Stmt>,
    d: nat,
    t: RunState,
    r: Result<Option<ValueV>, Fault>,
) -> bool
    decreases d, 1int, body, 1 + s.steps,
{
    exists|s1: RunState, r1: Result<ValueV, Fault>|
        #[trigger] through(s1, r1) && eval(s, cond, d, s1, r1) && match r1 {
            Err(f) => t == s1 && r == Err::<Option<ValueV>, Fault>(f),
            Ok(c) => if !truthy(c) {
                t == s1 && r == Ok::<Option<ValueV>, Fault>(None)
            } else if s1.steps == 0 {
                t == s1 && r == Err::<Option<ValueV>, Fault>(Fault::StepLimitReached)
            } else {
                exists|s2: RunState, r2: Result<Option<ValueV>, Fault>|
                    #[trigger] through(s2, r2) && block(
                        RunState { steps: (s1.steps - 1) as u64, ..s1 },
                        body,
                        d,
                        s2,
                        r2,
                    ) && if r2 == Ok::<Option<ValueV>, Fault>(None) {
                        s2.steps < s.steps && run_while(s2, cond, body, d, t, r)
                    } else {
                        t == s2 && r == r2
                    }
            },
        }
}

/// Running a program's top-level statements: a return signal there is
/// ignored, and a fault stops the run.
pub open spec fn run_top(s: RunState, ss: Seq<Stmt>, d: nat, t: RunState, fault: Option<Fault>) -> bool
    decreases ss.len(),
{
    if ss.len() == 0 {
        t == s && fault is None
    } else {
        exists|s1: RunState, f1: Option<Fault>|
            #[trigger] through(s1, f1) && run_top(s, ss.drop_last(), d, s1, f1) && match f1 {
                Some(f) => t == s1 && fault == Some(f),
                None => exists|r: Result<Option<ValueV>, Fault>|
                    #[trigger] through(t, r) && exec(s1, ss.last(), d, t, r) && fault == match r {
                        Err(f) => Some(f),
                        Ok(_) => None::<Fault>,
                    },
            }
    }
}

/// The state a program starts in.
pub open spec fn initial_state() -> RunState {
    RunState {
        vars: Seq::empty(),
        funcs: Seq::empty(),
        structs: Seq::empty(),
        aliases: Seq::empty(),
        output: Seq::empty(),
        diags: Seq::empty(),
        steps: u64::MAX,
    }
}

} // verus!

verus! {

/// A fault in a prefix of the initialisers' schema is the fault of the whole.
pub proof fn lemma_build_fault(
    s: RunState,
    name: String,
    schema: Seq<(String, Type)>,
    inits: Seq<(String, Expr)>,
    d: nat,
    k: int,
    t: RunState,
    f: Fault,
)
    requires
        0 <= k <= schema.len(),
        build(s, name, schema.take(k), inits, d, t, Err(f)),
    ensures
        build(s, name, schema, inits, d, t, Err(f)),
    decreases schema.len() - k,
{
    if k < schema.len() {
        assert(schema.take(k + 1).drop_last() =~= schema.take(k));
        assert(through(t, Err::<Seq<(Seq<char>, ValueV)>, Fault>(f)));
        assert(build(s, name, schema.take(k + 1), inits, d, t, Err(f)));
        lemma_build_fault(s, name, schema, inits, d, k + 1, t, f);
    } else {
        assert(schema.take(k) =~= schema);
    }
}

/// A fault while evaluating a prefix of a list is the fault of the list.
pub proof fn lemma_eval_list_fault(
    s: RunState,
    es: Seq<Expr>,
    d: nat,
    k: int,
    t: RunState,
    f: Fault,
)
    requires
        0 <= k <= es.len(),
        eval_list(s, es.take(k), d, t, Err(f)),
    ensures
        eval_list(s, es, d, t, Err(f)),
    decreases es.len() - k,
{
    if k < es.len() {
        assert(es.take(k + 1).drop_last() =~= es.take(k));
        assert(through(t, Err::<Seq<ValueV>, Fault>(f)));
        assert(eval_list(s, es.take(k + 1), d, t, Err(f)));
        lemma_eval_list_fault(s, es, d, k + 1, t, f);
    } else {
        assert(es.take(k) =~= es);
    }
}

/// A return signal or fault in a prefix of a block ends the block.
pub proof fn lemma_block_stop(
    s: RunState,
    ss: Seq<Stmt>,
    d: nat,
    k: int,
    t: RunState,
    r: Result<Option<ValueV>, Fault>,
)
    requires
        0 <= k <= ss.len(),
        r != Ok::<Option<ValueV>, Fault>(None),
        block(s, ss.take(k), d, t, r),
    ensures
        block(s, ss, d, t, r),
    decreases ss.len() - k,
{
    if k < ss.len() {
        assert(ss.take(k + 1).drop_last() =~= ss.take(k));
        assert(through(t, r));
        assert(block(s, ss.take(k + 1), d, t, r));
        lemma_block_stop(s, ss, d, k + 1, t, r);
    } else {
        assert(ss.take(k) =~= ss);
    }
}

/// A fault in a prefix of the top-level statements ends the run.
pub proof fn lemma_top_fault(s: RunState, ss: Seq<Stmt>, d: nat, k: int, t: RunState, f: Fault)
    requires
        0 <= k <= ss.len(),
        run_top(s, ss.take(k), d, t, Some(f)),
    ensures
        run_top(s, ss, d, t, Some(f)),
    decreases ss.len() - k,
{
    if k < ss.len() {
        assert(ss.take(k + 1).drop_last() =~= ss.take(k));
        assert(through(t, Some(f)));
        assert(run_top(s, ss.take(k + 1), d, t, Some(f)));
        lemma_top_fault(s, ss, d, k + 1, t, f);
    } else {
        assert(ss.take(k) =~= ss);
    }
}

} // verus!

verus! {

/// Schema completeness: when building a struct literal's fields succeeds,
/// they are exactly the struct's declared fields, in declaration order.
/// Every other outcome of `build` is a fault, so no partial record is made.
pub proof fn lemma_record_fits_schema(
    s: RunState,
    name: String,
    schema: Seq<(String, Type)>,
    inits: Seq<(String, Expr)>,
    d: nat,
    t: RunState,
    fs: Seq<(Seq<char>, ValueV)>,
)
    requires
        build(s, name, schema, inits, d, t, Ok(fs)),
    ensures
        fs.len() == schema.len(),
        forall|i: int| 0 <= i < schema.len() ==> #[trigger] fs[i].0 == schema[i].0@,
    decreases schema.len(),
{
    if schema.len() > 0 {
        let field = schema.last();
        let (s1, r1) = choose|s1: RunState, r1: Result<Seq<(Seq<char>, ValueV)>, Fault>|
            #[trigger] through(s1, r1) && build(s, name, schema.drop_last(), inits, d, s1, r1)
                && match r1 {
                Err(f) => t == s1 && Ok::<Seq<(Seq<char>, ValueV)>, Fault>(fs) == Err::<
                    Seq<(Seq<char>, ValueV)>,
                    Fault,
                >(f),
                Ok(gs) => if exists|j: int| init_index(inits, field.0@, j) {
                    exists|j: int, s2: RunState, r2: Result<ValueV, Fault>|
                        #[trigger] through(j, (s2, r2)) && init_index(inits, field.0@, j) && eval(
                            s1,
                            inits[j].1,
                            d,
                            s2,
                            r2,
                        ) && t == s2 && match r2 {
                            Err(f) => Ok::<Seq<(Seq<char>, ValueV)>, Fault>(fs) == Err::<
                                Seq<(Seq<char>, ValueV)>,
                                Fault,
                            >(f),
                            Ok(v) => if type_matches(v, field.1@, s2.aliases) {
                                Ok::<Seq<(Seq<char>, ValueV)>, Fault>(fs) == Ok::<
                                    Seq<(Seq<char>, ValueV)>,
                                    Fault,
                                >(gs.push((field.0@, v)))
                            } else {
                                Ok::<Seq<(Seq<char>, ValueV)>, Fault>(fs) == Err::<
                                    Seq<(Seq<char>, ValueV)>,
                                    Fault,
                                >(Fault::FieldTypeMismatch { strukt: name, field: field.0 })
                            },
                        }
                } else {
                    t == s1 && Ok::<Seq<(Seq<char>, ValueV)>, Fault>(fs) == Err::<
                        Seq<(Seq<char>, ValueV)>,
                        Fault,
                    >(Fault::MissingField { strukt: name, field: field.0 })
                },
            };
        let gs = r1->Ok_0;
        lemma_record_fits_schema(s, name, schema.drop_last(), inits, d, s1, gs);
        assert(fs == gs.push((field.0@, fs.last().1)));
    }
}

} // verus!
