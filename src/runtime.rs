//! The tree-walking evaluator: variable environments, call frames, records
//! checked against their structs, and unions of string literals.
use vstd::prelude::*;

use crate::ast::{strings_view, Ast, Expr, Stmt, Type, TypeV};
use crate::table::{
    bind, find, index_of, lemma_bind_at, lemma_lookup_absent, lemma_lookup_index, lookup,
};
use crate::semantics::{
    block, build, call, eval, eval_list, exec, frame, in_schema, init_index, mismatch, renders,
    renders_all, renders_fields, run_top, run_while, through, diagnose, initial_state, lemma_block_stop, lemma_build_fault,
    lemma_eval_list_fault, lemma_top_fault, RunState,
};
use crate::value::{
    lemma_fields_view_len, evaluate_binary_op, evaluate_unary_op, lemma_fields_view_push, Value,
    ValueV, NumberSystem, fields_view,
};

verus! {

broadcast use vstd::std_specs::vec::group_vec_axioms, vstd::seq::group_seq_axioms;

/// A problem that is reported and evaluated as nil; the program goes on.
#[derive(Debug, PartialEq, Eq)]
pub enum Diagnostic {
    UndefinedVariable(String),
    UndefinedFunction(String),
    ArityMismatch { function: String, expected: usize, got: usize },
    ParameterTypeMismatch { function: String, parameter: String },
    InvalidBinaryOperation,
    InvalidUnaryOperation,
    NotCallable,
}

/// A problem that stops the program.
#[derive(Debug, PartialEq, Eq)]
pub enum Fault {
    UndefinedStruct(String),
    MissingField { strukt: String, field: String },
    UnknownField { strukt: String, field: String },
    FieldTypeMismatch { strukt: String, field: String },
    NotARecord,
    NoSuchField(String),
    CallDepthExceeded,
    StepLimitReached,
}

/// A declared function: its parameters and its body.
#[derive(Clone, Copy)]
pub struct FunctionDef<'a> {
    pub params: &'a Vec<(String, Option<Type>)>,
    pub body: &'a Vec<Stmt>,
}

/// What running a program produced: the printed lines, the diagnostics in
/// order, and the fault that stopped it, if any.
#[derive(Debug)]
pub struct Outcome {
    pub output: Vec<String>,
    pub diagnostics: Vec<Diagnostic>,
    pub fault: Option<Fault>,
}

/// The state of one program run.
pub struct Runtime<'a> {
    pub variables: Vec<(String, Value)>,
    pub functions: Vec<(String, FunctionDef<'a>)>,
    pub structs: Vec<(String, &'a Vec<(String, Type)>)>,
    pub aliases: Vec<(String, &'a Vec<String>)>,
    pub output: Vec<String>,
    pub diagnostics: Vec<Diagnostic>,
    /// How many more loop iterations the program may run.
    pub steps: u64,
}

pub open spec fn vars_view(s: Seq<(String, Value)>) -> Seq<(Seq<char>, ValueV)> {
    s.map_values(|e: (String, Value)| (e.0@, e.1@))
}

pub open spec fn aliases_view(s: Seq<(String, &Vec<String>)>) -> Seq<(Seq<char>, Seq<Seq<char>>)> {
    s.map_values(|e: (String, &Vec<String>)| (e.0@, strings_view(e.1@)))
}

/// The type-match rule: a value against an annotation, with the union
/// aliases declared so far.
pub open spec fn type_matches(
    v: ValueV,
    t: TypeV,
    aliases: Seq<(Seq<char>, Seq<Seq<char>>)>,
) -> bool {
    match (v, t) {
        (ValueV::String(_), TypeV::Str) => true,
        (ValueV::Number(_), TypeV::Number) => true,
        (ValueV::Boolean(_), TypeV::Bool) => true,
        (ValueV::String(s), TypeV::Custom(n)) => match lookup(aliases, n) {
            Some(vs) => vs.contains(s),
            None => false,
        },
        (ValueV::Struct(tn, _), TypeV::Custom(n)) => tn == n,
        _ => false,
    }
}

/// The text that `print` writes for a value that is not a number and holds
/// none.
pub open spec fn plain_text(v: ValueV) -> Option<Seq<char>> {
    match v {
        ValueV::String(s) => Some(s),
        ValueV::Boolean(b) => Some(if b { "true"@ } else { "false"@ }),
        ValueV::Nil => Some("nil"@),
        _ => None,
    }
}

/// A result of evaluation, in the terms of the semantics.
pub open spec fn vres(r: Result<Value, Fault>) -> Result<ValueV, Fault> {
    match r {
        Ok(v) => Ok(v@),
        Err(f) => Err(f),
    }
}

/// A result of running statements, in the terms of the semantics.
pub open spec fn sres(r: Result<Option<Value>, Fault>) -> Result<Option<ValueV>, Fault> {
    match r {
        Ok(Some(v)) => Ok(Some(v@)),
        Ok(None) => Ok(None),
        Err(f) => Err(f),
    }
}

pub open spec fn values_view(vs: Seq<Value>) -> Seq<ValueV> {
    vs.map_values(|v: Value| v@)
}

impl<'a> Runtime<'a> {
    /// The state of the run, in the terms of the semantics.
    pub open spec fn state(&self) -> RunState {
        RunState {
            vars: self.vars(),
            funcs: self.functions@.map_values(
                |e: (String, FunctionDef<'a>)| (e.0@, (e.1.params@, e.1.body@)),
            ),
            structs: self.structs@.map_values(|e: (String, &'a Vec<(String, Type)>)| (e.0@, e.1@)),
            aliases: self.alias_table(),
            output: self.output@.map_values(|l: String| l@),
            diags: self.diagnostics@,
            steps: self.steps,
        }
    }

    pub open spec fn vars(&self) -> Seq<(Seq<char>, ValueV)> {
        vars_view(self.variables@)
    }

    pub open spec fn alias_table(&self) -> Seq<(Seq<char>, Seq<Seq<char>>)> {
        aliases_view(self.aliases@)
    }

    pub fn new() -> (r: Runtime<'a>)
        ensures
            r.variables@.len() == 0,
            r.functions@.len() == 0,
            r.structs@.len() == 0,
            r.aliases@.len() == 0,
            r.output@.len() == 0,
            r.diagnostics@.len() == 0,
            r.steps == u64::MAX,
    {
        Runtime {
            variables: Vec::new(),
            functions: Vec::new(),
            structs: Vec::new(),
            aliases: Vec::new(),
            output: Vec::new(),
            diagnostics: Vec::new(),
            steps: u64::MAX,
        }
    }

    /// Binds a variable in the current environment.
    pub fn set_variable(&mut self, name: String, v: Value)
        ensures
            final(self).vars() == bind(old(self).vars(), name@, v@),
            final(self).functions == old(self).functions,
            final(self).structs == old(self).structs,
            final(self).aliases == old(self).aliases,
            final(self).output == old(self).output,
            final(self).diagnostics == old(self).diagnostics,
            final(self).steps == old(self).steps,
    {
        let ghost k = name@;
        let ghost x = v@;
        match find(&self.variables, &name) {
            Some(i) => {
                proof {
                    assert(index_of(self.vars(), k, i as int));
                    lemma_bind_at(self.vars(), k, x, i as int);
                }
                self.variables.set(i, (name, v));
                assert(self.vars() =~= bind(old(self).vars(), k, x));
            },
            None => {
                proof {
                    lemma_lookup_absent(self.vars(), k, x);
                }
                self.variables.push((name, v));
                assert(self.vars() =~= bind(old(self).vars(), k, x));
            },
        }
    }

    /// The value of a variable, if it is bound.
    pub fn get_variable(&self, name: &String) -> (r: Option<Value>)
        ensures
            match r {
                Some(v) => lookup(self.vars(), name@) == Some(v@),
                None => lookup(self.vars(), name@) is None,
            },
    {
        match find(&self.variables, name) {
            Some(i) => {
                proof {
                    assert(index_of(self.vars(), name@, i as int));
                    lemma_lookup_index(self.vars(), name@, i as int);
                }
                Some(self.variables[i].1.copy())
            },
            None => {
                proof {
                    lemma_lookup_absent(self.vars(), name@, ValueV::Nil);
                }
                None
            },
        }
    }

    /// The type-match rule.
    #[verifier::loop_isolation(false)]
    pub fn type_matches(&self, v: &Value, t: &Type) -> (r: bool)
        ensures
            r == type_matches(v@, t@, self.alias_table()),
    {
        match (v, t) {
            (Value::String(_), Type::Str) => true,
            (Value::Number(_), Type::Number) => true,
            (Value::Boolean(_), Type::Bool) => true,
            (Value::String(s), Type::Custom(n)) => match find(&self.aliases, n) {
                Some(i) => {
                    proof {
                        assert(index_of(self.alias_table(), n@, i as int));
                        lemma_lookup_index(self.alias_table(), n@, i as int);
                    }
                    let variants: &Vec<String> = self.aliases[i].1;
                    let mut j: usize = 0;
                    while j < variants.len()
                        invariant
                            j <= variants@.len(),
                            forall|m: int| 0 <= m < j ==> variants@[m]@ != s@,
                        decreases variants@.len() - j,
                    {
                        if variants[j] == *s {
                            assert(strings_view(variants@)[j as int] == s@);
                            return true;
                        }
                        j = j + 1;
                    }
                    assert(!strings_view(variants@).contains(s@));
                    false
                },
                None => {
                    proof {
                        lemma_lookup_absent(self.alias_table(), n@, Seq::empty());
                    }
                    false
                },
            },
            (Value::Struct { name, fields: _ }, Type::Custom(n)) => *name == *n,
            _ => false,
        }
    }
}

impl<'a> Runtime<'a> {
    /// Evaluates an expression as `eval` relates it. The caller's variables
    /// are left as they were: a call runs in a frame of its own.
    #[verifier::rlimit(40)]
    pub fn evaluate<N: NumberSystem>(&mut self, nums: &N, expr: &'a Expr, depth: usize) -> (r:
        Result<Value, Fault>)
        ensures
            eval(old(self).state(), *expr, depth as nat, final(self).state(), vres(r)),
            final(self).variables@ == old(self).variables@,
            final(self).steps <= old(self).steps,
        decreases depth, 0nat, expr,
    {
        let ghost s0 = self.state();
        match expr {
            Expr::String(s) => Ok(Value::String(s.clone())),
            Expr::Number(lexeme) => Ok(Value::Number(nums.parse_number(lexeme.as_str()))),
            Expr::Boolean(b) => Ok(Value::Boolean(*b)),
            Expr::Nil => Ok(Value::Nil),
            Expr::Identifier(name) => match self.get_variable(name) {
                Some(v) => Ok(v),
                None => {
                    self.diagnostics.push(Diagnostic::UndefinedVariable(name.clone()));
                    assert(self.state() == diagnose(s0, Diagnostic::UndefinedVariable(*name)));
                    Ok(Value::Nil)
                },
            },
            Expr::Binary { left, operator, right } => {
                let l = match self.evaluate(nums, &**left, depth) {
                    Ok(v) => v,
                    Err(f) => {
                        assert(through(self.state(), Err::<ValueV, Fault>(f)));
                        return Err(f);
                    },
                };
                let ghost s1 = self.state();
                assert(through(s1, Ok::<ValueV, Fault>(l@)));
                let r = match self.evaluate(nums, &**right, depth) {
                    Ok(v) => v,
                    Err(f) => {
                        assert(through(self.state(), Err::<ValueV, Fault>(f)));
                        return Err(f);
                    },
                };
                let ghost s2 = self.state();
                assert(through(s2, Ok::<ValueV, Fault>(r@)));
                match evaluate_binary_op(nums, &l, *operator, &r) {
                    Some(v) => Ok(v),
                    None => {
                        self.diagnostics.push(Diagnostic::InvalidBinaryOperation);
                        assert(self.state() == diagnose(s2, Diagnostic::InvalidBinaryOperation));
                        Ok(Value::Nil)
                    },
                }
            },
            Expr::Unary { operator, operand } => {
                let v = match self.evaluate(nums, &**operand, depth) {
                    Ok(v) => v,
                    Err(f) => {
                        assert(through(self.state(), Err::<ValueV, Fault>(f)));
                        return Err(f);
                    },
                };
                let ghost s1 = self.state();
                assert(through(s1, Ok::<ValueV, Fault>(v@)));
                match evaluate_unary_op(*operator, &v) {
                    Some(w) => Ok(w),
                    None => {
                        self.diagnostics.push(Diagnostic::InvalidUnaryOperation);
                        assert(self.state() == diagnose(s1, Diagnostic::InvalidUnaryOperation));
                        Ok(Value::Nil)
                    },
                }
            },
            Expr::Call { callee, arguments } => match &**callee {
                Expr::Identifier(name) => self.call(nums, name, arguments, depth),
                _ => {
                    self.diagnostics.push(Diagnostic::NotCallable);
                    assert(self.state() == diagnose(s0, Diagnostic::NotCallable));
                    Ok(Value::Nil)
                },
            },
            Expr::Grouping(inner) => self.evaluate(nums, &**inner, depth),
            Expr::StructLiteral { name, fields } => self.construct(nums, name, fields, depth),
            Expr::FieldAccess { object, field } => {
                let v = match self.evaluate(nums, &**object, depth) {
                    Ok(v) => v,
                    Err(f) => {
                        assert(through(self.state(), Err::<ValueV, Fault>(f)));
                        return Err(f);
                    },
                };
                assert(through(self.state(), Ok::<ValueV, Fault>(v@)));
                match v {
                    Value::Struct { name: _, fields } => {
                        proof {
                            lemma_fields_view_len(fields@);
                        }
                        match find(&fields, field) {
                            Some(i) => {
                                proof {
                                    assert(index_of(fields_view(fields@), field@, i as int));
                                    lemma_lookup_index(fields_view(fields@), field@, i as int);
                                }
                                Ok(fields[i].1.copy())
                            },
                            None => {
                                proof {
                                    lemma_lookup_absent(fields_view(fields@), field@, ValueV::Nil);
                                }
                                Err(Fault::NoSuchField(field.clone()))
                            },
                        }
                    },
                    _ => Err(Fault::NotARecord),
                }
            },
        }
    }

    /// Evaluates argument expressions left to right.
    #[verifier::loop_isolation(false)]
    fn evaluate_all<N: NumberSystem>(&mut self, nums: &N, arguments: &'a Vec<Expr>, depth: usize) -> (r:
        Result<Vec<Value>, Fault>)
        ensures
            eval_list(old(self).state(), arguments@, depth as nat, final(self).state(), match r {
                Ok(vs) => Ok::<Seq<ValueV>, Fault>(values_view(vs@)),
                Err(f) => Err::<Seq<ValueV>, Fault>(f),
            }),
            final(self).variables@ == old(self).variables@,
            final(self).steps <= old(self).steps,
        decreases depth, 0nat, arguments, 0nat,
    {
        let ghost s0 = self.state();
        let mut values: Vec<Value> = Vec::new();
        let mut i: usize = 0;
        assert(arguments@.take(0) =~= Seq::<Expr>::empty());
        assert(values_view(values@) =~= Seq::<ValueV>::empty());
        while i < arguments.len()
            invariant
                i <= arguments@.len(),
                eval_list(s0, arguments@.take(i as int), depth as nat, self.state(), Ok::<
                    Seq<ValueV>,
                    Fault,
                >(values_view(values@))),
                self.variables@ == old(self).variables@,
                self.steps <= old(self).steps,
            decreases arguments@.len() - i,
        {
            proof {
                assert(decreases_to!(arguments => arguments@[i as int]));
            }
            let ghost si = self.state();
            let ghost vs = values_view(values@);
            assert(arguments@.take(i + 1).drop_last() =~= arguments@.take(i as int));
            assert(through(si, Ok::<Seq<ValueV>, Fault>(vs)));
            let v = match self.evaluate(nums, &arguments[i], depth) {
                Ok(v) => v,
                Err(f) => {
                    assert(through(self.state(), Err::<ValueV, Fault>(f)));
                    assert(eval_list(s0, arguments@.take(i + 1), depth as nat, self.state(), Err(f)));
                    proof {
                        lemma_eval_list_fault(s0, arguments@, depth as nat, i + 1, self.state(), f);
                    }
                    return Err(f);
                },
            };
            assert(through(self.state(), Ok::<ValueV, Fault>(v@)));
            assert(values_view(values@.push(v)) =~= vs.push(v@));
            values.push(v);
            i = i + 1;
        }
        assert(arguments@.take(i as int) =~= arguments@);
        Ok(values)
    }

    /// Calls `name` with the given argument expressions, as `call` relates:
    /// the built-in `print`, or a declared function run in a fresh frame
    /// that holds only its parameters.
    #[verifier::loop_isolation(false)]
    #[verifier::rlimit(60)]
    pub fn call<N: NumberSystem>(
        &mut self,
        nums: &N,
        name: &'a String,
        arguments: &'a Vec<Expr>,
        depth: usize,
    ) -> (r: Result<Value, Fault>)
        ensures
            call(old(self).state(), *name, arguments@, depth as nat, final(self).state(), vres(r)),
            final(self).variables@ == old(self).variables@,
            final(self).steps <= old(self).steps,
        decreases depth, 0nat, arguments, 1nat,
    {
        let ghost s0 = self.state();
        if is_print(name) {
            let values = match self.evaluate_all(nums, arguments, depth) {
                Ok(vs) => vs,
                Err(f) => {
                    assert(through(self.state(), Err::<Seq<ValueV>, Fault>(f)));
                    return Err(f);
                },
            };
            let ghost s1 = self.state();
            let ghost vs = values_view(values@);
            assert(through(s1, Ok::<Seq<ValueV>, Fault>(vs)));
            let mut line = String::new();
            let mut i: usize = 0;
            assert(vs.take(0) =~= Seq::<ValueV>::empty());
            while i < values.len()
                invariant
                    i <= values@.len(),
                    vs == values_view(values@),
                    self.state() == s1,
                    renders_all(vs.take(i as int), line@),
                decreases values@.len() - i,
            {
                let ghost before = line@;
                let text = render_value(nums, &values[i]);
                line.append(text.as_str());
                assert(vs.take(i + 1).drop_last() =~= vs.take(i as int));
                assert(through(before, text@));
                assert(renders_all(vs.take(i + 1), line@));
                i = i + 1;
            }
            assert(vs.take(i as int) =~= vs);
            let ghost l = line@;
            self.output.push(line);
            assert(through(l, vs));
            assert(self.state().output =~= s1.output.push(l));
            assert(self.state() == (RunState { output: s1.output.push(l), ..s1 }));
            assert(renders_all(vs, l));
            assert(eval_list(s0, arguments@, depth as nat, s1, Ok::<Seq<ValueV>, Fault>(vs)));
            assert(name@ == "print"@);
            assert(through(l, vs) && renders_all(vs, l) && self.state() == (RunState {
                output: s1.output.push(l),
                ..s1
            }));
            assert(through(s1, Ok::<Seq<ValueV>, Fault>(vs)) && eval_list(s0, arguments@, depth as nat, s1, Ok::<Seq<ValueV>, Fault>(vs)));
            assert(self.state().output.last() == l);
            assert(call(s0, *name, arguments@, depth as nat, self.state(), Ok::<ValueV, Fault>(ValueV::Nil)));
            return Ok(Value::Nil);
        }
        let def = match find(&self.functions, name) {
            Some(i) => {
                proof {
                    assert(index_of(s0.funcs, name@, i as int));
                    lemma_lookup_index(s0.funcs, name@, i as int);
                }
                self.functions[i].1
            },
            None => {
                proof {
                    lemma_lookup_absent(s0.funcs, name@, (Seq::empty(), Seq::empty()));
                }
                self.diagnostics.push(Diagnostic::UndefinedFunction(name.clone()));
                assert(self.state() == diagnose(s0, Diagnostic::UndefinedFunction(*name)));
                return Ok(Value::Nil);
            },
        };
        let params = def.params;
        let values = match self.evaluate_all(nums, arguments, depth) {
            Ok(vs) => vs,
            Err(f) => {
                assert(through(self.state(), Err::<Seq<ValueV>, Fault>(f)));
                return Err(f);
            },
        };
        let ghost s1 = self.state();
        let ghost vs = values_view(values@);
        assert(through(s1, Ok::<Seq<ValueV>, Fault>(vs)));
        if values.len() != params.len() {
            self.diagnostics.push(
                Diagnostic::ArityMismatch {
                    function: name.clone(),
                    expected: params.len(),
                    got: values.len(),
                },
            );
            return Ok(Value::Nil);
        }
        let mut j: usize = 0;
        while j < params.len()
            invariant
                j <= params@.len(),
                values@.len() == params@.len(),
                self.state() == s1,
                self.variables@ == old(self).variables@,
                forall|m: int| 0 <= m < j ==> !mismatch(params@, vs, s1.aliases, m),
            decreases params@.len() - j,
        {
            if let Some(t) = &params[j].1 {
                if !self.type_matches(&values[j], t) {
                    assert(mismatch(params@, vs, s1.aliases, j as int));
                    self.diagnostics.push(
                        Diagnostic::ParameterTypeMismatch {
                            function: name.clone(),
                            parameter: params[j].0.clone(),
                        },
                    );
                    return Ok(Value::Nil);
                }
            }
            assert(!mismatch(params@, vs, s1.aliases, j as int));
            j = j + 1;
        }
        if depth == 0 {
            return Err(Fault::CallDepthExceeded);
        }
        let mut saved: Vec<(String, Value)> = Vec::new();
        std::mem::swap(&mut self.variables, &mut saved);
        assert(self.vars() =~= Seq::<(Seq<char>, ValueV)>::empty());
        let mut k: usize = 0;
        assert(params@.take(0) =~= Seq::<(String, Option<Type>)>::empty());
        while k < params.len()
            invariant
                k <= params@.len(),
                values@.len() == params@.len(),
                saved@ == old(self).variables@,
                self.state() == (RunState { vars: frame(params@.take(k as int), vs), ..s1 }),
            decreases params@.len() - k,
        {
            assert(params@.take(k + 1).drop_last() =~= params@.take(k as int));
            self.set_variable(params[k].0.clone(), values[k].copy());
            k = k + 1;
            assert(self.state() =~= (RunState { vars: frame(params@.take(k as int), vs), ..s1 }));
        }
        assert(params@.take(k as int) =~= params@);
        let result = self.execute_body(nums, def.body, depth - 1);
        let ghost s2 = self.state();
        std::mem::swap(&mut self.variables, &mut saved);
        assert(through(s2, match result {
            Ok(Some(v)) => Ok::<Option<ValueV>, Fault>(Some(v@)),
            Ok(None) => Ok::<Option<ValueV>, Fault>(None),
            Err(f) => Err::<Option<ValueV>, Fault>(f),
        }));
        match result {
            Ok(Some(v)) => Ok(v),
            Ok(None) => Ok(Value::Nil),
            Err(f) => Err(f),
        }
    }

    /// Builds a record of struct `name` from field initialisers: every
    /// declared field in declaration order, each from its first initialiser
    /// and checked against its type. An undeclared struct, a missing or
    /// unknown field, or a field of the wrong type stops the program.
    #[verifier::loop_isolation(false)]
    #[verifier::rlimit(60)]
    pub fn construct<N: NumberSystem>(
        &mut self,
        nums: &N,
        name: &'a String,
        inits: &'a Vec<(String, Expr)>,
        depth: usize,
    ) -> (r: Result<Value, Fault>)
        ensures
            eval(
                old(self).state(),
                Expr::StructLiteral { name: *name, fields: *inits },
                depth as nat,
                final(self).state(),
                vres(r),
            ),
            final(self).variables@ == old(self).variables@,
            final(self).steps <= old(self).steps,
        decreases depth, 0nat, inits,
    {
        let ghost s0 = self.state();
        let schema: &'a Vec<(String, Type)> = match find(&self.structs, name) {
            Some(i) => {
                proof {
                    assert(index_of(s0.structs, name@, i as int));
                    lemma_lookup_index(s0.structs, name@, i as int);
                }
                self.structs[i].1
            },
            None => {
                proof {
                    lemma_lookup_absent(s0.structs, name@, Seq::empty());
                }
                return Err(Fault::UndefinedStruct(name.clone()));
            },
        };
        let mut fields: Vec<(String, Value)> = Vec::new();
        let mut i: usize = 0;
        assert(schema@.take(0) =~= Seq::<(String, Type)>::empty());
        assert(fields_view(fields@) =~= Seq::<(Seq<char>, ValueV)>::empty());
        while i < schema.len()
            invariant
                i <= schema@.len(),
                lookup(s0.structs, name@) == Some(schema@),
                build(s0, *name, schema@.take(i as int), inits@, depth as nat, self.state(), Ok::<
                    Seq<(Seq<char>, ValueV)>,
                    Fault,
                >(fields_view(fields@))),
                self.variables@ == old(self).variables@,
                self.steps <= old(self).steps,
            decreases schema@.len() - i,
        {
            let ghost si = self.state();
            let ghost fv = fields_view(fields@);
            assert(schema@.take(i + 1).drop_last() =~= schema@.take(i as int));
            assert(schema@.take(i + 1).last() == schema@[i as int]);
            assert(through(si, Ok::<Seq<(Seq<char>, ValueV)>, Fault>(fv)));
            let field = &schema[i].0;
            let j = match find(inits, field) {
                Some(j) => j,
                None => {
                    assert(forall|j: int| !init_index(inits@, field@, j));
                    assert(build(s0, *name, schema@.take(i + 1), inits@, depth as nat, si, Err(
                        Fault::MissingField { strukt: *name, field: *field },
                    )));
                    proof {
                        lemma_build_fault(s0, *name, schema@, inits@, depth as nat, i + 1, si,
                            Fault::MissingField { strukt: *name, field: *field });
                    }
                    let f = Fault::MissingField { strukt: name.clone(), field: field.clone() };
                    assert(through(si, Err::<Seq<(Seq<char>, ValueV)>, Fault>(f)));
                    return Err(f);
                },
            };
            assert(init_index(inits@, field@, j as int));
            proof {
                assert(decreases_to!(inits => inits@[j as int]));
            }
            let v = match self.evaluate(nums, &inits[j].1, depth) {
                Ok(v) => v,
                Err(f) => {
                    assert(through(j as int, (self.state(), Err::<ValueV, Fault>(f))));
                    assert(build(s0, *name, schema@.take(i + 1), inits@, depth as nat, self.state(),
                        Err(f)));
                    proof {
                        lemma_build_fault(s0, *name, schema@, inits@, depth as nat, i + 1,
                            self.state(), f);
                    }
                    assert(through(self.state(), Err::<Seq<(Seq<char>, ValueV)>, Fault>(f)));
                    return Err(f);
                },
            };
            assert(through(j as int, (self.state(), Ok::<ValueV, Fault>(v@))));
            if !self.type_matches(&v, &schema[i].1) {
                let ghost sf = self.state();
                let f = Fault::FieldTypeMismatch { strukt: name.clone(), field: field.clone() };
                assert(build(s0, *name, schema@.take(i + 1), inits@, depth as nat, sf, Err(f)));
                proof {
                    lemma_build_fault(s0, *name, schema@, inits@, depth as nat, i + 1, sf, f);
                }
                assert(through(sf, Err::<Seq<(Seq<char>, ValueV)>, Fault>(f)));
                return Err(f);
            }
            let entry = (field.clone(), v);
            proof {
                lemma_fields_view_push(fields@, entry);
            }
            fields.push(entry);
            i = i + 1;
        }
        assert(schema@.take(i as int) =~= schema@);
        let ghost fv = fields_view(fields@);
        assert(through(self.state(), Ok::<Seq<(Seq<char>, ValueV)>, Fault>(fv)));
        let mut m: usize = 0;
        while m < inits.len()
            invariant
                m <= inits@.len(),
                forall|k: int| 0 <= k < m ==> in_schema(schema@, #[trigger] inits@[k].0@),
            decreases inits@.len() - m,
        {
            match find(schema, &inits[m].0) {
                Some(idx) => {
                    assert(schema@[idx as int].0@ == inits@[m as int].0@);
                },
                None => {
                    assert(!in_schema(schema@, inits@[m as int].0@));
                    return Err(Fault::UnknownField { strukt: name.clone(), field: inits[m].0.clone() });
                },
            }
            m = m + 1;
        }
        Ok(Value::Struct { name: name.clone(), fields })
    }

    /// Runs statements in order up to the first return signal, as `block`
    /// relates.
    #[verifier::loop_isolation(false)]
    pub fn execute_body<N: NumberSystem>(&mut self, nums: &N, stmts: &'a Vec<Stmt>, depth: usize) -> (r:
        Result<Option<Value>, Fault>)
        ensures
            block(old(self).state(), stmts@, depth as nat, final(self).state(), sres(r)),
            final(self).steps <= old(self).steps,
        decreases depth, 1nat, stmts,
    {
        let ghost s0 = self.state();
        let mut i: usize = 0;
        assert(stmts@.take(0) =~= Seq::<Stmt>::empty());
        while i < stmts.len()
            invariant
                i <= stmts@.len(),
                block(s0, stmts@.take(i as int), depth as nat, self.state(), Ok::<
                    Option<ValueV>,
                    Fault,
                >(None)),
                self.steps <= old(self).steps,
            decreases stmts@.len() - i,
        {
            proof {
                assert(decreases_to!(stmts => stmts@[i as int]));
            }
            let ghost si = self.state();
            assert(stmts@.take(i + 1).drop_last() =~= stmts@.take(i as int));
            assert(through(si, Ok::<Option<ValueV>, Fault>(None)));
            let r = self.execute(nums, &stmts[i], depth);
            assert(block(s0, stmts@.take(i + 1), depth as nat, self.state(), sres(r)));
            match r {
                Ok(None) => {},
                _ => {
                    proof {
                        lemma_block_stop(s0, stmts@, depth as nat, i + 1, self.state(), sres(r));
                    }
                    return r;
                },
            }
            i = i + 1;
        }
        assert(stmts@.take(i as int) =~= stmts@);
        Ok(None)
    }

    /// Runs one statement, as `exec` relates; `Some` is the return signal
    /// with its value.
    #[verifier::loop_isolation(false)]
    #[verifier::rlimit(60)]
    pub fn execute<N: NumberSystem>(&mut self, nums: &N, stmt: &'a Stmt, depth: usize) -> (r: Result<
        Option<Value>,
        Fault,
    >)
        ensures
            exec(old(self).state(), *stmt, depth as nat, final(self).state(), sres(r)),
            final(self).steps <= old(self).steps,
        decreases depth, 1nat, stmt,
    {
        let ghost s0 = self.state();
        match stmt {
            Stmt::Expression(e) => {
                let r = self.evaluate(nums, e, depth);
                assert(through(self.state(), vres(r)));
                match r {
                    Ok(_) => Ok(None),
                    Err(f) => Err(f),
                }
            },
            Stmt::Let { name, value } => {
                let v = match self.evaluate(nums, value, depth) {
                    Ok(v) => v,
                    Err(f) => {
                        assert(through(self.state(), Err::<ValueV, Fault>(f)));
                        return Err(f);
                    },
                };
                let ghost s1 = self.state();
                assert(through(s1, Ok::<ValueV, Fault>(v@)));
                self.set_variable(name.clone(), v);
                assert(self.state() =~= (RunState { vars: bind(s1.vars, name@, v@), ..s1 }));
                Ok(None)
            },
            Stmt::Function { name, params, return_type: _, body } => {
                let r = set_entry(&mut self.functions, name.clone(), FunctionDef { params, body });
                let ghost x = (params@, body@);
                proof {
                    match r {
                        Some(i) => {
                            assert(index_of(s0.funcs, name@, i as int));
                            lemma_bind_at(s0.funcs, name@, x, i as int);
                        },
                        None => {
                            lemma_lookup_absent(s0.funcs, name@, x);
                        },
                    }
                }
                assert(self.state().funcs =~= bind(s0.funcs, name@, x));
                assert(self.state() == (RunState { funcs: bind(s0.funcs, name@, x), ..s0 }));
                Ok(None)
            },
            Stmt::If { condition, then_branch, else_branch } => {
                let c = match self.evaluate(nums, condition, depth) {
                    Ok(v) => v,
                    Err(f) => {
                        assert(through(self.state(), Err::<ValueV, Fault>(f)));
                        return Err(f);
                    },
                };
                assert(through(self.state(), Ok::<ValueV, Fault>(c@)));
                if c.is_truthy() {
                    self.execute_body(nums, then_branch, depth)
                } else {
                    match else_branch {
                        Some(b) => self.execute_body(nums, b, depth),
                        None => Ok(None),
                    }
                }
            },
            Stmt::While { condition, body } => {
                loop
                    invariant
                        forall|t: RunState, r: Result<Option<ValueV>, Fault>|
                            #[trigger] run_while(self.state(), *condition, body@, depth as nat, t, r)
                                ==> run_while(s0, *condition, body@, depth as nat, t, r),
                        self.steps <= old(self).steps,
                    decreases self.steps,
                {
                    let ghost sc = self.state();
                    let c = match self.evaluate(nums, condition, depth) {
                        Ok(v) => v,
                        Err(f) => {
                            assert(through(self.state(), Err::<ValueV, Fault>(f)));
                            assert(run_while(sc, *condition, body@, depth as nat, self.state(),
                                Err(f)));
                            return Err(f);
                        },
                    };
                    let ghost s1 = self.state();
                    assert(through(s1, Ok::<ValueV, Fault>(c@)));
                    if !c.is_truthy() {
                        assert(run_while(sc, *condition, body@, depth as nat, s1, Ok(None)));
                        return Ok(None);
                    }
                    if self.steps == 0 {
                        assert(run_while(sc, *condition, body@, depth as nat, s1, Err(
                            Fault::StepLimitReached,
                        )));
                        return Err(Fault::StepLimitReached);
                    }
                    self.steps = self.steps - 1;
                    assert(self.state() == (RunState { steps: (s1.steps - 1) as u64, ..s1 }));
                    let r = self.execute_body(nums, body, depth);
                    let ghost s3 = self.state();
                    assert(through(s3, sres(r)));
                    match r {
                        Ok(None) => {},
                        _ => {
                            assert(run_while(sc, *condition, body@, depth as nat, s3, sres(r)));
                            return r;
                        },
                    }
                    assert forall|t: RunState, rr: Result<Option<ValueV>, Fault>|
                        #[trigger] run_while(s3, *condition, body@, depth as nat, t, rr)
                            implies run_while(s0, *condition, body@, depth as nat, t, rr) by {
                        assert(run_while(sc, *condition, body@, depth as nat, t, rr));
                    }
                }
            },
            Stmt::Return(value) => match value {
                Some(e) => {
                    let r = self.evaluate(nums, e, depth);
                    assert(through(self.state(), vres(r)));
                    match r {
                        Ok(v) => Ok(Some(v)),
                        Err(f) => Err(f),
                    }
                },
                None => Ok(Some(Value::Nil)),
            },
            Stmt::Block(b) => self.execute_body(nums, b, depth),
            Stmt::Struct { name, fields } => {
                let r = set_entry(&mut self.structs, name.clone(), fields);
                proof {
                    match r {
                        Some(i) => {
                            assert(index_of(s0.structs, name@, i as int));
                            lemma_bind_at(s0.structs, name@, fields@, i as int);
                        },
                        None => {
                            lemma_lookup_absent(s0.structs, name@, fields@);
                        },
                    }
                }
                assert(self.state().structs =~= bind(s0.structs, name@, fields@));
                assert(self.state() == (RunState { structs: bind(s0.structs, name@, fields@), ..s0 }));
                Ok(None)
            },
            Stmt::TypeAlias { name, variants } => {
                let ghost x = strings_view(variants@);
                let r = set_entry(&mut self.aliases, name.clone(), variants);
                proof {
                    match r {
                        Some(i) => {
                            assert(index_of(s0.aliases, name@, i as int));
                            lemma_bind_at(s0.aliases, name@, x, i as int);
                        },
                        None => {
                            lemma_lookup_absent(s0.aliases, name@, x);
                        },
                    }
                }
                assert(self.state().aliases =~= bind(s0.aliases, name@, x));
                assert(self.state() == (RunState { aliases: bind(s0.aliases, name@, x), ..s0 }));
                Ok(None)
            },
        }
    }
}

/// A parsed program, ready to run.
pub struct Executor {
    pub ast: Ast,
}

/// What a run of `stmts` from the initial state, with calls nested at most
/// `depth` deep, may produce: its printed lines, its diagnostics and the
/// fault that stopped it.
pub open spec fn outcome_of(stmts: Seq<Stmt>, depth: nat, o: Outcome) -> bool {
    exists|t: RunState, f: Option<Fault>|
        #[trigger] through(t, f) && run_top(initial_state(), stmts, depth, t, f) && o.output@.map_values(
            |l: String| l@,
        ) == t.output && o.diagnostics@ == t.diags && o.fault == f
}

impl Executor {
    pub fn new(ast: Ast) -> (r: Executor)
        ensures
            r.ast == ast,
    {
        Executor { ast }
    }

    /// Runs the program's top-level statements in order, until the end or a
    /// fault, with calls nested at most `max_depth` deep. A top-level return
    /// signal is ignored.
    #[verifier::loop_isolation(false)]
    pub fn exec<N: NumberSystem>(&self, nums: &N, max_depth: usize) -> (r: Outcome)
        ensures
            outcome_of(self.ast.statements@, max_depth as nat, r),
    {
        let mut rt = Runtime::new();
        assert(rt.state().vars =~= initial_state().vars);
        assert(rt.state().funcs =~= initial_state().funcs);
        assert(rt.state().structs =~= initial_state().structs);
        assert(rt.state().aliases =~= initial_state().aliases);
        assert(rt.state().output =~= initial_state().output);
        assert(rt.state().diags =~= initial_state().diags);
        assert(rt.state() == initial_state());
        let stmts = &self.ast.statements;
        let mut i: usize = 0;
        assert(stmts@.take(0) =~= Seq::<Stmt>::empty());
        while i < stmts.len()
            invariant
                i <= stmts@.len(),
                run_top(initial_state(), stmts@.take(i as int), max_depth as nat, rt.state(), None),
            decreases stmts@.len() - i,
        {
            let ghost si = rt.state();
            assert(stmts@.take(i + 1).drop_last() =~= stmts@.take(i as int));
            assert(through(si, None::<Fault>));
            let r = rt.execute(nums, &stmts[i], max_depth);
            assert(through(rt.state(), sres(r)));
            match r {
                Ok(_) => {},
                Err(f) => {
                    assert(run_top(initial_state(), stmts@.take(i + 1), max_depth as nat, rt.state(), Some(f)));
                    proof {
                        lemma_top_fault(initial_state(), stmts@, max_depth as nat, i + 1, rt.state(), f);
                    }
                    assert(through(rt.state(), Some(f)));
                    return Outcome { output: rt.output, diagnostics: rt.diagnostics, fault: Some(f) };
                },
            }
            i = i + 1;
        }
        assert(stmts@.take(i as int) =~= stmts@);
        assert(through(rt.state(), None::<Fault>));
        Outcome { output: rt.output, diagnostics: rt.diagnostics, fault: None }
    }
}

/// Binds `k` in a table: replaces its first entry (whose index is returned)
/// or appends one.
pub fn set_entry<X>(s: &mut Vec<(String, X)>, k: String, x: X) -> (r: Option<usize>)
    ensures
        match r {
            Some(i) => i < old(s)@.len() && old(s)@[i as int].0@ == k@ && (forall|j: int|
                0 <= j < i ==> old(s)@[j].0@ != k@) && final(s)@ == old(s)@.update(i as int, (k, x)),
            None => (forall|j: int| 0 <= j < old(s)@.len() ==> old(s)@[j].0@ != k@) && final(s)@
                == old(s)@.push((k, x)),
        },
{
    match find(s, &k) {
        Some(i) => {
            s.set(i, (k, x));
            Some(i)
        },
        None => {
            s.push((k, x));
            None
        },
    }
}

fn is_print(name: &String) -> (r: bool)
    ensures
        r == (name@ == "print"@),
{
    let p = String::from_str("print");
    *name == p
}

/// The text that `print` writes for a value, as `renders` relates; a number
/// is written by the number system.
#[verifier::loop_isolation(false)]
pub fn render_value<N: NumberSystem>(nums: &N, v: &Value) -> (r: String)
    ensures
        renders(v@, r@),
        plain_text(v@) is Some ==> r@ == plain_text(v@)->0,
    decreases v,
{
    match v {
        Value::String(s) => {
            let r = s.clone();
            assert(v@ == ValueV::String(s@));
            r
        },
        Value::Number(n) => nums.render(*n),
        Value::Boolean(b) => {
            let r = if *b {
                String::from_str("true")
            } else {
                String::from_str("false")
            };
            assert(renders(v@, r@));
            r
        },
        Value::Nil => {
            let r = String::from_str("nil");
            assert(renders(v@, r@));
            r
        },
        Value::Struct { name: _, fields } => {
            proof {
                lemma_fields_view_len(fields@);
            }
            let ghost fv = fields_view(fields@);
            let mut out = String::from_str("{ ");
            let ghost mut inner: Seq<char> = Seq::empty();
            let mut i: usize = 0;
            assert(fv.take(0) =~= Seq::<(Seq<char>, ValueV)>::empty());
            while i < fields.len()
                invariant
                    i <= fields@.len(),
                    out@ == "{ "@ + inner,
                    renders_fields(fv.take(i as int), inner),
                decreases fields@.len() - i,
            {
                let ghost before = inner;
                if i > 0 {
                    out.append(", ");
                }
                out.append(fields[i].0.as_str());
                out.append(": ");
                proof {
                    assert(decreases_to!(fields => fields@[i as int]));
                }
                let text = render_value(nums, &fields[i].1);
                out.append(text.as_str());
                proof {
                    inner = before + (if i > 0 { ", "@ } else { Seq::empty() }) + fields@[i as int].0@
                        + ": "@ + text@;
                    assert(fv.take(i + 1).drop_last() =~= fv.take(i as int));
                    assert(fv.take(i + 1).last() == fv[i as int]);
                    assert(through(before, text@));
                    assert(out@ =~= "{ "@ + inner);
                }
                i = i + 1;
            }
            out.append(" }");
            proof {
                assert(fv.take(i as int) =~= fv);
                assert(v@ == ValueV::Struct(v@->Struct_0, fv));
                assert(out@ =~= "{ "@ + inner + " }"@);
                reveal_strlit("{ ");
                reveal_strlit(" }");
                assert(out@.subrange(2, out@.len() - 2) =~= inner);
                assert(renders(v@, out@));
            }
            out
        },
    }
}

} // verus!
