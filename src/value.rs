//! Runtime values, and the rules on them that do not depend on the program:
//! truthiness, equality, and the operators.
use vstd::prelude::*;

use crate::ast::{BinaryOp, UnaryOp};
use crate::table::{find, index_of, lemma_lookup_absent, lemma_lookup_index, lemma_lookup_some, lookup};

verus! {

broadcast use vstd::std_specs::vec::group_vec_axioms, vstd::seq::group_seq_axioms;

/// A runtime value. A number is held as the bit pattern of an IEEE-754
/// double; a record holds its fields in the order its struct declares them.
#[derive(Debug)]
pub enum Value {
    String(String),
    Number(u64),
    Boolean(bool),
    Nil,
    Struct { name: String, fields: Vec<(String, Value)> },
}

pub ghost enum ValueV {
    String(Seq<char>),
    Number(u64),
    Boolean(bool),
    Nil,
    Struct(Seq<char>, Seq<(Seq<char>, ValueV)>),
}

pub open spec fn value_view(v: Value) -> ValueV
    decreases v,
{
    match v {
        Value::String(s) => ValueV::String(s@),
        Value::Number(n) => ValueV::Number(n),
        Value::Boolean(b) => ValueV::Boolean(b),
        Value::Nil => ValueV::Nil,
        Value::Struct { name, fields } => ValueV::Struct(name@, fields_view(fields@)),
    }
}

pub open spec fn fields_view(fs: Seq<(String, Value)>) -> Seq<(Seq<char>, ValueV)>
    decreases fs,
{
    if fs.len() == 0 {
        Seq::empty()
    } else {
        fields_view(fs.drop_last()).push((fs.last().0@, value_view(fs.last().1)))
    }
}

impl View for Value {
    type V = ValueV;

    open spec fn view(&self) -> ValueV {
        value_view(*self)
    }
}

pub proof fn lemma_fields_view_push(fs: Seq<(String, Value)>, f: (String, Value))
    ensures
        fields_view(fs.push(f)) == fields_view(fs).push((f.0@, f.1@)),
{
    assert(fs.push(f).drop_last() =~= fs);
}

pub proof fn lemma_fields_view_len(fs: Seq<(String, Value)>)
    ensures
        fields_view(fs).len() == fs.len(),
        forall|i: int|
            0 <= i < fs.len() ==> #[trigger] fields_view(fs)[i] == (fs[i].0@, fs[i].1@),
    decreases fs.len(),
{
    if fs.len() > 0 {
        lemma_fields_view_len(fs.drop_last());
    }
}

/// `false` and `nil` are false; every other value is true.
pub open spec fn truthy(v: ValueV) -> bool {
    match v {
        ValueV::Boolean(b) => b,
        ValueV::Nil => false,
        _ => true,
    }
}

/// Whether the bits are those of a NaN: all exponent bits set and a fraction
/// other than zero.
pub open spec fn is_nan(n: u64) -> bool {
    n & 0x7ff0_0000_0000_0000u64 == 0x7ff0_0000_0000_0000u64 && n & 0x000f_ffff_ffff_ffffu64
        != 0
}

/// The place of a double that is not NaN on the number line: its magnitude
/// bits, negated for a set sign bit. Both zeros have place 0; the order of
/// places is the order of the doubles.
pub open spec fn place(n: u64) -> int {
    let m = n & 0x7fff_ffff_ffff_ffffu64;
    if n >> 63u64 == 1 {
        -(m as int)
    } else {
        m as int
    }
}

/// IEEE-754 equality: NaN equals nothing, and the two zeros are equal.
pub open spec fn num_eq(a: u64, b: u64) -> bool {
    !is_nan(a) && !is_nan(b) && place(a) == place(b)
}

/// IEEE-754 `<`: false where either side is NaN.
pub open spec fn num_lt(a: u64, b: u64) -> bool {
    !is_nan(a) && !is_nan(b) && place(a) < place(b)
}

/// Structural equality: mixed kinds are unequal; records compare their type
/// names and their fields as maps from name to value, whatever their order:
/// every field of one has an equal value under its name in the other, and
/// every name of the other is a field of the one.
pub open spec fn values_equal(a: ValueV, b: ValueV) -> bool
    decreases a,
{
    match (a, b) {
        (ValueV::String(x), ValueV::String(y)) => x == y,
        (ValueV::Number(x), ValueV::Number(y)) => num_eq(x, y),
        (ValueV::Boolean(x), ValueV::Boolean(y)) => x == y,
        (ValueV::Nil, ValueV::Nil) => true,
        (ValueV::Struct(t, fs), ValueV::Struct(u, gs)) => {
            &&& t == u
            &&& fs.len() == gs.len()
            &&& forall|i: int|
                #![trigger fs[i]]
                0 <= i < fs.len() ==> lookup(gs, fs[i].0) is Some && values_equal(
                    fs[i].1,
                    lookup(gs, fs[i].0)->0,
                )
            &&& forall|j: int| #![trigger gs[j]] 0 <= j < gs.len() ==> lookup(fs, gs[j].0) is Some
        },
        _ => false,
    }
}

/// Field names are distinct in every record within the value.
pub open spec fn well_keyed(v: ValueV) -> bool
    decreases v,
{
    match v {
        ValueV::Struct(_, fs) => {
            &&& forall|i: int, j: int| 0 <= i < j < fs.len() ==> fs[i].0 != fs[j].0
            &&& forall|i: int| #![trigger fs[i]] 0 <= i < fs.len() ==> well_keyed(fs[i].1)
        },
        _ => true,
    }
}

/// Whether an operator is one of the four whose result the number system
/// computes.
pub open spec fn is_arithmetic(op: BinaryOp) -> bool {
    op == BinaryOp::Add || op == BinaryOp::Subtract || op == BinaryOp::Multiply || op
        == BinaryOp::Divide
}

/// The value of a binary operation that does not compute a new number:
/// concatenation, comparisons, and equality. `None` marks a combination that
/// the language rejects (a diagnostic and nil).
pub open spec fn binary_result(op: BinaryOp, l: ValueV, r: ValueV) -> Option<ValueV> {
    match (l, op, r) {
        (ValueV::String(x), BinaryOp::Add, ValueV::String(y)) => Some(ValueV::String(x + y)),
        (ValueV::Number(x), BinaryOp::Less, ValueV::Number(y)) => Some(ValueV::Boolean(num_lt(x, y))),
        (ValueV::Number(x), BinaryOp::LessEqual, ValueV::Number(y)) => Some(
            ValueV::Boolean(num_lt(x, y) || num_eq(x, y)),
        ),
        (ValueV::Number(x), BinaryOp::Greater, ValueV::Number(y)) => Some(
            ValueV::Boolean(num_lt(y, x)),
        ),
        (ValueV::Number(x), BinaryOp::GreaterEqual, ValueV::Number(y)) => Some(
            ValueV::Boolean(num_lt(y, x) || num_eq(x, y)),
        ),
        (_, BinaryOp::Equal, _) => Some(ValueV::Boolean(values_equal(l, r))),
        (_, BinaryOp::NotEqual, _) => Some(ValueV::Boolean(!values_equal(l, r))),
        _ => None,
    }
}

/// `-` flips the sign bit of a number; `!` negates truthiness.
pub open spec fn unary_result(op: UnaryOp, v: ValueV) -> Option<ValueV> {
    match (op, v) {
        (UnaryOp::Negate, ValueV::Number(n)) => Some(ValueV::Number(n ^ 0x8000_0000_0000_0000u64)),
        (UnaryOp::Not, _) => Some(ValueV::Boolean(!truthy(v))),
        _ => None,
    }
}

impl Value {
    /// A deep copy.
    #[verifier::loop_isolation(false)]
    pub fn copy(&self) -> (r: Value)
        ensures
            r@ == self@,
        decreases self,
    {
        match self {
            Value::String(s) => Value::String(s.clone()),
            Value::Number(n) => Value::Number(*n),
            Value::Boolean(b) => Value::Boolean(*b),
            Value::Nil => Value::Nil,
            Value::Struct { name, fields } => {
                let mut copied: Vec<(String, Value)> = Vec::new();
                let mut i: usize = 0;
                while i < fields.len()
                    invariant
                        i <= fields@.len(),
                        fields_view(copied@) == fields_view(fields@.subrange(0, i as int)),
                    decreases fields@.len() - i,
                {
                    proof {
                        assert(decreases_to!(fields => fields@[i as int]));
                    }
                    let f = (fields[i].0.clone(), fields[i].1.copy());
                    proof {
                        lemma_fields_view_push(copied@, f);
                        lemma_fields_view_push(fields@.subrange(0, i as int), fields@[i as int]);
                        assert(fields@.subrange(0, i as int).push(fields@[i as int])
                            =~= fields@.subrange(0, i + 1));
                    }
                    copied.push(f);
                    i = i + 1;
                }
                assert(fields@.subrange(0, i as int) =~= fields@);
                Value::Struct { name: name.clone(), fields: copied }
            },
        }
    }

    pub fn is_truthy(&self) -> (r: bool)
        ensures
            r == truthy(self@),
    {
        match self {
            Value::Boolean(b) => *b,
            Value::Nil => false,
            _ => true,
        }
    }
}

pub fn is_nan_bits(n: u64) -> (r: bool)
    ensures
        r == is_nan(n),
{
    n & 0x7ff0_0000_0000_0000u64 == 0x7ff0_0000_0000_0000u64 && n & 0x000f_ffff_ffff_ffffu64 != 0
}

fn place_of(n: u64) -> (r: i128)
    ensures
        r == place(n),
{
    let m = n & 0x7fff_ffff_ffff_ffffu64;
    if n >> 63u64 == 1 {
        -(m as i128)
    } else {
        m as i128
    }
}

pub fn numbers_equal(a: u64, b: u64) -> (r: bool)
    ensures
        r == num_eq(a, b),
{
    !is_nan_bits(a) && !is_nan_bits(b) && place_of(a) == place_of(b)
}

pub fn number_less(a: u64, b: u64) -> (r: bool)
    ensures
        r == num_lt(a, b),
{
    !is_nan_bits(a) && !is_nan_bits(b) && place_of(a) < place_of(b)
}

/// Structural equality of two values.
#[verifier::loop_isolation(false)]
pub fn values_eq(a: &Value, b: &Value) -> (r: bool)
    ensures
        r == values_equal(a@, b@),
    decreases a,
{
    match (a, b) {
        (Value::String(x), Value::String(y)) => *x == *y,
        (Value::Number(x), Value::Number(y)) => numbers_equal(*x, *y),
        (Value::Boolean(x), Value::Boolean(y)) => *x == *y,
        (Value::Nil, Value::Nil) => true,
        (Value::Struct { name: t, fields: fs }, Value::Struct { name: u, fields: gs }) => {
            proof {
                lemma_fields_view_len(fs@);
                lemma_fields_view_len(gs@);
            }
            if *t != *u || fs.len() != gs.len() {
                return false;
            }
            let ghost fv = fields_view(fs@);
            let ghost gv = fields_view(gs@);
            assert(a@ == ValueV::Struct(t@, fv));
            assert(b@ == ValueV::Struct(u@, gv));
            let mut i: usize = 0;
            while i < fs.len()
                invariant
                    i <= fs@.len(),
                    forall|k: int|
                        #![trigger fv[k]]
                        0 <= k < i ==> lookup(gv, fv[k].0) is Some && values_equal(
                            fv[k].1,
                            lookup(gv, fv[k].0)->0,
                        ),
                decreases fs@.len() - i,
            {
                proof {
                    assert(decreases_to!(fs => fs@[i as int]));
                }
                assert(fv[i as int] == (fs@[i as int].0@, fs@[i as int].1@));
                match find(gs, &fs[i].0) {
                    Some(j) => {
                        proof {
                            assert(index_of(gv, fv[i as int].0, j as int));
                            lemma_lookup_index(gv, fv[i as int].0, j as int);
                        }
                        if !values_eq(&fs[i].1, &gs[j].1) {
                            return false;
                        }
                    },
                    None => {
                        proof {
                            lemma_lookup_absent(gv, fv[i as int].0, ValueV::Nil);
                        }
                        return false;
                    },
                }
                i = i + 1;
            }
            let mut m: usize = 0;
            while m < gs.len()
                invariant
                    m <= gs@.len(),
                    forall|k: int|
                        #![trigger fv[k]]
                        0 <= k < fv.len() ==> lookup(gv, fv[k].0) is Some && values_equal(
                            fv[k].1,
                            lookup(gv, fv[k].0)->0,
                        ),
                    forall|n: int| #![trigger gv[n]] 0 <= n < m ==> lookup(fv, gv[n].0) is Some,
                decreases gs@.len() - m,
            {
                assert(gv[m as int] == (gs@[m as int].0@, gs@[m as int].1@));
                match find(fs, &gs[m].0) {
                    Some(k) => {
                        proof {
                            assert(index_of(fv, gv[m as int].0, k as int));
                            lemma_lookup_index(fv, gv[m as int].0, k as int);
                        }
                    },
                    None => {
                        proof {
                            lemma_lookup_absent(fv, gv[m as int].0, ValueV::Nil);
                        }
                        return false;
                    },
                }
                m = m + 1;
            }
            true
        },
        _ => false,
    }
}

} // verus!

verus! {

/// Floating-point work that the interpreter leaves to its host: reading a
/// number literal, the four arithmetic operations, and the decimal form of
/// a number. Numbers are passed as the bit patterns of IEEE-754 doubles.
pub trait NumberSystem {
    /// The double that a lexeme of digits and dots denotes.
    fn parse_number(&self, lexeme: &str) -> u64;

    fn add(&self, a: u64, b: u64) -> u64;

    fn subtract(&self, a: u64, b: u64) -> u64;

    fn multiply(&self, a: u64, b: u64) -> u64;

    fn divide(&self, a: u64, b: u64) -> u64;

    /// The shortest decimal text that reads back as the same double.
    fn render(&self, a: u64) -> String;
}

/// Applies a binary operator. `None` is a combination that the language
/// rejects. On two numbers the four arithmetic operators give the number
/// that the number system computes; every other combination is given by
/// `binary_result`.
pub fn evaluate_binary_op<N: NumberSystem>(nums: &N, l: &Value, op: BinaryOp, r: &Value) -> (res:
    Option<Value>)
    ensures
        (l@ is Number && r@ is Number && is_arithmetic(op)) ==> res is Some && res->0@ is Number,
        !(l@ is Number && r@ is Number && is_arithmetic(op)) ==> match res {
            Some(v) => binary_result(op, l@, r@) == Some(v@),
            None => binary_result(op, l@, r@) is None,
        },
{
    match (l, r) {
        (Value::Number(x), Value::Number(y)) => {
            let (x, y) = (*x, *y);
            match op {
                BinaryOp::Add => return Some(Value::Number(nums.add(x, y))),
                BinaryOp::Subtract => return Some(Value::Number(nums.subtract(x, y))),
                BinaryOp::Multiply => return Some(Value::Number(nums.multiply(x, y))),
                BinaryOp::Divide => return Some(Value::Number(nums.divide(x, y))),
                BinaryOp::Less => return Some(Value::Boolean(number_less(x, y))),
                BinaryOp::LessEqual => return Some(
                    Value::Boolean(number_less(x, y) || numbers_equal(x, y)),
                ),
                BinaryOp::Greater => return Some(Value::Boolean(number_less(y, x))),
                BinaryOp::GreaterEqual => return Some(
                    Value::Boolean(number_less(y, x) || numbers_equal(x, y)),
                ),
                _ => {},
            }
        },
        (Value::String(x), Value::String(y)) => {
            if op == BinaryOp::Add {
                let mut s = x.clone();
                s.append(y.as_str());
                return Some(Value::String(s));
            }
        },
        _ => {},
    }
    match op {
        BinaryOp::Equal => Some(Value::Boolean(values_eq(l, r))),
        BinaryOp::NotEqual => Some(Value::Boolean(!values_eq(l, r))),
        _ => None,
    }
}

/// Applies a unary operator; `None` is `-` on a value that is not a number.
pub fn evaluate_unary_op(op: UnaryOp, v: &Value) -> (res: Option<Value>)
    ensures
        match res {
            Some(r) => unary_result(op, v@) == Some(r@),
            None => unary_result(op, v@) is None,
        },
{
    match (op, v) {
        (UnaryOp::Negate, Value::Number(n)) => Some(Value::Number(*n ^ 0x8000_0000_0000_0000u64)),
        (UnaryOp::Not, _) => Some(Value::Boolean(!v.is_truthy())),
        _ => None,
    }
}

} // verus!

verus! {

/// Exactly `false` and `nil` are false.
pub proof fn lemma_falsy_values(v: ValueV)
    ensures
        !truthy(v) <==> (v == ValueV::Nil || v == ValueV::Boolean(false)),
{
}

/// Equality is total: `==` and `!=` give a boolean on any two values, and
/// `!=` is the negation of `==`.
pub proof fn lemma_equality_total(v: ValueV, w: ValueV)
    ensures
        binary_result(BinaryOp::Equal, v, w) == Some(ValueV::Boolean(values_equal(v, w))),
        binary_result(BinaryOp::NotEqual, v, w) == Some(ValueV::Boolean(!values_equal(v, w))),
{
}

/// Equality is symmetric on values whose records have distinct field names
/// (as every record built from a struct with distinct field names has).
pub proof fn lemma_equality_symmetric(v: ValueV, w: ValueV)
    requires
        well_keyed(v),
        well_keyed(w),
    ensures
        values_equal(v, w) == values_equal(w, v),
{
    if values_equal(v, w) {
        lemma_equal_flip(v, w);
    }
    if values_equal(w, v) {
        lemma_equal_flip(w, v);
    }
}

proof fn lemma_equal_flip(v: ValueV, w: ValueV)
    requires
        well_keyed(v),
        well_keyed(w),
        values_equal(v, w),
    ensures
        values_equal(w, v),
    decreases v,
{
    if let (ValueV::Struct(t, fs), ValueV::Struct(u, gs)) = (v, w) {
        assert(forall|i: int, j: int| 0 <= i < j < gs.len() ==> gs[i].0 != gs[j].0);
        assert forall|j: int| #![trigger gs[j]] 0 <= j < gs.len() implies lookup(fs, gs[j].0) is Some
            && values_equal(gs[j].1, lookup(fs, gs[j].0)->0) by {
            let i = lemma_lookup_some(fs, gs[j].0);
            assert(index_of(gs, gs[j].0, j));
            lemma_lookup_index(gs, gs[j].0, j);
            assert(fs[i].0 == gs[j].0);
            assert(values_equal(fs[i].1, lookup(gs, fs[i].0)->0));
            assert(decreases_to!(v => fs));
            assert(decreases_to!(fs => fs[i]));
            assert(well_keyed(fs[i].1));
            assert(well_keyed(gs[j].1));
            lemma_equal_flip(fs[i].1, gs[j].1);
        }
        assert forall|i: int| #![trigger fs[i]] 0 <= i < fs.len() implies lookup(gs, fs[i].0) is Some by {
        }
    }
}

} // verus!
