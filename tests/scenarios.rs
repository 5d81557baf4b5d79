use weave::grammar::{Expected, ParseError};
use weave::interpreter::run_program;
use weave::runtime::{Diagnostic, Fault, Outcome};
use weave::token::TokenKind;
use weave::value::NumberSystem;

struct Doubles;

impl NumberSystem for Doubles {
    fn parse_number(&self, lexeme: &str) -> u64 {
        lexeme.parse::<f64>().unwrap_or(0.0).to_bits()
    }

    fn add(&self, a: u64, b: u64) -> u64 {
        (f64::from_bits(a) + f64::from_bits(b)).to_bits()
    }

    fn subtract(&self, a: u64, b: u64) -> u64 {
        (f64::from_bits(a) - f64::from_bits(b)).to_bits()
    }

    fn multiply(&self, a: u64, b: u64) -> u64 {
        (f64::from_bits(a) * f64::from_bits(b)).to_bits()
    }

    fn divide(&self, a: u64, b: u64) -> u64 {
        (f64::from_bits(a) / f64::from_bits(b)).to_bits()
    }

    fn render(&self, a: u64) -> String {
        f64::from_bits(a).to_string()
    }
}

fn run(src: &str) -> Outcome {
    run_program(src.as_bytes().to_vec(), &Doubles, 100).expect("program should parse")
}

fn output(src: &str) -> Vec<String> {
    let outcome = run(src);
    assert!(outcome.fault.is_none(), "unexpected fault: {:?}", outcome.fault);
    outcome.output
}

#[test]
fn print_hello() {
    assert_eq!(output("print(\"hello\")"), vec!["hello"]);
}

#[test]
fn let_bindings_and_arithmetic() {
    assert_eq!(output("let a = 2 let b = 3 print(a + b * 4)"), vec!["14"]);
}

#[test]
fn function_call_returns_sum() {
    assert_eq!(output("fn add(x, y) { return x + y } print(add(2, 5))"), vec!["7"]);
}

#[test]
fn struct_literal_and_field_access() {
    let src = "struct P { n: str, a: number } let p = P { n: \"x\", a: 3 } print(p.n) print(p.a)";
    assert_eq!(output(src), vec!["x", "3"]);
}

#[test]
fn union_alias_accepts_variant() {
    let src = "type Color = \"red\" | \"blue\" fn f(c: Color) { print(c) } f(\"red\")";
    assert_eq!(output(src), vec!["red"]);
}

#[test]
fn union_alias_rejects_other_string() {
    let src = "type Color = \"red\" | \"blue\" fn f(c: Color) { print(c) } print(f(\"green\"))";
    let outcome = run(src);
    assert!(outcome.fault.is_none());
    assert_eq!(outcome.output, vec!["nil"]);
    assert_eq!(
        outcome.diagnostics,
        vec![Diagnostic::ParameterTypeMismatch { function: "f".to_string(), parameter: "c".to_string() }]
    );
}

#[test]
fn while_loop_with_let_overwrite() {
    assert_eq!(output("let i = 0 while i < 3 { print(i) let i = i + 1 }"), vec!["0", "1", "2"]);
}

#[test]
fn precedence_of_multiplication() {
    assert_eq!(output("print(1 + 2 * 3) print((1 + 2) * 3)"), vec!["7", "9"]);
}

#[test]
fn subtraction_is_left_associative() {
    assert_eq!(output("print(10 - 3 - 2)"), vec!["5"]);
}

#[test]
fn literals_print_canonically() {
    assert_eq!(
        output("print(42) print(1.5) print(\"a b\") print(true) print(false) print(nil)"),
        vec!["42", "1.5", "a b", "true", "false", "nil"]
    );
}

#[test]
fn equality_and_inequality_are_negations() {
    assert_eq!(
        output("print(1 == 1, 1 != 1) print(\"a\" == 1, \"a\" != 1) print(nil == nil, nil != false)"),
        vec!["truefalse", "falsetrue", "truetrue"]
    );
}

#[test]
fn equality_of_records() {
    let src = "struct P { a: number } let p = P { a: 1 } let q = P { a: 1 } let r = P { a: 2 } print(p == q, p == r, q == p)";
    assert_eq!(output(src), vec!["truefalsetrue"]);
}

#[test]
fn only_false_and_nil_are_falsy() {
    let src = "if 0 { print(\"zero\") } if \"\" { print(\"empty\") } if nil { print(\"nil\") } if false { print(\"false\") } else { print(\"else\") } print(!nil, !0)";
    assert_eq!(output(src), vec!["zero", "empty", "else", "truefalse"]);
}

#[test]
fn call_frame_is_discarded() {
    let src = "let outer = 1 fn f() { let inner = 2 return inner } print(f()) print(inner) print(outer)";
    let outcome = run(src);
    assert_eq!(outcome.output, vec!["2", "nil", "1"]);
    assert_eq!(outcome.diagnostics, vec![Diagnostic::UndefinedVariable("inner".to_string())]);
}

#[test]
fn function_does_not_see_outer_variables() {
    let outcome = run("let g = 5 fn f() { return g } print(f())");
    assert_eq!(outcome.output, vec!["nil"]);
    assert_eq!(outcome.diagnostics, vec![Diagnostic::UndefinedVariable("g".to_string())]);
}

#[test]
fn recursion_through_function_table() {
    let src = "fn fact(n) { if n < 2 { return 1 } return n * fact(n - 1) } print(fact(5))";
    assert_eq!(output(src), vec!["120"]);
}

#[test]
fn record_prints_fields_in_declared_order() {
    let src = "struct P { n: str, a: number } let p = P { a: 3, n: \"x\" } print(p)";
    assert_eq!(output(src), vec!["{ n: x, a: 3 }"]);
}

#[test]
fn record_missing_field_is_fatal() {
    let outcome = run("struct P { n: str, a: number } let p = P { n: \"x\" } print(\"after\")");
    assert_eq!(outcome.fault, Some(Fault::MissingField { strukt: "P".to_string(), field: "a".to_string() }));
    assert!(outcome.output.is_empty());
}

#[test]
fn record_unknown_field_is_fatal() {
    let outcome = run("struct P { n: str } let p = P { n: \"x\", z: 1 }");
    assert_eq!(outcome.fault, Some(Fault::UnknownField { strukt: "P".to_string(), field: "z".to_string() }));
}

#[test]
fn record_field_type_mismatch_is_fatal() {
    let outcome = run("struct P { n: str } let p = P { n: 1 }");
    assert_eq!(outcome.fault, Some(Fault::FieldTypeMismatch { strukt: "P".to_string(), field: "n".to_string() }));
}

#[test]
fn undeclared_struct_is_fatal() {
    let outcome = run("let p = Q { n: 1 }");
    assert_eq!(outcome.fault, Some(Fault::UndefinedStruct("Q".to_string())));
}

#[test]
fn field_access_on_non_record_is_fatal() {
    let outcome = run("let x = 1 print(x.y)");
    assert_eq!(outcome.fault, Some(Fault::NotARecord));
}

#[test]
fn missing_field_on_record_is_fatal() {
    let outcome = run("struct P { a: number } let p = P { a: 1 } print(p.b)");
    assert_eq!(outcome.fault, Some(Fault::NoSuchField("b".to_string())));
}

#[test]
fn method_call_passes_receiver_first() {
    assert_eq!(output("fn inc(x, d) { return x + d } let n = 5 print(n.inc(2))"), vec!["7"]);
}

#[test]
fn arity_mismatch_is_a_diagnostic() {
    let outcome = run("fn f(a) { return a } print(f(1, 2))");
    assert_eq!(outcome.output, vec!["nil"]);
    assert_eq!(
        outcome.diagnostics,
        vec![Diagnostic::ArityMismatch { function: "f".to_string(), expected: 1, got: 2 }]
    );
}

#[test]
fn unknown_function_is_a_diagnostic() {
    let outcome = run("print(g(1))");
    assert_eq!(outcome.output, vec!["nil"]);
    assert_eq!(outcome.diagnostics, vec![Diagnostic::UndefinedFunction("g".to_string())]);
}

#[test]
fn invalid_operands_are_a_diagnostic() {
    let outcome = run("print(1 + \"a\") print(-\"a\")");
    assert_eq!(outcome.output, vec!["nil", "nil"]);
    assert_eq!(
        outcome.diagnostics,
        vec![Diagnostic::InvalidBinaryOperation, Diagnostic::InvalidUnaryOperation]
    );
}

#[test]
fn string_concatenation_and_comparisons() {
    assert_eq!(
        output("print(\"ab\" + \"cd\") print(1 < 2, 2 <= 2, 3 > 4, 4 >= 5) print(-2 + 5)"),
        vec!["abcd", "truetruefalsefalse", "3"]
    );
}

#[test]
fn division_follows_float_rules() {
    assert_eq!(output("print(7 / 2) print(1 / 0) print(0 / 0 == 0 / 0)"), vec!["3.5", "inf", "false"]);
}

#[test]
fn runaway_recursion_is_stopped() {
    let outcome = run("fn f() { return f() } f()");
    assert_eq!(outcome.fault, Some(Fault::CallDepthExceeded));
}

#[test]
fn parse_fault_names_offending_token() {
    let r = run_program(b"let = 3".to_vec(), &Doubles, 100);
    assert_eq!(r.err(), Some(ParseError { expected: Expected::Identifier, found: TokenKind::Equal }));
    let r = run_program(b"for".to_vec(), &Doubles, 100);
    assert_eq!(r.err(), Some(ParseError { expected: Expected::Expression, found: TokenKind::For }));
    let r = run_program(b"if x { print(x)".to_vec(), &Doubles, 100);
    assert_eq!(r.err(), Some(ParseError { expected: Expected::RightBrace, found: TokenKind::Eof }));
}

#[test]
fn type_alias_needs_a_string_variant() {
    let r = run_program(b"type T = 3".to_vec(), &Doubles, 100);
    assert_eq!(r.err(), Some(ParseError { expected: Expected::StringLiteral, found: TokenKind::Number }));
}

#[test]
fn records_compare_as_field_maps() {
    let src = "struct P { a: number, b: bool } let p = P { a: 1, b: true } struct P { b: bool, a: number } let q = P { b: true, a: 1 } let r = P { b: false, a: 1 } print(p == q, q == p, p != q, p == r)";
    assert_eq!(output(src), vec!["truetruefalsefalse"]);
}

#[test]
fn call_depth_is_a_parameter() {
    let src = b"fn fact(n) { if n < 2 { return 1 } return n * fact(n - 1) } print(fact(5))".to_vec();
    let shallow = run_program(src.clone(), &Doubles, 3).unwrap();
    assert_eq!(shallow.fault, Some(Fault::CallDepthExceeded));
    assert!(shallow.output.is_empty());
    let deep = run_program(src, &Doubles, 10).unwrap();
    assert_eq!(deep.output, vec!["120"]);
}
