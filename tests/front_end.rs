use weave::ast::{Expr, Stmt};
use weave::interpreter::{parse_source, tokenize};
use weave::lexer::Lexer;
use weave::parser::Parser;
use weave::token::{Token, TokenKind};
use weave::token::TokenKind as K;

fn kinds(src: &str) -> Vec<TokenKind> {
    tokenize(src.as_bytes().to_vec()).into_iter().map(|t| t.kind).collect()
}

#[test]
fn scans_operators_and_punctuation() {
    assert_eq!(
        kinds("( ) { } [ ] , . ; : | + - * / = == ! != < <= > >= ->"),
        vec![
            K::LeftParen, K::RightParen, K::LeftBrace, K::RightBrace, K::LeftBracket,
            K::RightBracket, K::Comma, K::Dot, K::Semicolon, K::Colon, K::Pipe, K::Plus, K::Minus,
            K::Star, K::Slash, K::Equal, K::EqualEqual, K::Bang, K::BangEqual, K::Less,
            K::LessEqual, K::Greater, K::GreaterEqual, K::Arrow, K::Eof
        ]
    );
}

#[test]
fn scans_keywords_and_identifiers() {
    assert_eq!(
        kinds("let fn if else while for return true false nil struct type str number bool lets _x9"),
        vec![
            K::Let, K::Fn, K::If, K::Else, K::While, K::For, K::Return, K::True, K::False,
            K::Nil, K::Struct, K::Type, K::TypeStr, K::TypeNumber, K::TypeBool, K::Identifier,
            K::Identifier, K::Eof
        ]
    );
    let toks = tokenize(b"lets _x9".to_vec());
    assert_eq!(toks[0], Token { kind: TokenKind::Identifier, text: "lets".to_string() });
    assert_eq!(toks[1], Token { kind: TokenKind::Identifier, text: "_x9".to_string() });
}

#[test]
fn scans_literals() {
    let toks = tokenize(b"\"a\\b c\" 12.5.1 \"open".to_vec());
    assert_eq!(toks[0], Token { kind: TokenKind::Str, text: "a\\b c".to_string() });
    assert_eq!(toks[1], Token { kind: TokenKind::Number, text: "12.5.1".to_string() });
    assert_eq!(toks[2], Token { kind: TokenKind::Str, text: "open".to_string() });
    assert_eq!(toks[3].kind, TokenKind::Eof);
    assert_eq!(toks.len(), 4);
}

#[test]
fn unknown_byte_becomes_placeholder_identifier() {
    let toks = tokenize(b"@ x".to_vec());
    assert_eq!(toks[0], Token { kind: TokenKind::Identifier, text: "UNKNOWN".to_string() });
    assert_eq!(toks[1], Token { kind: TokenKind::Identifier, text: "x".to_string() });
}

#[test]
fn empty_input_is_only_end_of_input() {
    assert_eq!(kinds(""), vec![TokenKind::Eof]);
    assert_eq!(kinds(" \t\r\n"), vec![TokenKind::Eof]);
    let mut lexer = Lexer::new(Vec::new());
    assert_eq!(lexer.tokenize(), vec![Token::simple(TokenKind::Eof)]);
}

#[test]
fn if_with_identifier_condition_is_not_a_struct_literal() {
    let ast = parse_source(b"if x { print(x) }".to_vec()).unwrap();
    assert_eq!(ast.statements.len(), 1);
    match &ast.statements[0] {
        Stmt::If { condition, then_branch, else_branch } => {
            assert!(matches!(condition, Expr::Identifier(n) if n == "x"));
            assert_eq!(then_branch.len(), 1);
            assert!(else_branch.is_none());
        }
        other => panic!("expected an if statement, got {:?}", other),
    }
}

#[test]
fn identifier_brace_colon_is_a_struct_literal() {
    let ast = parse_source(b"let p = P { a: 1, b: 2 }".to_vec()).unwrap();
    match &ast.statements[0] {
        Stmt::Let { name, value: Expr::StructLiteral { name: s, fields } } => {
            assert_eq!(name, "p");
            assert_eq!(s, "P");
            assert_eq!(fields.len(), 2);
            assert_eq!(fields[0].0, "a");
            assert_eq!(fields[1].0, "b");
        }
        other => panic!("expected a struct literal, got {:?}", other),
    }
}

#[test]
fn parse_is_deterministic() {
    let src = b"fn f(a: number, b) -> str { return a } let x = f(1, 2).g(3) while x { let x = false }";
    let a = format!("{:?}", parse_source(src.to_vec()).unwrap());
    let b = format!("{:?}", parse_source(src.to_vec()).unwrap());
    assert_eq!(a, b);
}

#[test]
fn precedence_and_associativity_in_tree() {
    let ast = parse_source(b"1 + 2 * 3 - 4".to_vec()).unwrap();
    let text = format!("{:?}", ast.statements[0]);
    let expected = "Expression(Binary { left: Binary { left: Number(\"1\"), operator: Add, right: Binary { left: Number(\"2\"), operator: Multiply, right: Number(\"3\") } }, operator: Subtract, right: Number(\"4\") })";
    assert_eq!(text, expected);
}

#[test]
fn parser_reads_tokens_built_by_hand() {
    let tokens = vec![
        Token::simple(TokenKind::Return),
        Token::simple(TokenKind::Semicolon),
        Token::simple(TokenKind::Eof),
    ];
    let mut parser = Parser::new(tokens);
    let ast = parser.parse().unwrap();
    assert!(matches!(ast.statements[0], Stmt::Return(None)));
}
