use bxen::ast::{
    Assignment, BinaryOp, Expression, FloatValue, HeaderBlock, Literal, LiteralValue, ModuleBlock, Program, SinkCall,
    Statement, UnaryOp, ValueType, Variable,
};
use bxen::lexer::{FloatLit, Lexer, Token, TokenType};
use bxen::parser::Parser;

fn kinds(tokens: &[Token]) -> Vec<TokenType> {
    tokens.iter().map(|t| t.token_type.clone()).collect()
}

fn ident(s: &str) -> TokenType {
    TokenType::Identifier(s.to_string())
}

fn lit_int(v: i64) -> Expression {
    Expression::Literal(Literal { value: LiteralValue::Int(v), ty: ValueType::I64 })
}

fn bin(op: BinaryOp, l: Expression, r: Expression) -> Expression {
    Expression::Binary { op, left: Box::new(l), right: Box::new(r) }
}

fn assign(name: &str, value: Expression) -> Statement {
    Statement::Assignment(Assignment { name: name.to_string(), value })
}

fn parse_source(src: &str) -> Result<Program, String> {
    let tokens = Lexer::tokenize(src)?;
    Parser::parse(tokens)
}

fn module(name: &str, statements: Vec<Statement>) -> Program {
    Program {
        header: None,
        inputs: None,
        modules: vec![ModuleBlock { name: name.to_string(), statements, functions: vec![], inputs: vec![] }],
    }
}

// ---------------------------------------------------------------------------
// Lexer
// ---------------------------------------------------------------------------

#[test]
fn tokenize_assignment_with_positions() {
    let tokens = Lexer::tokenize("x: 1\n").unwrap();
    assert_eq!(
        kinds(&tokens),
        vec![ident("x"), TokenType::Colon, TokenType::IntLiteral(1), TokenType::Newline, TokenType::Eof]
    );
    // Names and numbers carry their first column; one-character tokens the
    // column after them; a line break the column it stands at.
    let positions: Vec<(usize, usize)> = tokens.iter().map(|t| (t.line, t.column)).collect();
    assert_eq!(positions, vec![(1, 1), (1, 3), (1, 4), (1, 5), (2, 1)]);
}

#[test]
fn tokenize_keywords_and_names() {
    let tokens = Lexer::tokenize("header input module if else while func return headers _x1").unwrap();
    assert_eq!(
        kinds(&tokens),
        vec![
            TokenType::Header,
            TokenType::Input,
            TokenType::Module,
            TokenType::If,
            TokenType::Else,
            TokenType::While,
            TokenType::Func,
            TokenType::Return,
            ident("headers"),
            ident("_x1"),
            TokenType::Eof,
        ]
    );
}

#[test]
fn tokenize_operators() {
    let tokens = Lexer::tokenize("+ - * / % & | ^ << >> == != < <= > >= ! ~ { } ( ) . .. : ,").unwrap();
    assert_eq!(
        kinds(&tokens),
        vec![
            TokenType::Plus,
            TokenType::Minus,
            TokenType::Star,
            TokenType::Slash,
            TokenType::Percent,
            TokenType::Ampersand,
            TokenType::Pipe,
            TokenType::Caret,
            TokenType::LessLess,
            TokenType::GreaterGreater,
            TokenType::EqualEqual,
            TokenType::BangEqual,
            TokenType::Less,
            TokenType::LessEqual,
            TokenType::Greater,
            TokenType::GreaterEqual,
            TokenType::Bang,
            TokenType::Tilde,
            TokenType::LBrace,
            TokenType::RBrace,
            TokenType::LParen,
            TokenType::RParen,
            TokenType::Dot,
            TokenType::DotDot,
            TokenType::Colon,
            TokenType::Comma,
            TokenType::Eof,
        ]
    );
}

#[test]
fn tokenize_comment_becomes_line_break() {
    let tokens = Lexer::tokenize("1 // note\n2").unwrap();
    assert_eq!(
        kinds(&tokens),
        vec![TokenType::IntLiteral(1), TokenType::Newline, TokenType::Newline, TokenType::IntLiteral(2), TokenType::Eof]
    );
    assert_eq!((tokens[1].line, tokens[1].column), (1, 10));
    assert_eq!((tokens[3].line, tokens[3].column), (2, 1));
    assert_eq!((tokens[4].line, tokens[4].column), (2, 2));
}

#[test]
fn tokenize_carriage_returns_are_skipped() {
    let tokens = Lexer::tokenize("a\r\nb").unwrap();
    assert_eq!(kinds(&tokens), vec![ident("a"), TokenType::Newline, ident("b"), TokenType::Eof]);
}

#[test]
fn tokenize_string_escapes() {
    let tokens = Lexer::tokenize("\"a\\n\\t\\\\\\\"\\0\"").unwrap();
    assert_eq!(kinds(&tokens), vec![TokenType::StringLiteral("a\n\t\\\"\0".to_string()), TokenType::Eof]);
    assert_eq!((tokens[0].line, tokens[0].column), (1, 1));
}

#[test]
fn tokenize_float_keeps_spelling() {
    let tokens = Lexer::tokenize("1.50").unwrap();
    assert_eq!(
        kinds(&tokens),
        vec![TokenType::FloatLiteral(FloatLit { text: "1.50".to_string(), value: None }), TokenType::Eof]
    );
    // A dot not followed by a digit ends the number.
    let tokens = Lexer::tokenize("1.x").unwrap();
    assert_eq!(kinds(&tokens), vec![TokenType::IntLiteral(1), TokenType::Dot, ident("x"), TokenType::Eof]);
}

#[test]
fn tokenize_largest_integer() {
    let tokens = Lexer::tokenize("9223372036854775807").unwrap();
    assert_eq!(kinds(&tokens), vec![TokenType::IntLiteral(i64::MAX), TokenType::Eof]);
}

#[test]
fn tokenize_empty_text_is_just_eof() {
    let tokens = Lexer::tokenize("").unwrap();
    assert_eq!(kinds(&tokens), vec![TokenType::Eof]);
    assert_eq!((tokens[0].line, tokens[0].column), (1, 1));
}

#[test]
fn tokenize_errors() {
    assert_eq!(Lexer::tokenize("=").unwrap_err(), "Unexpected '=' at line 1, column 1");
    assert_eq!(Lexer::tokenize("a @").unwrap_err(), "Unexpected character '@' at line 1, column 3");
    assert_eq!(
        Lexer::tokenize("\"abc").unwrap_err(),
        "Unterminated string literal starting at line 1, column 1"
    );
    assert_eq!(
        Lexer::tokenize("\"ab\ncd\"").unwrap_err(),
        "Unterminated string literal starting at line 1, column 1"
    );
    assert_eq!(
        Lexer::tokenize("\"\\q\"").unwrap_err(),
        "Invalid escape sequence '\\q' in string at line 1, column 4"
    );
    assert_eq!(
        Lexer::tokenize("\"\\").unwrap_err(),
        "Unterminated escape sequence in string at line 1, column 4"
    );
    assert_eq!(
        Lexer::tokenize("99999999999999999999").unwrap_err(),
        "Invalid integer '99999999999999999999' at line 1, column 1"
    );
}

#[test]
fn tokenize_always_ends_with_one_eof() {
    for src in ["", "\n\n", "module m: {\n}\n", "x // c", "\"s\" 1.5 a"] {
        let tokens = Lexer::tokenize(src).unwrap();
        assert_eq!(tokens.last().unwrap().token_type, TokenType::Eof);
        assert_eq!(tokens.iter().filter(|t| t.token_type == TokenType::Eof).count(), 1);
    }
}

// ---------------------------------------------------------------------------
// Parser
// ---------------------------------------------------------------------------

#[test]
fn parse_binary_operator_precedence() {
    // `*` binds tighter than `+`; operators of one level group to the left.
    let p = parse_source("module main: {\n  x: 1 + 2 * 3\n}\n").unwrap();
    let expected = module(
        "main",
        vec![assign("x", bin(BinaryOp::Add, lit_int(1), bin(BinaryOp::Mul, lit_int(2), lit_int(3))))],
    );
    assert_eq!(p, expected);
    let p = parse_source("module main: {\n  y: 8 - 4 - 2\n}\n").unwrap();
    let expected = module("main", vec![assign("y", bin(BinaryOp::Sub, bin(BinaryOp::Sub, lit_int(8), lit_int(4)), lit_int(2)))]);
    assert_eq!(p, expected);
    // Comparison is looser than shifts, which are looser than `|`, then `+`.
    let p = parse_source("module main: {\n  z: 1 << 2 == 3 | 4 + 5\n}\n").unwrap();
    let expected = module(
        "main",
        vec![assign(
            "z",
            bin(
                BinaryOp::Eq,
                bin(BinaryOp::Shl, lit_int(1), lit_int(2)),
                bin(BinaryOp::BitOr, lit_int(3), bin(BinaryOp::Add, lit_int(4), lit_int(5))),
            ),
        )],
    );
    assert_eq!(p, expected);
}

#[test]
fn parse_parentheses_and_unary() {
    let p = parse_source("module m: {\n  z: -(1 + 2) == ~a\n}").unwrap();
    let neg = Expression::Unary { op: UnaryOp::Negate, operand: Box::new(bin(BinaryOp::Add, lit_int(1), lit_int(2))) };
    let not = Expression::Unary {
        op: UnaryOp::BitNot,
        operand: Box::new(Expression::Variable(Variable { name: "a".to_string() })),
    };
    assert_eq!(p, module("m", vec![assign("z", bin(BinaryOp::Eq, neg, not))]));
}

#[test]
fn parse_call_with_sink() {
    let p = parse_source("module m: {\n  print(1, 2).out\n}\n").unwrap();
    let sink = Statement::Sink(SinkCall {
        name: "print".to_string(),
        args: vec![lit_int(1), lit_int(2)],
        sink_name: Some("out".to_string()),
    });
    assert_eq!(p, module("m", vec![sink]));
}

#[test]
fn parse_else_if_nests_an_if() {
    let p = parse_source("module m: {\n if (1) { x: 1 } else if (2) { x: 2 }\n}").unwrap();
    let inner = Statement::If { condition: lit_int(2), then_branch: vec![assign("x", lit_int(2))], else_branch: None };
    let outer = Statement::If {
        condition: lit_int(1),
        then_branch: vec![assign("x", lit_int(1))],
        else_branch: Some(vec![inner]),
    };
    assert_eq!(p, module("m", vec![outer]));
}

#[test]
fn parse_header_and_functions() {
    let src = "header { name: demo\n version: 2 }\nmodule m: {\n func add(a: i64, b: i64) -> i64 {\n return a + b\n }\n input { n: f64 }\n}\n";
    let p = parse_source(src).unwrap();
    assert_eq!(
        p.header,
        Some(HeaderBlock {
            items: vec![("name".to_string(), "demo".to_string()), ("version".to_string(), "2".to_string())]
        })
    );
    let m = &p.modules[0];
    assert_eq!(m.functions.len(), 1);
    assert_eq!(m.functions[0].name, "add");
    assert_eq!(m.functions[0].params.len(), 2);
    assert_eq!(m.functions[0].params[1].name, "b");
    assert_eq!(m.functions[0].return_type, ValueType::I64);
    assert_eq!(m.inputs.len(), 1);
    assert_eq!(m.inputs[0].name, "n");
    assert_eq!(m.inputs[0].ty, ValueType::F64);
}

#[test]
fn parse_float_literal_with_host_value() {
    let mut tokens = Lexer::tokenize("module m: {\n v: 2.5\n}").unwrap();
    let value = FloatValue { bits: 2.5f64.to_bits(), display: "2.5".to_string(), debug: "2.5".to_string() };
    for t in tokens.iter_mut() {
        if let TokenType::FloatLiteral(f) = &mut t.token_type {
            f.value = Some(value.clone());
        }
    }
    let p = Parser::parse(tokens).unwrap();
    let lit = Expression::Literal(Literal { value: LiteralValue::Float(value), ty: ValueType::F64 });
    assert_eq!(p, module("m", vec![assign("v", lit)]));
}

#[test]
fn parse_errors() {
    assert_eq!(
        parse_source("x").unwrap_err(),
        "Unexpected token at top level: Identifier(\"x\") at line 1, column 1"
    );
    assert_eq!(parse_source("module m { }").unwrap_err(), "Expected Colon but found LBrace at line 1, column 11");
    assert_eq!(
        parse_source("module m: { x: }").unwrap_err(),
        "Unexpected token in expression: RBrace at line 1, column 17"
    );
    assert_eq!(
        parse_source("module m: {\n input { a: str }\n}").unwrap_err(),
        "Unknown type 'str' in input block"
    );
    assert_eq!(
        parse_source("module m: {\n func f(a: str) -> i64 { return a }\n}").unwrap_err(),
        "Unknown type 'str' in function parameter"
    );
    assert_eq!(
        parse_source("module m: {\n func f() -> u8 { return 1 }\n}").unwrap_err(),
        "Unknown return type 'u8'"
    );
    assert_eq!(
        parse_source("module m: {\n x.out\n}").unwrap_err(),
        "Only function calls can have sinks, got expression at line 2, column 7"
    );
    assert_eq!(
        parse_source("module m: {\n f().5\n}").unwrap_err(),
        "Expected sink name or '}' after '.' at line 2, column 6"
    );
    assert_eq!(
        parse_source("module m: {\n y: )\n}").unwrap_err(),
        "Unexpected token in expression: RParen at line 2, column 6"
    );
    assert_eq!(
        parse_source("\"hi\"").unwrap_err(),
        "Unexpected token at top level: StringLiteral(\"hi\") at line 1, column 1"
    );
}

#[test]
fn parse_later_header_replaces_earlier() {
    let p = parse_source("header { a: 1 }\nheader { b: x }\n").unwrap();
    assert_eq!(p.header, Some(HeaderBlock { items: vec![("b".to_string(), "x".to_string())] }));
    assert!(p.modules.is_empty());
}

#[test]
fn parse_empty_program() {
    let p = parse_source("\n\n").unwrap();
    assert_eq!(p, Program { header: None, inputs: None, modules: vec![] });
}

#[test]
fn parse_stops_at_the_first_eof() {
    let mut tokens = Lexer::tokenize("module m: {\n x: 1\n}\n").unwrap();
    tokens.push(Token { token_type: ident("after"), line: 9, column: 9 });
    tokens.push(Token { token_type: TokenType::Eof, line: 9, column: 10 });
    let p = Parser::parse(tokens).unwrap();
    assert_eq!(p, module("m", vec![assign("x", lit_int(1))]));
}
