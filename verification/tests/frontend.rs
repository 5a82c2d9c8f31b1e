use sklang::expr::{BinaryOperator, Expr};
use sklang::error::{ErrorClass, ErrorKind, Errors, SkError};
use sklang::formatter::Formatter;
use sklang::lexer::Lexer;
use sklang::parser::{parse_source, Parser};
use sklang::token::{Token, TokenKind, TokenSpan};

fn ident(s: &str) -> Expr {
    Expr::Ident(s.as_bytes().to_vec())
}

fn parse_ok(src: &str) -> Vec<Expr> {
    parse_source(src.as_bytes().to_vec()).expect("expected the source to parse")
}

fn parse_err(src: &str) -> SkError {
    parse_source(src.as_bytes().to_vec()).expect_err("expected the source to be rejected")
}

#[test]
fn untyped_variable_declaration() {
    let tree = parse_ok("var x = 5;");
    assert_eq!(
        tree,
        vec![Expr::VariableExpr(
            Box::new(ident("x")),
            None,
            Box::new(Expr::Integer(5)),
        )]
    );
}

#[test]
fn typed_variable_declaration() {
    let tree = parse_ok("var x: int = 5;");
    assert_eq!(
        tree,
        vec![Expr::VariableExpr(
            Box::new(ident("x")),
            Some(Box::new(ident("int"))),
            Box::new(Expr::Integer(5)),
        )]
    );
}

#[test]
fn mutation_statement() {
    let tree = parse_ok("a -> 3;");
    assert_eq!(
        tree,
        vec![Expr::MutateExpr(
            Box::new(ident("a")),
            Box::new(Expr::Integer(3)),
        )]
    );
}

#[test]
fn print_is_right_leaning_without_precedence() {
    let tree = parse_ok("print 1 + 2 * 3;");
    assert_eq!(
        tree,
        vec![Expr::PrintExpr(Box::new(Expr::BinaryExpr(
            Box::new(Expr::Integer(1)),
            Box::new(Expr::BinaryExpr(
                Box::new(Expr::Integer(2)),
                Box::new(Expr::Integer(3)),
                BinaryOperator::Multiply,
            )),
            BinaryOperator::Plus,
        )))]
    );
}

#[test]
fn function_declaration_with_one_parameter() {
    let tree = parse_ok("def f(x: int) { print x; }");
    assert_eq!(
        tree,
        vec![Expr::FunctionExpr(
            Box::new(ident("f")),
            Box::new(Expr::FunctionArgs(vec![Expr::Parameter(
                Box::new(ident("x")),
                Box::new(ident("int")),
            )])),
            None,
            Box::new(Expr::BlockExpr(vec![Expr::PrintExpr(Box::new(ident("x")))])),
        )]
    );
}

#[test]
fn unterminated_string_is_a_fatal_lex_error() {
    let mut lexer = Lexer::new(b"var s = \"oops;".to_vec());
    let r = lexer.tokenize();
    match r {
        Err(e) => {
            assert!(matches!(e.kind, ErrorKind::LexError(_)));
            assert!(matches!(e.class, ErrorClass::Error));
            assert_eq!(e.span, TokenSpan(8, 8));
        }
        Ok(_) => panic!("an unterminated string literal must not produce tokens"),
    }
}

#[test]
fn token_spans_reslice_to_token_text() {
    let src = b"var answer = \"forty two\";".to_vec();
    let mut lexer = Lexer::new(src.clone());
    let tokens = lexer.tokenize().expect("the source scans");
    for t in &tokens {
        let TokenSpan(b, l) = t.span;
        match &t.kind {
            TokenKind::Ident(text) | TokenKind::Number(text) => {
                assert_eq!(&src[b..l + 1], &text[..]);
            }
            TokenKind::Str(text) => {
                assert_eq!(&src[b + 1..l], &text[..]);
            }
            _ => {}
        }
    }
}

#[test]
fn token_spans_tile_the_source() {
    let src = b"def f ( x ) { return x ; }".to_vec();
    let mut lexer = Lexer::new(src.clone());
    let tokens = lexer.tokenize().expect("the source scans");
    assert!(matches!(tokens.last().unwrap().kind, TokenKind::EOF));
    let mut rebuilt: Vec<u8> = Vec::new();
    let mut prev_end: usize = 0;
    for t in &tokens[..tokens.len() - 1] {
        let TokenSpan(b, l) = t.span;
        assert!(prev_end <= b, "spans must not overlap");
        for k in prev_end..b {
            assert!(src[k].is_ascii_whitespace(), "gaps hold only whitespace");
        }
        rebuilt.extend_from_slice(&src[b..l + 1]);
        prev_end = l + 1;
    }
    let no_ws: Vec<u8> = src.iter().copied().filter(|b| !b.is_ascii_whitespace()).collect();
    assert_eq!(rebuilt, no_ws);
}

#[test]
fn keywords_and_operators_scan_to_their_kinds() {
    let mut lexer = Lexer::new(b"const <= -> :: == != >= print".to_vec());
    let tokens = lexer.tokenize().expect("the source scans");
    let kinds: Vec<&TokenKind> = tokens.iter().map(|t| &t.kind).collect();
    assert!(matches!(kinds[0], TokenKind::Const));
    assert!(matches!(kinds[1], TokenKind::LessEqual));
    assert!(matches!(kinds[2], TokenKind::Arrow));
    assert!(matches!(kinds[3], TokenKind::ColonColon));
    assert!(matches!(kinds[4], TokenKind::EqualEqual));
    assert!(matches!(kinds[5], TokenKind::BangEqual));
    assert!(matches!(kinds[6], TokenKind::MoreEqual));
    assert!(matches!(kinds[7], TokenKind::Print));
    assert!(matches!(kinds[8], TokenKind::EOF));
    assert_eq!(kinds.len(), 9);
}

#[test]
fn empty_source_scans_to_one_eof_and_parses_to_nothing() {
    let mut lexer = Lexer::new(Vec::new());
    let tokens = lexer.tokenize().expect("the empty source scans");
    assert_eq!(tokens.len(), 1);
    assert!(matches!(tokens[0].kind, TokenKind::EOF));
    assert_eq!(parse_ok(""), Vec::<Expr>::new());
}

#[test]
fn typed_const_declaration() {
    let tree = parse_ok("const pi: float = 3.14;");
    assert_eq!(
        tree,
        vec![Expr::ConstExpr(
            Box::new(ident("pi")),
            Some(Box::new(ident("float"))),
            Box::new(Expr::Float(b"3.14".to_vec())),
        )]
    );
}

#[test]
fn string_variable_declaration() {
    let tree = parse_ok("var s = \"hi there\";");
    assert_eq!(
        tree,
        vec![Expr::VariableExpr(
            Box::new(ident("s")),
            None,
            Box::new(Expr::Str(b"hi there".to_vec())),
        )]
    );
}

#[test]
fn print_parenthesized_expression() {
    let tree = parse_ok("print (1 + 2);");
    assert_eq!(
        tree,
        vec![Expr::PrintExpr(Box::new(Expr::ParensExpr(Box::new(
            Expr::BinaryExpr(
                Box::new(Expr::Integer(1)),
                Box::new(Expr::Integer(2)),
                BinaryOperator::Plus,
            )
        ))))]
    );
}

#[test]
fn return_and_flag_statements() {
    let tree = parse_ok("def g() { return 1; flag 2; }");
    assert_eq!(
        tree,
        vec![Expr::FunctionExpr(
            Box::new(ident("g")),
            Box::new(Expr::FunctionArgs(Vec::new())),
            None,
            Box::new(Expr::BlockExpr(vec![
                Expr::ReturnExpr(Box::new(Expr::Integer(1))),
                Expr::FlagExpr(Box::new(Expr::Integer(2))),
            ])),
        )]
    );
}

#[test]
fn function_call_statement() {
    let tree = parse_ok("greet(1, 2);");
    assert_eq!(
        tree,
        vec![Expr::FunctionCall(
            Box::new(ident("greet")),
            Box::new(Expr::FunctionArgs(vec![Expr::Integer(1), Expr::Integer(2)])),
        )]
    );
}

#[test]
fn call_without_arguments() {
    let tree = parse_ok("go();");
    assert_eq!(
        tree,
        vec![Expr::FunctionCall(
            Box::new(ident("go")),
            Box::new(Expr::FunctionArgs(Vec::new())),
        )]
    );
}

#[test]
fn import_clause_with_symbols() {
    let tree = parse_ok("from pkg import a, b;");
    assert_eq!(
        tree,
        vec![Expr::ImportExpr(
            Box::new(ident("pkg")),
            Box::new(Expr::ImportArgs(vec![ident("a"), ident("b")])),
        )]
    );
}

#[test]
fn import_wildcard() {
    let tree = parse_ok("from pkg import *;");
    assert_eq!(
        tree,
        vec![Expr::ImportExpr(
            Box::new(ident("pkg")),
            Box::new(Expr::ImportArgs(vec![Expr::Wildcard])),
        )]
    );
}

#[test]
fn class_declaration_with_fields() {
    let tree = parse_ok("class Point { x: int, y: int }");
    assert_eq!(
        tree,
        vec![Expr::ClassExpr(
            Box::new(ident("Point")),
            Box::new(Expr::ClassFields(vec![
                Expr::Parameter(Box::new(ident("x")), Box::new(ident("int"))),
                Expr::Parameter(Box::new(ident("y")), Box::new(ident("int"))),
            ])),
        )]
    );
}

#[test]
fn methods_block_collects_function_declarations() {
    let tree = parse_ok("methods Point { def norm() { return 0; } }");
    assert_eq!(
        tree,
        vec![Expr::ClassMethods(
            Box::new(ident("Point")),
            vec![Expr::FunctionExpr(
                Box::new(ident("norm")),
                Box::new(Expr::FunctionArgs(Vec::new())),
                None,
                Box::new(Expr::BlockExpr(vec![Expr::ReturnExpr(Box::new(
                    Expr::Integer(0)
                ))])),
            )],
        )]
    );
}

#[test]
fn function_with_return_type_annotation() {
    let tree = parse_ok("def h() : int { return 7; }");
    assert_eq!(
        tree,
        vec![Expr::FunctionExpr(
            Box::new(ident("h")),
            Box::new(Expr::FunctionArgs(Vec::new())),
            Some(Box::new(ident("int"))),
            Box::new(Expr::BlockExpr(vec![Expr::ReturnExpr(Box::new(
                Expr::Integer(7)
            ))])),
        )]
    );
}

#[test]
fn qualified_identifier_chain_nests_right() {
    let tree = parse_ok("x -> a.b.c;");
    assert_eq!(
        tree,
        vec![Expr::MutateExpr(
            Box::new(ident("x")),
            Box::new(Expr::QualifiedIdent(
                Box::new(ident("a")),
                Box::new(Expr::QualifiedIdent(
                    Box::new(ident("b")),
                    Box::new(ident("c")),
                )),
            )),
        )]
    );
}

#[test]
fn question_mark_wraps_the_completed_value() {
    let tree = parse_ok("print a?;");
    assert_eq!(
        tree,
        vec![Expr::PrintExpr(Box::new(Expr::QMark(Box::new(ident("a")))))]
    );
}

#[test]
fn nested_blocks_keep_statement_order() {
    let tree = parse_ok("def outer() { var a = 1; def inner() { print a; } var b = 2; }");
    assert_eq!(
        tree,
        vec![Expr::FunctionExpr(
            Box::new(ident("outer")),
            Box::new(Expr::FunctionArgs(Vec::new())),
            None,
            Box::new(Expr::BlockExpr(vec![
                Expr::VariableExpr(Box::new(ident("a")), None, Box::new(Expr::Integer(1))),
                Expr::FunctionExpr(
                    Box::new(ident("inner")),
                    Box::new(Expr::FunctionArgs(Vec::new())),
                    None,
                    Box::new(Expr::BlockExpr(vec![Expr::PrintExpr(Box::new(ident("a")))])),
                ),
                Expr::VariableExpr(Box::new(ident("b")), None, Box::new(Expr::Integer(2))),
            ])),
        )]
    );
}

#[test]
fn malformed_integer_with_underscore_is_rejected() {
    let e = parse_err("var x = 1_0;");
    assert!(matches!(e.kind, ErrorKind::ParseError(_)));
}

#[test]
fn malformed_float_with_two_dots_is_rejected() {
    let e = parse_err("var x = 1.2.3;");
    assert!(matches!(e.kind, ErrorKind::ParseError(_)));
}

#[test]
fn integer_that_overflows_is_rejected() {
    let e = parse_err("var x = 2147483648;");
    assert!(matches!(e.kind, ErrorKind::ParseError(_)));
    assert_eq!(parse_ok("var x = 2147483647;").len(), 1);
}

#[test]
fn statement_without_terminator_is_rejected() {
    let e = parse_err("var x = 5");
    assert!(matches!(e.kind, ErrorKind::ParseError(_)));
}

#[test]
fn unexpected_byte_is_a_lex_error() {
    let e = parse_err("var x = @5;");
    assert!(matches!(e.kind, ErrorKind::LexError(_)));
    assert_eq!(e.span, TokenSpan(8, 8));
}

#[test]
fn stray_comparison_operator_is_a_parse_error() {
    let e = parse_err("var x == 5;");
    assert!(matches!(e.kind, ErrorKind::ParseError(_)));
    // The error points at the `==` token.
    assert_eq!(e.span, TokenSpan(6, 7));
}

#[test]
fn curly_brace_outside_any_construct_is_rejected() {
    let e = parse_err("{ }");
    assert!(matches!(e.kind, ErrorKind::ParseError(_)));
}

#[test]
fn parser_object_reports_trees_and_errors() {
    let mut lexer = Lexer::new(b"print 9;".to_vec());
    let tokens = lexer.tokenize().expect("the source scans");
    let mut parser = Parser::new(tokens);
    assert!(parser.parse().is_ok());
    assert_eq!(
        parser.into_tree(),
        vec![Expr::PrintExpr(Box::new(Expr::Integer(9)))]
    );
}

#[test]
fn token_new_stores_an_inclusive_span() {
    let t = Token::new(TokenKind::Plus, 3, 5);
    assert!(matches!(t.kind, TokenKind::Plus));
    assert_eq!(t.span, TokenSpan(3, 4));
}

#[test]
fn literal_tokens_are_not_branch_nodes() {
    assert!(!TokenKind::Ident(b"x".to_vec()).is_branch_node());
    assert!(!TokenKind::Number(b"1".to_vec()).is_branch_node());
    assert!(!TokenKind::Str(b"s".to_vec()).is_branch_node());
    assert!(TokenKind::Plus.is_branch_node());
    assert!(TokenKind::Var.is_branch_node());
    assert!(TokenKind::EOF.is_branch_node());
}

#[test]
fn formatter_finds_the_line_of_an_offset() {
    let f = Formatter::initialize(b"first\nsecond line\nthird".to_vec());
    let (line, start, end) = f.get_line(8);
    assert_eq!(line, b"second line".to_vec());
    assert_eq!(start, 6);
    assert_eq!(end, 17);
}

#[test]
fn formatter_underlines_a_span_within_its_line() {
    let line = b"second line".to_vec();
    let underline = Formatter::get_underline(&line, 6, 13, 16);
    assert_eq!(underline, b"       ^^^^".to_vec());
}

#[test]
fn errors_collects_reports_and_renders_them() {
    let f = Formatter::initialize(b"var x = @;".to_vec());
    let mut errors = Errors::initialize(&f);
    assert_eq!(errors.count(), 0);
    errors.new(
        ErrorClass::Error,
        ErrorKind::LexError(String::from("cannot scan a token here")),
        8,
        8,
    );
    assert_eq!(errors.count(), 1);
    let e = SkError {
        class: ErrorClass::Error,
        kind: ErrorKind::LexError(String::from("cannot scan a token here")),
        span: TokenSpan(8, 8),
    };
    let (line, underline) = errors.print_error(&e);
    assert_eq!(line, b"var x = @;".to_vec());
    assert_eq!(underline, b"        ^ ".to_vec());
}
