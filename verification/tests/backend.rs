// Analyzer and code generator behaviour, and the pipeline end to end.

use netflu::ASTNode;
use netflu::Parser;
use netflu::SemanticAnalyzer;
use netflu::SemanticError;
use netflu::TokenType;
use netflu::analyzer::parse_i32;
use netflu::ast::LocalTable;
use netflu::codegen::generate_node_code;
use netflu::generate_code;
use netflu::lexer;

fn parse_source(src: &str) -> Vec<ASTNode> {
    let tokens = lexer(src).unwrap();
    let mut parser = Parser::new(tokens);
    parser.parse().unwrap()
}

fn analyze_source(src: &str) -> Result<Vec<ASTNode>, SemanticError> {
    let mut ast = parse_source(src);
    let mut analyzer = SemanticAnalyzer::new();
    analyzer.analyze(&mut ast)?;
    Ok(ast)
}

fn compile(src: &str) -> String {
    let ast = analyze_source(src).unwrap();
    generate_code(&ast)
}

// First return wins: a method with two `back` statements records the first
// one's payload.
#[test]
fn first_back_payload_is_recorded() {
    let ast = analyze_source("method m { back 1; back 2; }").unwrap();
    match &ast[0] {
        ASTNode::Method { return_value, .. } => {
            assert_eq!(return_value.as_ref().unwrap(), "1");
        },
        other => panic!("expected a method, got {:?}", other),
    }
}

#[test]
fn method_without_back_records_no_return_value() {
    let ast = analyze_source("method m { let y = 1; }").unwrap();
    match &ast[0] {
        ASTNode::Method { return_value, .. } => assert!(return_value.is_none()),
        other => panic!("expected a method, got {:?}", other),
    }
}

#[test]
fn numeric_let_bindings_fill_the_local_table() {
    let ast = analyze_source("method m { let y = 7; let s = \"a\"; back y; }").unwrap();
    match &ast[0] {
        ASTNode::Method { local_symbol_table, .. } => {
            assert_eq!(local_symbol_table.get("y"), Some(7));
            assert_eq!(local_symbol_table.get("s"), None);
        },
        other => panic!("expected a method, got {:?}", other),
    }
}

// Undefined call rejection: a name never declared as a method is refused,
// and declaring it as a procedure does not help (procedures are never
// registered as call targets).
#[test]
fn call_of_unknown_name_is_undefined() {
    let err = analyze_source("f();").unwrap_err();
    assert_eq!(err, SemanticError::UndefinedFunction { name: "f".to_string() });
}

#[test]
fn call_of_a_procedure_still_fails() {
    let err = analyze_source("fun f { print(\"x\"); } f();").unwrap_err();
    assert_eq!(err, SemanticError::UndefinedFunction { name: "f".to_string() });
}

#[test]
fn call_of_a_let_binding_is_not_callable() {
    let err = analyze_source("let g = 1; g();").unwrap_err();
    assert_eq!(err, SemanticError::NotCallable { name: "g".to_string() });
}

#[test]
fn call_of_a_method_without_return_value_is_refused() {
    let err = analyze_source("method h { let y = 1; } h();").unwrap_err();
    assert_eq!(err, SemanticError::NoReturnValue { name: "h".to_string() });
}

#[test]
fn call_of_a_method_with_return_value_is_accepted() {
    assert!(analyze_source("method m { back 5; } let r = m();").is_ok());
}

#[test]
fn later_method_definition_overwrites_earlier() {
    assert!(analyze_source("method m { let y = 1; } method m { back 2; } let r = m();").is_ok());
}

#[test]
fn undefined_identifier_is_refused() {
    let err = analyze_source("print(x);").unwrap_err();
    assert_eq!(err, SemanticError::UndefinedIdentifier { name: "x".to_string() });
    let err = analyze_source("x = y;").unwrap_err();
    assert_eq!(err, SemanticError::UndefinedIdentifier { name: "y".to_string() });
}

#[test]
fn assignment_defines_its_target() {
    assert!(analyze_source("x = 1; print(x);").is_ok());
    assert!(analyze_source("let a = 1; a = 2; print(a);").is_ok());
}

#[test]
fn oversized_numeric_literal_is_an_invalid_number() {
    let err = analyze_source("method m { let y = 2147483648; }").unwrap_err();
    assert_eq!(err, SemanticError::InvalidNumber { value: "2147483648".to_string() });
}

#[test]
fn analysis_failure_leaves_the_statement_list_unchanged() {
    let mut ast = parse_source("let a = 1; print(zzz);");
    let before = format!("{:?}", ast);
    let mut analyzer = SemanticAnalyzer::new();
    assert!(analyzer.analyze(&mut ast).is_err());
    assert_eq!(format!("{:?}", ast), before);
}

#[test]
fn parse_i32_reads_exact_values() {
    assert_eq!(parse_i32("0"), Some(0));
    assert_eq!(parse_i32("123"), Some(123));
    assert_eq!(parse_i32("007"), Some(7));
    assert_eq!(parse_i32("+42"), Some(42));
    assert_eq!(parse_i32("-17"), Some(-17));
    assert_eq!(parse_i32("2147483647"), Some(i32::MAX));
    assert_eq!(parse_i32("-2147483648"), Some(i32::MIN));
    assert_eq!(parse_i32("2147483648"), None);
    assert_eq!(parse_i32("-2147483649"), None);
    assert_eq!(parse_i32("99999999999999999999"), None);
    assert_eq!(parse_i32(""), None);
    assert_eq!(parse_i32("+"), None);
    assert_eq!(parse_i32("-"), None);
    assert_eq!(parse_i32("12a"), None);
    assert_eq!(parse_i32("a12"), None);
}

#[test]
fn local_table_keeps_the_latest_binding() {
    let mut table = LocalTable::new();
    assert_eq!(table.get("a"), None);
    table.insert("a".to_string(), 1);
    table.insert("b".to_string(), 2);
    table.insert("a".to_string(), 3);
    assert_eq!(table.get("a"), Some(3));
    assert_eq!(table.get("b"), Some(2));
    assert_eq!(table.get("c"), None);
}

// Default return synthesis: a method with no `back` gets a synthesized
// zero-return; one with a `back` does not.
#[test]
fn method_without_back_gets_synthesized_return() {
    let code = compile("method m { let y = 1; }");
    assert_eq!(code, "fn m() -> i32 {\n    let y = 1;\n    return 0;\n}\n\nfn main() {\n}\n");
}

#[test]
fn method_with_back_gets_no_synthesized_return() {
    let code = compile("method m { back 7; }");
    assert_eq!(code, "fn m() -> i32 {\n    return 7;\n}\n\nfn main() {\n}\n");
}

// Print shape: a string literal prints directly; anything else goes through
// one default format slot.
#[test]
fn print_of_string_literal_is_direct() {
    let node = ASTNode::Print {
        value: Box::new(ASTNode::String { value: "\"hi\"".to_string() }),
    };
    assert_eq!(generate_node_code(&node), "print!(\"hi\");");
}

#[test]
fn print_of_identifier_uses_format_slot() {
    let node = ASTNode::Print {
        value: Box::new(ASTNode::Identifier { name: "x".to_string() }),
    };
    assert_eq!(generate_node_code(&node), "print!(\"{}\", x);");
}

#[test]
fn back_payload_is_emitted_verbatim() {
    let node = ASTNode::Back { value: "answer".to_string() };
    assert_eq!(generate_node_code(&node), "return answer;");
}

#[test]
fn call_arguments_are_comma_joined() {
    let node = ASTNode::FunctionCall {
        name: "f".to_string(),
        args: vec![
            ASTNode::Number { value: "1".to_string() },
            ASTNode::Identifier { name: "x".to_string() },
        ],
    };
    assert_eq!(generate_node_code(&node), "f(1, x)");
}

#[test]
fn missing_main_is_synthesized_once() {
    let code = compile("let x = 1;");
    assert_eq!(code, "let x = 1;\n\nfn main() {\n}\n");
    let code = compile("fun main() { print(\"x\"); }");
    assert_eq!(code, "fn main() {\n    print!(\"x\");\n}\n");
}

#[test]
fn generated_assignment_statement() {
    let code = compile("let x = 1; x = 2;");
    assert_eq!(code, "let x = 1;\nx = 2;\n\nfn main() {\n}\n");
}

// End-to-end scenario: the sample source lexes to its sixteen tokens, the
// analyzer accepts it, and the generator emits the expected entry point with
// no extra one synthesized.
#[test]
fn end_to_end_sample_program() {
    let src = "fun main() { let x = \"5\"; print(x); }";
    let tokens = lexer(src).unwrap();
    let expected_kinds = vec![
        TokenType::Fun,
        TokenType::Identifier,
        TokenType::LParen,
        TokenType::RParen,
        TokenType::LBrace,
        TokenType::Let,
        TokenType::Identifier,
        TokenType::Assign,
        TokenType::String,
        TokenType::Semicolon,
        TokenType::Print,
        TokenType::LParen,
        TokenType::Identifier,
        TokenType::RParen,
        TokenType::Semicolon,
        TokenType::RBrace,
    ];
    assert_eq!(tokens.len(), expected_kinds.len());
    for (t, k) in tokens.iter().zip(expected_kinds.iter()) {
        assert_eq!(t.type_, *k);
    }

    let mut parser = Parser::new(tokens);
    let mut ast = parser.parse().unwrap();
    let mut analyzer = SemanticAnalyzer::new();
    analyzer.analyze(&mut ast).unwrap();

    let code = generate_code(&ast);
    assert_eq!(code, "fn main() {\n    let x = \"5\";\n    print!(\"{}\", x);\n}\n");
}
