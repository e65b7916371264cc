// Tokenizer and parser behaviour on concrete sources.

use netflu::ASTNode;
use netflu::LexError;
use netflu::ParseError;
use netflu::Parser;
use netflu::Token;
use netflu::TokenType;
use netflu::lexer;
use netflu::token::str_eq;

fn kinds(tokens: &[Token]) -> Vec<TokenType> {
    tokens.iter().map(|t| t.type_).collect()
}

fn lexemes(tokens: &[Token]) -> Vec<String> {
    tokens.iter().map(|t| t.value.clone()).collect()
}

#[test]
fn empty_source_has_no_tokens() {
    assert_eq!(lexer("").unwrap().len(), 0);
    assert_eq!(lexer(" \t\r\n  ").unwrap().len(), 0);
}

#[test]
fn simple_let_tokens() {
    let tokens = lexer("let x = 5;").unwrap();
    assert_eq!(
        kinds(&tokens),
        vec![
            TokenType::Let,
            TokenType::Identifier,
            TokenType::Assign,
            TokenType::Number,
            TokenType::Semicolon,
        ]
    );
    assert_eq!(lexemes(&tokens), vec!["let", "x", "=", "5", ";"]);
    let offsets: Vec<usize> = tokens.iter().map(|t| t.position).collect();
    assert_eq!(offsets, vec![0, 4, 6, 8, 9]);
}

#[test]
fn string_literal_keeps_quotes() {
    let tokens = lexer("\"hi there\"").unwrap();
    assert_eq!(tokens.len(), 1);
    assert_eq!(tokens[0].type_, TokenType::String);
    assert_eq!(tokens[0].value, "\"hi there\"");
}

#[test]
fn every_punctuation_kind() {
    let tokens = lexer("+ - = ; ( ) { } * /").unwrap();
    assert_eq!(
        kinds(&tokens),
        vec![
            TokenType::Plus,
            TokenType::Minus,
            TokenType::Assign,
            TokenType::Semicolon,
            TokenType::LParen,
            TokenType::RParen,
            TokenType::LBrace,
            TokenType::RBrace,
            TokenType::Multiply,
            TokenType::Divide,
        ]
    );
}

#[test]
fn unrecognized_character_is_reported_with_offset() {
    let err = lexer("let @").unwrap_err();
    assert_eq!(err, LexError { character: '@', offset: 4 });
}

#[test]
fn unterminated_string_is_a_lex_error() {
    let err = lexer("\"abc").unwrap_err();
    assert_eq!(err, LexError { character: '"', offset: 0 });
}

// Whitespace and line tracking: the recorded line number is one more than
// the number of newlines before the token's offset.
#[test]
fn line_numbers_follow_newlines() {
    let tokens = lexer("let a = 1;\nlet b = 2;\n  let c = 3;").unwrap();
    assert_eq!(tokens.len(), 15);
    for t in &tokens[0..5] {
        assert_eq!(t.line, 1);
    }
    for t in &tokens[5..10] {
        assert_eq!(t.line, 2);
    }
    for t in &tokens[10..15] {
        assert_eq!(t.line, 3);
    }
    let src: Vec<char> = "let a = 1;\nlet b = 2;\n  let c = 3;".chars().collect();
    for t in &tokens {
        let newlines = src[..t.position].iter().filter(|c| **c == '\n').count();
        assert_eq!(t.line as usize, newlines + 1);
    }
}

// The tokenizer tie-break, for each keyword: a keyword spelling followed by
// further identifier characters splits into a keyword token and a trailing
// identifier token.
#[test]
fn keyword_let_splits_from_trailing_identifier() {
    let tokens = lexer("letter").unwrap();
    assert_eq!(kinds(&tokens), vec![TokenType::Let, TokenType::Identifier]);
    assert_eq!(lexemes(&tokens), vec!["let", "ter"]);
}

#[test]
fn keyword_print_splits_from_trailing_identifier() {
    let tokens = lexer("printer").unwrap();
    assert_eq!(kinds(&tokens), vec![TokenType::Print, TokenType::Identifier]);
    assert_eq!(lexemes(&tokens), vec!["print", "er"]);
}

#[test]
fn keyword_method_splits_from_trailing_identifier() {
    let tokens = lexer("methods").unwrap();
    assert_eq!(kinds(&tokens), vec![TokenType::Method, TokenType::Identifier]);
    assert_eq!(lexemes(&tokens), vec!["method", "s"]);
}

#[test]
fn keyword_fun_splits_from_trailing_identifier() {
    let tokens = lexer("fund").unwrap();
    assert_eq!(kinds(&tokens), vec![TokenType::Fun, TokenType::Identifier]);
    assert_eq!(lexemes(&tokens), vec!["fun", "d"]);
}

#[test]
fn keyword_back_splits_from_trailing_identifier() {
    let tokens = lexer("backs").unwrap();
    assert_eq!(kinds(&tokens), vec![TokenType::Back, TokenType::Identifier]);
    assert_eq!(lexemes(&tokens), vec!["back", "s"]);
}

fn parse_source(src: &str) -> Result<Vec<ASTNode>, ParseError> {
    let tokens = lexer(src).unwrap();
    let mut parser = Parser::new(tokens);
    parser.parse()
}

// Round-trip shape: the token stream of `let x = 5;` parses to a single
// `Let` node binding `x` to the number literal `5`.
#[test]
fn let_statement_round_trip_shape() {
    let ast = parse_source("let x = 5;").unwrap();
    assert_eq!(ast.len(), 1);
    match &ast[0] {
        ASTNode::Let { name, value } => {
            assert_eq!(name, "x");
            match &**value {
                ASTNode::Number { value } => assert_eq!(value, "5"),
                other => panic!("expected a number literal, got {:?}", other),
            }
        },
        other => panic!("expected a let binding, got {:?}", other),
    }
}

#[test]
fn number_literal_text_is_kept_verbatim() {
    let ast = parse_source("let x = 007;").unwrap();
    match &ast[0] {
        ASTNode::Let { value, .. } => match &**value {
            ASTNode::Number { value } => assert_eq!(value, "007"),
            other => panic!("expected a number literal, got {:?}", other),
        },
        other => panic!("expected a let binding, got {:?}", other),
    }
}

#[test]
fn assignment_statement_parses() {
    let ast = parse_source("x = \"v\";").unwrap();
    assert_eq!(ast.len(), 1);
    match &ast[0] {
        ASTNode::Assign { name, value } => {
            assert_eq!(name, "x");
            assert!(matches!(&**value, ASTNode::String { .. }));
        },
        other => panic!("expected an assignment, got {:?}", other),
    }
}

#[test]
fn call_statement_parses_with_plus_separated_arguments() {
    let ast = parse_source("x(1 + 2);").unwrap();
    assert_eq!(ast.len(), 1);
    match &ast[0] {
        ASTNode::FunctionCall { name, args } => {
            assert_eq!(name, "x");
            assert_eq!(args.len(), 2);
            assert!(matches!(&args[0], ASTNode::Number { value } if value == "1"));
            assert!(matches!(&args[1], ASTNode::Number { value } if value == "2"));
        },
        other => panic!("expected a call, got {:?}", other),
    }
}

#[test]
fn call_arguments_accept_semicolon_separators() {
    let ast = parse_source("x(1; 2);").unwrap();
    match &ast[0] {
        ASTNode::FunctionCall { args, .. } => assert_eq!(args.len(), 2),
        other => panic!("expected a call, got {:?}", other),
    }
}

#[test]
fn call_arguments_refuse_other_separators() {
    let err = parse_source("x(1 * 2);").unwrap_err();
    assert_eq!(
        err,
        ParseError::Expected { expected: TokenType::Plus, got: TokenType::Multiply }
    );
}

#[test]
fn call_expression_inside_let_parses() {
    let ast = parse_source("let y = f();").unwrap();
    match &ast[0] {
        ASTNode::Let { value, .. } => match &**value {
            ASTNode::FunctionCall { name, args } => {
                assert_eq!(name, "f");
                assert_eq!(args.len(), 0);
            },
            other => panic!("expected a call, got {:?}", other),
        },
        other => panic!("expected a let binding, got {:?}", other),
    }
}

#[test]
fn method_body_and_optional_trailing_semicolon() {
    let ast = parse_source("method m { let y = 1; ; back y; };").unwrap();
    assert_eq!(ast.len(), 1);
    match &ast[0] {
        ASTNode::Method { name, body, local_symbol_table, return_value } => {
            assert_eq!(name, "m");
            assert_eq!(body.len(), 2);
            assert!(matches!(&body[0], ASTNode::Let { .. }));
            assert!(matches!(&body[1], ASTNode::Back { value } if value == "y"));
            assert_eq!(local_symbol_table.len(), 0);
            assert!(return_value.is_none());
        },
        other => panic!("expected a method, got {:?}", other),
    }
}

#[test]
fn fun_parses_with_and_without_parentheses() {
    let with = parse_source("fun f() { print(\"a\"); }").unwrap();
    let without = parse_source("fun f { print(\"a\"); }").unwrap();
    for ast in [&with, &without] {
        match &ast[0] {
            ASTNode::Fun { name, body } => {
                assert_eq!(name, "f");
                assert_eq!(body.len(), 1);
            },
            other => panic!("expected a procedure, got {:?}", other),
        }
    }
}

#[test]
fn back_takes_identifier_or_number_only() {
    let ast = parse_source("back x; back 12;").unwrap();
    assert!(matches!(&ast[0], ASTNode::Back { value } if value == "x"));
    assert!(matches!(&ast[1], ASTNode::Back { value } if value == "12"));
    let err = parse_source("back \"s\";").unwrap_err();
    assert_eq!(err, ParseError::InvalidBackExpression);
}

#[test]
fn parse_error_variants() {
    assert_eq!(parse_source("let 5 = 1;").unwrap_err(), ParseError::ExpectedIdentifierAfterLet);
    assert_eq!(
        parse_source("let x 5;").unwrap_err(),
        ParseError::Expected { expected: TokenType::Assign, got: TokenType::Number }
    );
    assert_eq!(
        parse_source("let x = 5").unwrap_err(),
        ParseError::ExpectedEof { expected: TokenType::Semicolon }
    );
    assert_eq!(parse_source("let x =").unwrap_err(), ParseError::EofInExpression);
    assert_eq!(
        parse_source("let x = ;").unwrap_err(),
        ParseError::UnexpectedInExpression { got: TokenType::Semicolon }
    );
    assert_eq!(
        parse_source("print x;").unwrap_err(),
        ParseError::Expected { expected: TokenType::LParen, got: TokenType::Identifier }
    );
    assert_eq!(parse_source("method { }").unwrap_err(), ParseError::ExpectedMethodName);
    assert_eq!(parse_source("fun { }").unwrap_err(), ParseError::ExpectedFunctionName);
    assert_eq!(
        parse_source("5;").unwrap_err(),
        ParseError::UnexpectedToken { got: TokenType::Number }
    );
    assert_eq!(
        parse_source("method m { back x;").unwrap_err(),
        ParseError::ExpectedEof { expected: TokenType::RBrace }
    );
}

#[test]
fn statement_at_end_of_input_is_an_error() {
    let mut parser = Parser::new(lexer("let x = 1;").unwrap());
    parser.pos = 99;
    assert!(parser.parse().unwrap().is_empty());
    let tokens = lexer("; x").unwrap();
    let mut parser = Parser::new(tokens);
    assert_eq!(
        parser.parse().unwrap_err(),
        ParseError::UnexpectedToken { got: TokenType::Semicolon }
    );
}

#[test]
fn empty_token_stream_parses_to_nothing() {
    assert_eq!(parse_source("").unwrap().len(), 0);
}

#[test]
fn str_eq_compares_by_characters() {
    assert!(str_eq("abc", "abc"));
    assert!(str_eq("", ""));
    assert!(!str_eq("abc", "abd"));
    assert!(!str_eq("abc", "ab"));
}
