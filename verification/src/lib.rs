//! Front end for a small procedural language: a tokenizer, a recursive-descent
//! parser, a semantic analyzer and a code generator, each stage specified and
//! verified against a mathematical model of its behaviour.
//!
//! Data flows one way: source text to tokens, tokens to statements, statements
//! to an annotated statement list, and that list to host-language source text.
//! Each stage fails fast: the first error aborts the stage with no partial
//! result.

pub mod analyzer;
pub mod ast;
pub mod codegen;
pub mod lexer;
pub mod parser;
pub mod token;

pub use analyzer::SemanticAnalyzer;
pub use analyzer::SemanticError;
pub use ast::ASTNode;
pub use codegen::generate_code;
pub use lexer::LexError;
pub use lexer::lexer;
pub use parser::ParseError;
pub use parser::Parser;
pub use token::Token;
pub use token::TokenType;
