//! A tiny compiler front end for a fully parenthesized, prefix-notation
//! language: lexing, recursive-descent parsing, visitor-driven tree
//! traversal, and an AST-to-AST transformation.

pub mod ast;
pub mod lexer;
pub mod parser;
pub mod transform;
pub mod traverse;

pub use transform::TransformContext;
pub use transform::TransformVisitor;
pub use transform::transformer;

pub use traverse::Visitor;
pub use traverse::traverser;

pub use parser::ParseError;
pub use parser::parser;

pub use lexer::LexError;
pub use lexer::tokenizer;
pub use ast::Node;
pub use ast::NodeType;
pub use ast::Token;
pub use ast::TransformedNode;
