/// The syntax tree of the language.
pub mod ast;
/// Lowering of the syntax tree to the IR model.
pub mod codegen;
/// Scopes of the function being lowered, and the IR types of functions.
pub mod context;
/// The definition pre-pass: user types and function signatures.
pub mod definitions;
/// Semantic failures.
pub mod error;
/// The IR model that lowering produces.
pub mod ir;
/// Tokens of the source text.
pub mod lexer;
/// Reading source text into a syntax tree.
pub mod parser;
/// The syntax tree as an indented text tree.
pub mod printer;
/// Source types and the common-type rule.
pub mod types;
