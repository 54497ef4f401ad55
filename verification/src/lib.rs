//! A small expression-language front end: a lexer that turns text into
//! positioned tokens, a recursive-descent parser with precedence climbing
//! that builds an abstract syntax tree, and two visitors over that tree:
//! an evaluator that reduces an expression to a signed integer and a
//! printer that renders the tree as indented text.

pub mod ast;
