//! A left-to-right arithmetic expression evaluator over non-negative integer
//! literals and the four binary operators `+ - / *`, with no operator
//! precedence and arbitrary runs of whitespace between tokens.
//!
//! The evaluator is a combined lexer / recursive-descent engine over a mutable
//! scan cursor (`Context`).  Every operation returns a structured
//! [`tokens::ParseError`] instead of aborting, and the result of evaluation is
//! pinned down by the specification functions in [`semantics`].

pub mod chars;
pub mod laws;
pub mod parser;
pub mod semantics;
pub mod tokens;

pub use parser::Context;
pub use tokens::ErrorKind;
pub use tokens::ParseError;
pub use tokens::Token;
pub use tokens::TokenType;
