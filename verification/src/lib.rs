//! A declarative configuration language that resolves each statement into
//! the set of path-fragment strings it denotes: a total lexer, an AST with
//! cardinality arithmetic, a recursive-descent parser with per-entry error
//! recovery, and a lazy, restartable combinatorial string generator.

pub mod ast;
pub mod errors;
pub mod lexer;
pub mod parser;
pub mod paths;
pub mod strgen;

pub use ast::Entry;
pub use errors::{ParseError, ParseErrorType, ParseResult};
pub use paths::AmbitPaths;
pub use parser::{Parser, get_entries};

