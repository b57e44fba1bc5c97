//! An evaluator for the untyped lambda calculus with a tiny surface syntax:
//! definitions (`λx body`), applications (`f a`), identifiers, and top-level
//! assignments (`name = expression`).
//!
//! The modules, leaves first:
//! - [`ast`]: the parsed syntax tree.
//! - [`text`]: small string helpers.
//! - [`parser`]: text to syntax tree.
//! - [`error`]: failures of evaluation and their context frames.
//! - [`value`]: runtime values, name resolution, beta-reduction and rendering.
//! - [`scope`]: the global name-to-value mapping of a session.
//! - [`session`]: statement execution against one global scope.
//! - [`round_trip`]: the text of a tree reads back as that tree.
//! - [`completion`]: name completion and hints for an interactive shell.
//! - [`highlight`]: syntax highlighting for an interactive shell.
pub mod ast;
pub mod completion;
pub mod error;
pub mod highlight;
pub mod parser;
pub mod round_trip;
pub mod scope;
pub mod session;
pub mod text;
pub mod value;

pub use ast::{Expr, Expression, Module, Statement, Stmt};
pub use completion::{AutoCompleter, CommandHint, Helper, LangHinter};
pub use error::{Error, Frame};
pub use highlight::Palette;
pub use parser::{parse, read_stdlib, LangParser, ParseError, SourceError};
pub use scope::GlobalScope;
pub use session::{LoadError, Session};
pub use value::Value;
