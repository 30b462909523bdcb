//! A small embeddable s-expression interpreter.
//!
//! Source text is split into tokens, parsed into an expression tree, and
//! evaluated against a chain of lexically nested variable scopes.  Numbers
//! are 64-bit signed integers with checked arithmetic; the evaluator caps
//! the nesting depth of function calls so that every evaluation terminates.

pub mod env;
pub mod eval;
pub mod exp;
pub mod parser;
pub mod tokenizer;

pub use env::RispEnv;
pub use eval::eval;
pub use exp::RispBuiltin;
pub use exp::RispErr;
pub use exp::RispExp;
pub use exp::RispLambda;
pub use parser::RispParser;
pub use tokenizer::RispTokenizer;
