//! KelpyShark interpreter library: scoping, runtime values and the
//! tree-walking evaluator, verified with Verus.

pub mod ast;
pub mod builtins;
pub mod display;
pub mod environment;
pub mod host;
pub mod interpreter;
pub mod laws;
pub mod methods;
pub mod repl;
pub mod semantics;
pub mod text;
pub mod value;
