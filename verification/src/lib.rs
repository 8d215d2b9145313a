//! Front-end support library of the Palladium compiler: source spans and
//! diagnostics, suggestion heuristics, the effect analysis, lexical helpers
//! and the value-level core of the C backend.

pub mod ast;
pub mod codegen;
pub mod driver;
pub mod effects;
pub mod enums;
pub mod errors;
pub mod lexer;
pub mod patterns;
pub mod shapes;
pub mod signature;
pub mod structs;
pub mod text;
