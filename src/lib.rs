//! Compiler for a small S-expression arithmetic language with `let` bindings,
//! producing instructions for an accumulator and stack-slot machine.
pub mod machine;
pub mod builder;
pub mod codegen;
pub mod env;
pub mod syntax;
pub mod text;
