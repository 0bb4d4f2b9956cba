//! The ρ (RHO) array language: its syntax tree, the shape algebra every
//! target shares, the parser and the static checks, and the fixed-point
//! arithmetic a circuit computes with.

pub mod alias_laws;
pub mod ast;
pub mod circuit;
pub mod dag;
pub mod cli;
pub mod definition;
pub mod diagnostic;
pub mod error;
pub mod expand;
pub mod expansion;
pub mod expression;
pub mod fuzzing;
pub mod fusion;
pub mod irtext;
pub mod jax;
pub mod kernel;
pub mod layout;
pub mod lexer;
pub mod numeric;
pub mod order;
pub mod literal;
pub mod llvm;
pub mod llvm_mode;
pub mod lowering_laws;
pub mod parser;
pub mod program;
pub mod python;
pub mod shape_laws;
pub mod space_laws;
pub mod statement;
pub mod sv;
pub mod symbolic;
pub mod transpose_laws;
pub mod text;
pub mod tla;
pub mod validation;
