//! A deterministic generator of single-variable equations and an oracle of
//! the legal rewrites that move an equation toward its solved form.
use vstd::prelude::*;

pub mod rational;
pub mod expr;
pub mod lexer;
pub mod parser;
pub mod rules;
pub mod engine;
pub mod generator;
pub mod solvability;
pub mod domain;
