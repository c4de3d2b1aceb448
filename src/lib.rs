use vstd::prelude::*;

pub mod text;
pub mod token;
pub mod grammar;
pub mod word;
pub mod lexer;
pub mod laws;
