use vstd::prelude::*;

pub mod ast;
pub mod atomic;
pub mod bytecode;
pub mod cgi;
pub mod common;
pub mod compiler;
pub mod debug;
pub mod evaluation;
pub mod features;
pub mod input;
pub mod jumps;
pub mod lexer;
pub mod locals;
pub mod order;
pub mod parser;
pub mod render;
pub mod service;
pub mod statements;
pub mod template;
pub mod text;

verus! {
}
