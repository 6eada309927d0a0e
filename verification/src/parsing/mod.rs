//! Text, tokens, trees and the two stages that produce them.

pub mod ast;
pub mod atoms;
pub mod hooks;
pub mod lexer;
pub mod parser;
pub mod text;
pub mod token;
pub mod utils;
