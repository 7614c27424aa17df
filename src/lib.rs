/// Characters to tokens.
pub mod lexer;
/// Tokens to a value tree, by recursive descent.
pub mod parser;
pub mod tokens;
pub mod values;
/// How a value tree is written as tokens, and the proof that parsing reads it back.
pub mod written;
