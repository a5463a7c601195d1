pub mod errors;
pub mod generator;
pub mod lexer;
pub mod paint;
pub mod text;
pub mod types;
