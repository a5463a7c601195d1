pub mod instructions;
pub mod nodes;
pub mod tokens;
