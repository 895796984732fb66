pub mod grammar;
pub mod operator;
pub mod syntax;
pub mod parser;
pub mod tree_laws;
pub mod literal;
pub mod variable;
pub mod term;
pub mod text_laws;
