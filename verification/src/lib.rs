pub mod code_checker;
pub mod error;
pub mod function;
pub mod instruction;
pub mod names;
pub mod optimizer;
pub mod producer;
pub mod semantics;
pub mod variable;
