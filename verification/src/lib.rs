pub mod analysis;
pub mod check;
pub mod comparison;
pub mod cli;
pub mod diagnostic;
pub mod document;
pub mod emit;
pub mod field_access;
pub mod function_item;
pub mod numeral;
pub mod ordering;
pub mod renderer;
pub mod scope;
pub mod token_kind;
pub mod token_stream;
pub mod tree_path;
pub mod type_check;
pub mod trivia;
