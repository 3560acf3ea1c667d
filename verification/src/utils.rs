//! The dictionary model, the text helpers and the word filter.

pub mod constant;
pub mod dictionary;
pub mod morpheme;
pub mod text;
pub mod tokens;
pub mod word;
