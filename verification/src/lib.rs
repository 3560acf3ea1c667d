//! Detection of loanwords in Russian text, and the wording of the reply
//! that suggests native replacements.
//!
//! `utils::morpheme` holds the entries of the dictionary and the record of a
//! detected loanword, `utils::dictionary` the dictionary itself,
//! `utils::tokens` the cutting of a text into words, `utils::word` the
//! matching of words against the dictionary, and `answer::words` the reply
//! to a chat message.

pub mod answer;
pub mod utils;
