//! The replies of the bot.

pub mod words;
