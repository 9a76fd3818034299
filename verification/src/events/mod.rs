//! Events of the bot.

pub mod bus;
