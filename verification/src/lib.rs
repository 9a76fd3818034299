//! Verified core of a maker bot.

pub mod config;
pub mod discovery;
pub mod double;
pub mod events;
pub mod executor;
pub mod feeds;
pub mod fees;
pub mod position;
pub mod startup;
pub mod store;
pub mod strategy;
pub mod telegram;
pub mod text;
pub mod text_laws;
