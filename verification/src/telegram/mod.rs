//! Telegram: answers to commands and alerts.

pub mod alerts;
pub mod answer_laws;
pub mod bot;
pub mod texts;
