//! Trading decisions: prices, limits, the endgame and the life of a market.

pub mod article;
pub mod engine;
pub mod limit_laws;
pub mod mirror;
pub mod price_laws;
pub mod pricing;
pub mod risk;
