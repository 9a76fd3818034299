//! Fees of the exchange.

pub mod calculator;
