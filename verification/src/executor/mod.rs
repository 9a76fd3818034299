//! Orders: their life, and the cycle that places and replaces them.

pub mod amount;
pub mod cancel_replace;
pub mod cycle_laws;
pub mod order_laws;
pub mod order_manager;
pub mod quote_laws;
