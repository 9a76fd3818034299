//! Market data: price streams, order books and the hub that joins them.

pub mod binance;
pub mod book_laws;
pub mod coinbase;
pub mod delta;
pub mod hub;
pub mod levels;
pub mod polymarket;
pub mod stream;
pub mod tick_laws;
pub mod types;

pub use hub::FeedHub;
