//! Discovery of markets: which ones must exist now, and what is made of them.

pub mod calendar;
pub mod calendar_laws;
pub mod gamma;
pub mod round_laws;
pub mod rounds;
pub mod slugs;
