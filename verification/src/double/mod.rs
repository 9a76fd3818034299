//! Binary64 numbers held as bit patterns, with correctly rounded arithmetic.

pub mod arithmetic;
pub mod decimal;
pub mod error;
pub mod integers;
pub mod laws;
pub mod order;
pub mod rounding;
pub mod value;

pub use value::Double;
