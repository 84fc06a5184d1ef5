//! IEEE-754 binary64 numbers, held by their bit patterns.

pub mod about;
pub mod constants;
pub mod decimal;
pub mod double;
pub mod order;
pub mod rounding;
pub mod sums;

pub use double::Double;
