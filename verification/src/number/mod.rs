//! Numbers as benchmark reports hold them: IEEE 754 binary floating point, carried by its bit
//! pattern and computed with integers.

pub mod double;
pub mod error;
pub mod exact;
pub mod laws;
pub mod root;
pub mod rounding;
pub mod single;
pub mod single_error;
