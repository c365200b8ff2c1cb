//! The decision logic of a sandbox command line: benchmarks and their reports, disk usage,
//! image pulls and reserve handling.

pub mod bench;
pub mod df;
pub mod images;
pub mod json;
pub mod names;
pub mod number;
pub mod parts;
pub mod pull;
pub mod render;
pub mod reserve;
pub mod sizes;
pub mod text;
