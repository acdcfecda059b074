//! The codable types.

pub mod numeric;
pub mod other;
pub mod string;
pub mod sequence;
pub mod optional;
