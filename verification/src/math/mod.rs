//! Fixed-point and i128 vector arithmetic, and distance units.

pub mod fixed_point;
pub mod vector;
pub mod units;
