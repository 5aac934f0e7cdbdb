//! Values shared with the curve arithmetic.

pub mod arithmetic;
