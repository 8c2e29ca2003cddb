//! Verified index and layout logic of interpolation and complex data vectors.
pub mod interpolation;
pub mod layout;
pub mod wrapping;
pub mod vector;
