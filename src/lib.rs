//! Structural generation and shrinking for property-based testing.
//!
//! A data type is described by its shape (struct or enum, and for each
//! variant its fields). From the shape alone this library decides how a
//! random value is laid out and which simpler candidates a value shrinks to.
pub mod generate;
pub mod laws;
pub mod shape;
pub mod shrink;
