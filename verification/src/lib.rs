//! A model of tagged scalar values and their mapping onto a host
//! environment's dynamic values.
//!
//! The crate owns two total observations of a [`ScalarValue`]: a conversion
//! into an [`ExternalValue`] (the shape the host runtime receives) and a
//! human-readable type tag.  Numbers on the host side are IEEE-754 doubles;
//! they are held here as their bit patterns, and the widening of 64-bit
//! integers into them is implemented and proved over plain integers.

pub mod digits;
pub mod scalar;
pub mod widen;


pub use scalar::ExternalValue;
pub use scalar::ScalarValue;
