//! A growable, owned sequence of Unicode scalar values.
//!
//! [`String2`] stores decoded scalar values (`char`s) rather than UTF-8
//! bytes, so callers may index and mutate by character position without
//! decoding on every access.  Text enters through [`String2::from_text`]
//! and leaves through [`String2::to_text`], which are exact inverses.
//!
//! Every operation carries a contract over the sequence-of-characters view
//! `self@`, including the storage model: `self@.len()` never exceeds
//! `self.spec_capacity()`, and operations state precisely when the backing
//! storage grows, shrinks, or stays put.

pub mod codec;
pub mod iter;
pub mod laws;
pub mod string2;

pub use iter::StrIterator;
pub use string2::CapacityError;
pub use string2::DecodeError;
pub use string2::String2;
