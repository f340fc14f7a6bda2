//! Lazy enumeration of the suffixes of a string slice or of a slice of
//! elements, with machine-checked contracts.

pub mod suffix;
