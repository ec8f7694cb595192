//! Array-backed containers keyed by the values of a closed enumeration.
//!
//! A key type implements [`Enumerated`], which numbers its values densely from
//! zero. [`EnumMap`] keeps one optional slot per key, [`EnumTable`] keeps one
//! always-present slot per key, initialised from the value type's default.
pub mod enumerated;
pub mod enummap;
pub mod enumtable;
pub mod slots;

pub use enumerated::Enumerated;
pub use enummap::EnumMap;
pub use enumtable::EnumTable;
