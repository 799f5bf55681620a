//! Reification of values into literal source text.
//!
//! A value that implements [`TextBuildable`] can be written out as an
//! expression which, once compiled, builds an equal value again. Integers,
//! truth values and strings are written by [`literal`], containers by
//! [`composite`], and [`record`] generates the implementation for a record
//! type from a description of its fields. [`reading`] and [`round_trip`]
//! state and prove that what is written denotes the value it was written
//! for.

pub mod buildable;
pub mod composite;
pub mod decimal;
pub mod embed;
pub mod fractional;
pub mod json;
pub mod literal;
pub mod reading;
pub mod record;
pub mod round_trip;
pub mod text;

pub use buildable::TextBuildable;
pub use embed::include_json;
pub use record::derive_text_buildable;
