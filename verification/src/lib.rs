//! Discovery of the fields of a type from Rust sources.
//!
//! A derive macro that maps one type to another sees the definition of its own
//! type only. To leave out the fields that the other type does not have, it has to
//! find the definition of that type, and for this it reads the source file that the
//! type is referenced in and follows the imports from there.
//!
//! The entry points are [`discover::discover_other_type_field_info`] and
//! [`discover::discover_other_type_fields`]. They are pure: what is on disk they
//! learn from [`answers::Answers`], and where something is missing there they say
//! what it is.
pub mod answers;
pub mod discover;
pub mod fields;
pub mod laws;
pub mod parse;
pub mod path;
pub mod resolve;
pub mod search;
pub mod syntax;
