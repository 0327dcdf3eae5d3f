//! Convert TOML documents to JSON text.
//!
//! The library decodes a TOML document into a generic tagged value
//! ([`value::GenericValue`]), then renders that value as JSON with a verified
//! encoder whose output is pinned down, character for character, by the
//! spec-level rendering function in [`json`].

pub mod value;
pub mod json;
pub mod decode;
pub mod convert;
pub mod laws;
