//! Extracts attribute documentation from the syntax tree of a configuration
//! file that defines a constructor function over a record of defaulted
//! options: for every field of the record it reports the field's name, the
//! description reconstructed from the comments above it, and an optional
//! default annotation derived from the shape of the field's value expression.

pub mod classify;
pub mod comment;
pub mod error;
pub mod extract;
pub mod locate;
pub mod render;
pub mod text;
pub mod tree;
