//! Shared logic of the package-repository build tooling: recipe
//! validation and template resolution, repository layout paths, metadata
//! entries, folding metadata into a repository index, and the text
//! encodings used when signing.

pub mod builder;
pub mod error;
pub mod index;
pub mod metadata;
pub mod paths;
pub mod precedence;
pub mod publish;
pub mod recipe;
pub mod sign;
pub mod text;
pub mod version;

pub use error::ToolkitError;
pub use recipe::{BuildSpec, Channel, Recipe, Source, Template};
