use vstd::prelude::*;

verus! {

/// Every error the toolkit can produce. Failures that come from outside
/// the library (I/O, TOML and JSON parsing, the package-format crate) are
/// carried as their rendered message; `Recipe` carries a ready-to-print
/// message for the failures specific to building repository content.
#[derive(Debug)]
pub enum ToolkitError {
    Io(String),
    TomlParse(String),
    TomlSerialize(String),
    Json(String),
    Pkg(String),
    Recipe(String),
}

} // verus!
