//! Defines the format in which metadata files are written.

use vstd::prelude::*;

verus! {

/// Represents all the different metadata formats that are supported.
#[derive(Clone, Copy, PartialEq, Eq, Hash, Debug, Structural)]
pub enum SerializeFormat {
    Yaml,
    Json,
}

impl SerializeFormat {
    /// The default format: YAML.
    pub fn default() -> (r: Self)
        ensures
            r == SerializeFormat::Yaml,
    {
        SerializeFormat::Yaml
    }

    /// Returns the expected file name extension for files in this format.
    pub fn file_extension(&self) -> (r: &'static str)
        ensures
            *self == SerializeFormat::Yaml ==> r@ == "yml"@,
            *self == SerializeFormat::Json ==> r@ == "json"@,
    {
        match self {
            SerializeFormat::Yaml => "yml",
            SerializeFormat::Json => "json",
        }
    }
}

} // verus!
