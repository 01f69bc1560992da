//! Defines the format of metadata files to be parsed.

use vstd::prelude::*;

verus! {

/// Represents all the different metadata formats that are supported.
#[derive(Clone, Copy, PartialEq, Eq, Hash, Debug, Structural)]
pub enum MetaFormat {
    Yaml,
    Json,
}

impl MetaFormat {
    /// The default format: YAML.
    pub fn default() -> (r: Self)
        ensures
            r == MetaFormat::Yaml,
    {
        MetaFormat::Yaml
    }

    /// Returns the expected file name extension for files in this format.
    pub fn file_extension(&self) -> (r: &'static str)
        ensures
            *self == MetaFormat::Yaml ==> r@ == "yml"@,
            *self == MetaFormat::Json ==> r@ == "json"@,
    {
        match self {
            MetaFormat::Yaml => "yml",
            MetaFormat::Json => "json",
        }
    }
}

} // verus!
