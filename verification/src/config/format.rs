//! The formats of metadata files.

use vstd::prelude::*;

verus! {

/// Represents all the different metadata formats that are supported.
#[derive(Clone, Copy, PartialEq, Eq, Hash, Debug, Structural)]
pub enum Format {
    Json,
    Yaml,
}

impl Format {
    /// The name of a format, which is also its file extension.
    pub fn as_str(&self) -> (r: &'static str)
        ensures
            *self == Format::Json ==> r@ == "json"@,
            *self == Format::Yaml ==> r@ == "yml"@,
    {
        match self {
            Format::Json => "json",
            Format::Yaml => "yml",
        }
    }

    /// The format with a name: `JSON` or `json`, `YML` or `yml`; `None` for
    /// any other name.
    pub fn from_name(s: &str) -> (r: Option<Format>)
        ensures
            r == (if s@ == "JSON"@ || s@ == "json"@ {
                Some(Format::Json)
            } else if s@ == "YML"@ || s@ == "yml"@ {
                Some(Format::Yaml)
            } else {
                None
            }),
    {
        if str_eq(s, "JSON") || str_eq(s, "json") {
            Some(Format::Json)
        } else if str_eq(s, "YML") || str_eq(s, "yml") {
            Some(Format::Yaml)
        } else {
            None
        }
    }
}

/// Whether two strings hold the same characters.
pub fn str_eq(a: &str, b: &str) -> (r: bool)
    ensures
        r == (a@ == b@),
{
    let o = crate::metadata::types::str_order(a, b);
    proof {
        crate::metadata::types::lemma_chars_order_antisymmetric(a@, b@);
        crate::metadata::types::lemma_chars_order_antisymmetric(a@, a@);
    }
    o == 0
}

} // verus!
