//! The records that an LDML document supplies: the locale's identity and its
//! collations, each with the rule strings of its `<cr>` elements. Reading the
//! XML itself happens outside this crate.
use vstd::prelude::*;

verus! {

/// An LDML document, as far as collation needs it.
#[derive(Debug, PartialEq)]
pub struct LDML {
    pub identity: IdentityTag,
    pub collations: Collations,
}

/// The `<identity>` element.
#[derive(Debug, PartialEq)]
pub struct IdentityTag {
    pub version: Version,
    pub language: Language,
    pub territory: Option<Territory>,
}

/// The `number` attribute of `<version>`.
#[derive(Debug, PartialEq)]
pub struct Version {
    pub number: String,
}

/// The `type` attribute of `<language>`.
#[derive(Debug, PartialEq)]
pub struct Language {
    pub kind: String,
}

/// The `type` attribute of `<territory>`.
#[derive(Debug, PartialEq)]
pub struct Territory {
    pub kind: String,
}

/// The `<collations>` element.
#[derive(Debug, PartialEq)]
pub struct Collations {
    pub collation: Vec<Collation>,
}

/// A `<collation>` element: its `type` attribute and the text of each of its
/// `<cr>` elements.
#[derive(Debug, PartialEq)]
pub struct Collation {
    pub kind: String,
    pub rules: Vec<String>,
}

} // verus!
