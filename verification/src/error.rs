//! The errors of the module repository.

use vstd::prelude::*;
use crate::hash::HashParseError;

verus! {

/// Why an input could not be read.
#[derive(Clone, Debug, PartialEq, Eq)]
pub enum ParseError {
    /// The text is not base64. The message says so and ends with what the
    /// decoder reported.
    Base64 { message: String },
    /// The text is not the hexadecimal form of a hash.
    Hash(HashParseError),
}

/// Why an operation of the module repository failed.
#[derive(Clone, Debug, PartialEq, Eq)]
pub enum ModuleError {
    /// No module is known under the name.
    InvalidModuleName(String),
    /// A module is named where only a hash may stand.
    InvalidModuleReference { reference: String },
    /// An input could not be read.
    Parse(ParseError),
}

/// An error of the module repository as a mathematical value. Of a base64
/// error it keeps only that it is one.
pub enum ModuleErrorView {
    InvalidModuleName(Seq<char>),
    InvalidModuleReference(Seq<char>),
    InvalidBase64,
    InvalidHash(HashParseError),
}

impl View for ModuleError {
    type V = ModuleErrorView;

    open spec fn view(&self) -> ModuleErrorView {
        match *self {
            ModuleError::InvalidModuleName(name) => ModuleErrorView::InvalidModuleName(name@),
            ModuleError::InvalidModuleReference { reference } => ModuleErrorView::InvalidModuleReference(
                reference@,
            ),
            ModuleError::Parse(ParseError::Base64 { message }) => ModuleErrorView::InvalidBase64,
            ModuleError::Parse(ParseError::Hash(e)) => ModuleErrorView::InvalidHash(e),
        }
    }
}

} // verus!
