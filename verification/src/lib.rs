//! Library for preparing photos for printing: a unit-aware length, size and
//! border algebra, and a box-model layout solver that reconciles print-format
//! constraints into a pixel-exact composition.

use vstd::prelude::*;

pub mod cli;
pub mod layout;
pub mod parse;
pub mod path;
pub mod rational;
pub mod text;
pub mod units;

verus! {

/// Error type for failed parsing of `String`s to `enum`s.
#[derive(Debug, Clone, PartialEq, Eq)]
pub struct ParseEnumError(pub String);

/// Error type for failed parsing of `String`s to `struct`s.
#[derive(Debug, Clone, PartialEq, Eq)]
pub struct ParseStructError(pub String);

/// Error type for illegal image operation parameters.
#[derive(Debug, Clone, PartialEq, Eq)]
pub struct OperationParametersError(pub String);

/// Error type for invalid image paths.
#[derive(Debug, Clone, PartialEq, Eq)]
pub struct InvalidImagePathError(pub String);

/// Error type for invalid image formats.
#[derive(Debug, Clone, PartialEq, Eq)]
pub struct ImageFormatError(pub String);

} // verus!
