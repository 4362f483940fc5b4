//! Why a load was given up.

use vstd::prelude::*;

verus! {

/// The three ways in which a load fails. Each of them ends the load: no
/// part of a model is handed out beside an error.
#[derive(Clone, Copy, Debug, PartialEq, Eq, Structural)]
pub enum LoadError {
    /// A material library that the geometry names was not supplied.
    File,
    /// A line is not valid UTF-8.
    LineRead,
    /// A directive lacks an operand or a number, a numeric token is not a
    /// decimal literal, a face index is not an index or lies outside its
    /// pool, or a material is used that the current table does not hold.
    MalformedData,
}

} // verus!
