//! The error reported when a selection does not align with a schema type.

use vstd::prelude::*;

verus! {

/// A verification failure.
#[derive(Debug, PartialEq, Eq)]
pub enum Error {
    /// The selection references a field that the schema type does not have.
    MissingField(String),
}

} // verus!
