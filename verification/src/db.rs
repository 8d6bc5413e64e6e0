use vstd::prelude::*;

pub mod codec;
pub mod database;
pub mod dbvalue;

verus! {

/// Failures raised by the store and the commands that run against it.
#[derive(PartialEq, Eq, Clone, Copy, Debug, Structural)]
pub enum DbError {
    /// A hash member was written into a key whose value is not a hash.
    TypeMismatch,
}

} // verus!
