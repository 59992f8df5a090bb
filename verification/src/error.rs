//! The discriminated failure value that store operations return.

use vstd::prelude::*;

verus! {

/// Why a store operation failed.
///
/// `NotFound`: a referenced session, session exercise or day does not exist.
/// `StorageFailure`: the store cannot take another row (an identifier would
/// leave the signed 64-bit range).
#[derive(Clone, Copy, PartialEq, Eq, Structural, Debug)]
pub enum Error {
    NotFound,
    StorageFailure,
}

} // verus!
