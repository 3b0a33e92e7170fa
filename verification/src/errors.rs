use vstd::prelude::*;

verus! {

/// Every failure a registry operation can surface.
///
/// Each error is detected before any mutation: a failing operation leaves the
/// registry exactly as it was.
#[derive(Clone, Copy, PartialEq, Eq, Structural, Debug)]
pub enum ArmorError {
    /// The caller does not match the record field that gates the operation
    /// (`claim_wallet` for verify and dissolve, `armored_wallet` for
    /// claimant rotation).
    Unauthorized,
    /// A record already occupies the storage slot being created.
    AlreadyExists,
    /// No record exists at the addressed storage slot.
    NotFound,
}

} // verus!
