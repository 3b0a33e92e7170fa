use vstd::prelude::*;

verus! {

/// An opaque, host-authenticated identity (a public key on the host side).
///
/// The registry core never derives or validates an identity itself: the host
/// proves who the caller is and hands the proven identity in as a value. The
/// core only ever compares identities for equality, so the representation is
/// a single opaque word.
#[derive(Clone, Copy, PartialEq, Eq, Structural, Debug, Hash)]
pub struct Identity {
    pub key: u128,
}

impl Identity {
    /// Builds the identity with the given key value.
    pub fn new(key: u128) -> (r: Identity)
        ensures
            r == (Identity { key }),
    {
        Identity { key }
    }
}

} // verus!
