use vstd::prelude::*;

use crate::identity::Identity;

verus! {

/// One owner-to-claimant authorization binding.
///
/// `armored_wallet` is the owner that created the binding and is immutable
/// after creation. `claim_wallet` is the identity currently authorized to
/// verify and to dissolve the binding; only the owner may change it, and any
/// change atomically clears `verified`. `bump` is an opaque storage-slot
/// derivation tag supplied by the host; the core stores it untouched.
#[derive(Clone, Copy, PartialEq, Eq, Structural, Debug)]
pub struct Armor {
    pub armored_wallet: Identity,
    pub claim_wallet: Identity,
    pub verified: bool,
    pub bump: u8,
}

impl Armor {
    /// Size in bytes of one stored record on the host: an 8-byte record
    /// discriminator, two 32-byte identity keys, the flag and the tag.
    pub fn calculate_account_space() -> (r: usize)
        ensures
            r == 74,
    {
        8  + // discriminator
        32 + // armored_wallet
        32 + // claim_wallet
        1  + // verified
        1 // bump
    }

    /// Sets every field of a freshly allocated record: the record starts
    /// unverified, bound to the given owner and claimant.
    pub fn initialize(&mut self, armored_wallet: &Identity, claim_wallet: &Identity, bump: u8)
        ensures
            *final(self) == (Armor {
                armored_wallet: *armored_wallet,
                claim_wallet: *claim_wallet,
                verified: false,
                bump,
            }),
    {
        self.armored_wallet = *armored_wallet;
        self.claim_wallet = *claim_wallet;
        self.verified = false;
        self.bump = bump;
    }

    /// Raises the verification flag. Authorization against `claim_wallet` is
    /// the caller's duty; the mutation itself is unconditional and idempotent.
    pub fn verify(&mut self)
        ensures
            *final(self) == (Armor { verified: true, ..*old(self) }),
    {
        self.verified = true;
    }

    /// Replaces the claimant and clears the verification flag in the same
    /// step, so the flag is never stale relative to the claimant. Rotating to
    /// the current claimant still clears the flag: an explicit rotation is a
    /// trust-resetting event regardless of value equality.
    pub fn update_claim_wallet(&mut self, new_claim_wallet: &Identity)
        ensures
            *final(self) == (Armor {
                claim_wallet: *new_claim_wallet,
                verified: false,
                ..*old(self)
            }),
    {
        self.claim_wallet = *new_claim_wallet;
        self.verified = false;
    }
}

} // verus!
