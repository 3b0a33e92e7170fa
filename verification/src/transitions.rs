use vstd::prelude::*;

use crate::errors::ArmorError;
use crate::identity::Identity;
use crate::state::armor::Armor;

verus! {

/// The registry seen abstractly: for each owner identity at most one binding
/// record, at the slot derived from that owner. Every operation below is the
/// mathematical counterpart of one registry operation; the executable
/// operations promise in their contracts to behave exactly like these.
///
/// Registration is allowed exactly when the caller's slot is still free.
pub open spec fn register_allowed(m: Map<Identity, Armor>, caller: Identity) -> bool {
    !m.dom().contains(caller)
}

/// The record a successful registration stores: the caller becomes the
/// owner, the supplied identity the initial claimant, and the record starts
/// unverified.
pub open spec fn registered_record(caller: Identity, claim_wallet: Identity, bump: u8) -> Armor {
    Armor { armored_wallet: caller, claim_wallet, verified: false, bump }
}

/// The registry after a successful registration.
pub open spec fn register_apply(
    m: Map<Identity, Armor>,
    caller: Identity,
    claim_wallet: Identity,
    bump: u8,
) -> Map<Identity, Armor> {
    m.insert(caller, registered_record(caller, claim_wallet, bump))
}

/// Verification is allowed exactly when the addressed record exists and the
/// caller is its current claimant.
pub open spec fn verify_allowed(
    m: Map<Identity, Armor>,
    caller: Identity,
    armored_wallet: Identity,
) -> bool {
    m.dom().contains(armored_wallet) && caller == m[armored_wallet].claim_wallet
}

/// The registry after a successful verification: the addressed record's flag
/// is raised, everything else is untouched.
pub open spec fn verify_apply(
    m: Map<Identity, Armor>,
    armored_wallet: Identity,
) -> Map<Identity, Armor> {
    m.insert(armored_wallet, (Armor { verified: true, ..m[armored_wallet] }))
}

/// Claimant rotation is allowed exactly when the addressed record exists and
/// the caller is its owner.
pub open spec fn rotate_allowed(
    m: Map<Identity, Armor>,
    caller: Identity,
    armored_wallet: Identity,
) -> bool {
    m.dom().contains(armored_wallet) && caller == m[armored_wallet].armored_wallet
}

/// The registry after a successful rotation: the addressed record carries the
/// new claimant and a cleared verification flag, in one step.
pub open spec fn rotate_apply(
    m: Map<Identity, Armor>,
    armored_wallet: Identity,
    new_claim_wallet: Identity,
) -> Map<Identity, Armor> {
    m.insert(
        armored_wallet,
        (Armor { claim_wallet: new_claim_wallet, verified: false, ..m[armored_wallet] }),
    )
}

/// Dissolution is allowed exactly when the addressed record exists and the
/// caller is its current claimant.
pub open spec fn dissolve_allowed(
    m: Map<Identity, Armor>,
    caller: Identity,
    armored_wallet: Identity,
) -> bool {
    m.dom().contains(armored_wallet) && caller == m[armored_wallet].claim_wallet
}

/// The registry after a successful dissolution: the addressed slot is free
/// again.
pub open spec fn dissolve_apply(
    m: Map<Identity, Armor>,
    armored_wallet: Identity,
) -> Map<Identity, Armor> {
    m.remove(armored_wallet)
}

/// The error a denied record-addressing operation surfaces: a missing record
/// is reported before any authorization question, a present record makes the
/// denial an authorization failure.
pub open spec fn denial(m: Map<Identity, Armor>, armored_wallet: Identity) -> ArmorError {
    if !m.dom().contains(armored_wallet) {
        ArmorError::NotFound
    } else {
        ArmorError::Unauthorized
    }
}

/// Law: immediately after any successful claimant rotation the record is
/// unverified, whatever the flag was before — also when the new claimant
/// equals the old one.
pub proof fn lemma_rotation_resets_trust(
    m: Map<Identity, Armor>,
    caller: Identity,
    armored_wallet: Identity,
    new_claim_wallet: Identity,
)
    requires
        rotate_allowed(m, caller, armored_wallet),
    ensures
        rotate_apply(m, armored_wallet, new_claim_wallet)[armored_wallet].verified == false,
        rotate_apply(m, armored_wallet, new_claim_wallet)[armored_wallet].claim_wallet
            == new_claim_wallet,
{
}

/// Law: verification by the legitimate claimant is idempotent — a second
/// verification in a row is allowed again and leaves the registry exactly as
/// the first left it.
pub proof fn lemma_verify_idempotent(
    m: Map<Identity, Armor>,
    caller: Identity,
    armored_wallet: Identity,
)
    requires
        verify_allowed(m, caller, armored_wallet),
    ensures
        verify_allowed(verify_apply(m, armored_wallet), caller, armored_wallet),
        verify_apply(verify_apply(m, armored_wallet), armored_wallet) == verify_apply(
            m,
            armored_wallet,
        ),
{
    let m1 = verify_apply(m, armored_wallet);
    assert(m1[armored_wallet] == (Armor { verified: true, ..m[armored_wallet] }));
    assert(verify_apply(m1, armored_wallet) =~= m1);
}

/// Law: dissolution is terminal — after a successful dissolution the record
/// is absent, and any subsequent verification, rotation or dissolution
/// addressing the same owner is denied with `NotFound`, whoever calls it.
pub proof fn lemma_dissolution_terminal(
    m: Map<Identity, Armor>,
    caller: Identity,
    armored_wallet: Identity,
    later_caller: Identity,
)
    requires
        dissolve_allowed(m, caller, armored_wallet),
    ensures
        !dissolve_apply(m, armored_wallet).dom().contains(armored_wallet),
        !verify_allowed(dissolve_apply(m, armored_wallet), later_caller, armored_wallet),
        !rotate_allowed(dissolve_apply(m, armored_wallet), later_caller, armored_wallet),
        !dissolve_allowed(dissolve_apply(m, armored_wallet), later_caller, armored_wallet),
        denial(dissolve_apply(m, armored_wallet), armored_wallet) == ArmorError::NotFound,
{
}

} // verus!
