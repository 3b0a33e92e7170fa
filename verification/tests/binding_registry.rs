use airdrop_armor::registry::create_armor;
use airdrop_armor::registry::destroy_armor;
use airdrop_armor::registry::initialize;
use airdrop_armor::registry::update_claim_wallet;
use airdrop_armor::registry::verify_armor;
use airdrop_armor::registry::Registry;
use airdrop_armor::Armor;
use airdrop_armor::ArmorError;
use airdrop_armor::Identity;
use airdrop_armor::ProgramConfig;

#[test]
fn registration_stores_unverified_record() {
    // Scenario: Register(owner=A, claimant=B) -> record{A, B, verified=false}.
    let a = Identity::new(1);
    let b = Identity::new(2);
    let mut registry = Registry::new();
    assert!(registry.get_armor(&a).is_none());
    assert_eq!(create_armor(&mut registry, a, b, 7), Ok(()));
    assert_eq!(
        registry.get_armor(&a),
        Some(Armor { armored_wallet: a, claim_wallet: b, verified: false, bump: 7 })
    );
}

#[test]
fn verify_gated_on_current_claimant() {
    // Scenario: Verify by B succeeds; Verify by C (!= B) is Unauthorized and
    // leaves the state unchanged.
    let a = Identity::new(1);
    let b = Identity::new(2);
    let c = Identity::new(3);
    let mut registry = Registry::new();
    assert_eq!(create_armor(&mut registry, a, b, 7), Ok(()));
    assert_eq!(verify_armor(&mut registry, b, a), Ok(()));
    assert!(registry.get_armor(&a).unwrap().verified);
    assert_eq!(verify_armor(&mut registry, c, a), Err(ArmorError::Unauthorized));
    assert_eq!(
        registry.get_armor(&a),
        Some(Armor { armored_wallet: a, claim_wallet: b, verified: true, bump: 7 })
    );
}

#[test]
fn rotation_replaces_claimant_and_clears_flag() {
    // Scenario: RotateClaimant(new=C) by A after verification -> claimant=C,
    // verified=false.
    let a = Identity::new(1);
    let b = Identity::new(2);
    let c = Identity::new(3);
    let mut registry = Registry::new();
    assert_eq!(create_armor(&mut registry, a, b, 7), Ok(()));
    assert_eq!(verify_armor(&mut registry, b, a), Ok(()));
    assert_eq!(update_claim_wallet(&mut registry, a, a, c), Ok(()));
    assert_eq!(
        registry.get_armor(&a),
        Some(Armor { armored_wallet: a, claim_wallet: c, verified: false, bump: 7 })
    );
}

#[test]
fn rotation_to_same_claimant_still_clears_flag() {
    let a = Identity::new(1);
    let b = Identity::new(2);
    let mut registry = Registry::new();
    assert_eq!(create_armor(&mut registry, a, b, 7), Ok(()));
    assert_eq!(verify_armor(&mut registry, b, a), Ok(()));
    assert_eq!(update_claim_wallet(&mut registry, a, a, b), Ok(()));
    assert_eq!(
        registry.get_armor(&a),
        Some(Armor { armored_wallet: a, claim_wallet: b, verified: false, bump: 7 })
    );
}

#[test]
fn rotation_gated_on_owner() {
    let a = Identity::new(1);
    let b = Identity::new(2);
    let c = Identity::new(3);
    let mut registry = Registry::new();
    assert_eq!(create_armor(&mut registry, a, b, 7), Ok(()));
    // Not even the claimant may rotate.
    assert_eq!(update_claim_wallet(&mut registry, b, a, c), Err(ArmorError::Unauthorized));
    assert_eq!(
        registry.get_armor(&a),
        Some(Armor { armored_wallet: a, claim_wallet: b, verified: false, bump: 7 })
    );
}

#[test]
fn former_claimant_loses_authority_after_rotation() {
    // Scenario: Verify by B (former claimant) after rotation to C ->
    // Unauthorized.
    let a = Identity::new(1);
    let b = Identity::new(2);
    let c = Identity::new(3);
    let mut registry = Registry::new();
    assert_eq!(create_armor(&mut registry, a, b, 7), Ok(()));
    assert_eq!(update_claim_wallet(&mut registry, a, a, c), Ok(()));
    assert_eq!(verify_armor(&mut registry, b, a), Err(ArmorError::Unauthorized));
    assert_eq!(verify_armor(&mut registry, c, a), Ok(()));
}

#[test]
fn verify_twice_equals_verify_once() {
    let a = Identity::new(1);
    let b = Identity::new(2);
    let mut registry = Registry::new();
    assert_eq!(create_armor(&mut registry, a, b, 7), Ok(()));
    assert_eq!(verify_armor(&mut registry, b, a), Ok(()));
    let after_once = registry.get_armor(&a);
    assert_eq!(verify_armor(&mut registry, b, a), Ok(()));
    assert_eq!(registry.get_armor(&a), after_once);
}

#[test]
fn dissolution_pays_claimant_and_frees_slot() {
    // Scenario: Dissolve by C removes the record and pays the reclaimed
    // resource to C; a later Register for the same owner succeeds again.
    let a = Identity::new(1);
    let b = Identity::new(2);
    let c = Identity::new(3);
    let mut registry = Registry::new();
    assert_eq!(create_armor(&mut registry, a, b, 7), Ok(()));
    assert_eq!(update_claim_wallet(&mut registry, a, a, c), Ok(()));
    assert_eq!(destroy_armor(&mut registry, c, a), Ok(c));
    assert!(registry.get_armor(&a).is_none());
    assert_eq!(create_armor(&mut registry, a, b, 8), Ok(()));
    assert_eq!(
        registry.get_armor(&a),
        Some(Armor { armored_wallet: a, claim_wallet: b, verified: false, bump: 8 })
    );
}

#[test]
fn dissolution_gated_on_claimant() {
    let a = Identity::new(1);
    let b = Identity::new(2);
    let mut registry = Registry::new();
    assert_eq!(create_armor(&mut registry, a, b, 7), Ok(()));
    // Not even the owner may dissolve.
    assert_eq!(destroy_armor(&mut registry, a, a), Err(ArmorError::Unauthorized));
    assert_eq!(destroy_armor(&mut registry, b, a), Ok(b));
}

#[test]
fn dissolution_is_terminal() {
    let a = Identity::new(1);
    let b = Identity::new(2);
    let c = Identity::new(3);
    let mut registry = Registry::new();
    assert_eq!(create_armor(&mut registry, a, b, 7), Ok(()));
    assert_eq!(destroy_armor(&mut registry, b, a), Ok(b));
    assert_eq!(verify_armor(&mut registry, b, a), Err(ArmorError::NotFound));
    assert_eq!(update_claim_wallet(&mut registry, a, a, c), Err(ArmorError::NotFound));
    assert_eq!(destroy_armor(&mut registry, b, a), Err(ArmorError::NotFound));
}

#[test]
fn second_registration_for_same_owner_rejected() {
    // Scenario: Register(owner=A, claimant=B) then Register(owner=A,
    // claimant=D) before any dissolution -> AlreadyExists.
    let a = Identity::new(1);
    let b = Identity::new(2);
    let d = Identity::new(4);
    let mut registry = Registry::new();
    assert_eq!(create_armor(&mut registry, a, b, 7), Ok(()));
    assert_eq!(create_armor(&mut registry, a, d, 7), Err(ArmorError::AlreadyExists));
    assert_eq!(
        registry.get_armor(&a),
        Some(Armor { armored_wallet: a, claim_wallet: b, verified: false, bump: 7 })
    );
}

#[test]
fn records_of_distinct_owners_are_independent() {
    let a = Identity::new(1);
    let b = Identity::new(2);
    let x = Identity::new(5);
    let y = Identity::new(6);
    let mut registry = Registry::new();
    assert_eq!(create_armor(&mut registry, a, b, 7), Ok(()));
    assert_eq!(create_armor(&mut registry, x, y, 9), Ok(()));
    assert_eq!(verify_armor(&mut registry, y, x), Ok(()));
    assert_eq!(
        registry.get_armor(&a),
        Some(Armor { armored_wallet: a, claim_wallet: b, verified: false, bump: 7 })
    );
    assert_eq!(
        registry.get_armor(&x),
        Some(Armor { armored_wallet: x, claim_wallet: y, verified: true, bump: 9 })
    );
    assert_eq!(destroy_armor(&mut registry, b, a), Ok(b));
    assert!(registry.get_armor(&a).is_none());
    assert!(registry.get_armor(&x).is_some());
}

#[test]
fn operations_against_empty_registry_report_not_found() {
    let a = Identity::new(1);
    let b = Identity::new(2);
    let mut registry = Registry::new();
    assert_eq!(verify_armor(&mut registry, b, a), Err(ArmorError::NotFound));
    assert_eq!(update_claim_wallet(&mut registry, a, a, b), Err(ArmorError::NotFound));
    assert_eq!(destroy_armor(&mut registry, b, a), Err(ArmorError::NotFound));
}

#[test]
fn configuration_initializes_once() {
    let mut registry = Registry::new();
    assert_eq!(registry.get_config(), None);
    assert_eq!(initialize(&mut registry, 250), Ok(()));
    assert_eq!(registry.get_config(), Some(ProgramConfig { bump: 250 }));
    assert_eq!(initialize(&mut registry, 123), Err(ArmorError::AlreadyExists));
    assert_eq!(registry.get_config(), Some(ProgramConfig { bump: 250 }));
}

#[test]
fn configuration_independent_of_bindings() {
    let a = Identity::new(1);
    let b = Identity::new(2);
    let mut registry = Registry::new();
    assert_eq!(initialize(&mut registry, 250), Ok(()));
    assert_eq!(create_armor(&mut registry, a, b, 7), Ok(()));
    assert_eq!(destroy_armor(&mut registry, b, a), Ok(b));
    assert_eq!(registry.get_config(), Some(ProgramConfig { bump: 250 }));
}
