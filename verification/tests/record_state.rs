use airdrop_armor::Armor;
use airdrop_armor::Identity;
use airdrop_armor::ProgramConfig;

#[test]
fn account_space_matches_layout() {
    // 8-byte discriminator + two 32-byte keys + flag + tag.
    assert_eq!(Armor::calculate_account_space(), 74);
}

#[test]
fn initialize_sets_every_field() {
    let owner = Identity::new(11);
    let claimant = Identity::new(22);
    let mut armor = Armor {
        armored_wallet: Identity::new(0),
        claim_wallet: Identity::new(0),
        verified: true,
        bump: 0,
    };
    armor.initialize(&owner, &claimant, 254);
    assert_eq!(armor.armored_wallet, owner);
    assert_eq!(armor.claim_wallet, claimant);
    assert!(!armor.verified);
    assert_eq!(armor.bump, 254);
}

#[test]
fn verify_raises_flag_and_nothing_else() {
    let owner = Identity::new(11);
    let claimant = Identity::new(22);
    let mut armor = Armor {
        armored_wallet: owner,
        claim_wallet: claimant,
        verified: false,
        bump: 7,
    };
    armor.verify();
    assert_eq!(
        armor,
        Armor { armored_wallet: owner, claim_wallet: claimant, verified: true, bump: 7 }
    );
    armor.verify();
    assert_eq!(
        armor,
        Armor { armored_wallet: owner, claim_wallet: claimant, verified: true, bump: 7 }
    );
}

#[test]
fn update_claim_wallet_resets_flag() {
    let owner = Identity::new(11);
    let claimant = Identity::new(22);
    let successor = Identity::new(33);
    let mut armor = Armor {
        armored_wallet: owner,
        claim_wallet: claimant,
        verified: true,
        bump: 7,
    };
    armor.update_claim_wallet(&successor);
    assert_eq!(
        armor,
        Armor { armored_wallet: owner, claim_wallet: successor, verified: false, bump: 7 }
    );
}

#[test]
fn update_claim_wallet_to_same_claimant_still_resets_flag() {
    let owner = Identity::new(11);
    let claimant = Identity::new(22);
    let mut armor = Armor {
        armored_wallet: owner,
        claim_wallet: claimant,
        verified: true,
        bump: 7,
    };
    armor.update_claim_wallet(&claimant);
    assert_eq!(armor.claim_wallet, claimant);
    assert!(!armor.verified);
}

#[test]
fn program_config_initialize_stores_tag() {
    let mut config = ProgramConfig { bump: 0 };
    config.initialize(251);
    assert_eq!(config, ProgramConfig { bump: 251 });
}
