use vstd::prelude::*;

use crate::errors::ArmorError;
use crate::identity::Identity;
use crate::state::armor::Armor;
use crate::state::program_config::ProgramConfig;
use crate::transitions::denial;
use crate::transitions::dissolve_allowed;
use crate::transitions::dissolve_apply;
use crate::transitions::register_allowed;
use crate::transitions::register_apply;
use crate::transitions::rotate_allowed;
use crate::transitions::rotate_apply;
use crate::transitions::verify_allowed;
use crate::transitions::verify_apply;

verus! {

/// The binding registry together with its bootstrap configuration: the
/// durable keyed storage that the host supplies, modelled as a store of
/// records keyed by owner identity. Each owner's record occupies the one
/// slot derived from that owner, so well-formedness says that no two stored
/// records share an owner.
pub struct Registry {
    records: Vec<Armor>,
    config: Option<ProgramConfig>,
}

/// No two records of the store share an owner identity.
pub open spec fn owners_distinct(s: Seq<Armor>) -> bool {
    forall|i: int, j: int|
        0 <= i < j < s.len() ==> #[trigger] s[i].armored_wallet != #[trigger] s[j].armored_wallet
}

/// The keyed view of a store of records: later records shadow earlier ones,
/// which never happens in a well-formed store.
spec fn map_of(s: Seq<Armor>) -> Map<Identity, Armor>
    decreases s.len(),
{
    if s.len() == 0 {
        Map::empty()
    } else {
        map_of(s.drop_last()).insert(s.last().armored_wallet, s.last())
    }
}

/// A store without its last record still has pairwise-distinct owners.
proof fn lemma_distinct_drop_last(s: Seq<Armor>)
    requires
        owners_distinct(s),
        s.len() > 0,
    ensures
        owners_distinct(s.drop_last()),
{
    assert forall|i: int, j: int| 0 <= i < j < s.drop_last().len() implies #[trigger] s.drop_last()[i].armored_wallet
        != #[trigger] s.drop_last()[j].armored_wallet by {
        assert(s.drop_last()[i] == s[i]);
        assert(s.drop_last()[j] == s[j]);
    }
}

/// The keyed view holds exactly the owners of the stored records.
proof fn lemma_map_of_dom(s: Seq<Armor>)
    ensures
        forall|o: Identity| #[trigger] map_of(s).dom().contains(o)
            <==> (exists|i: int| 0 <= i < s.len() && #[trigger] s[i].armored_wallet == o),
    decreases s.len(),
{
    if s.len() > 0 {
        lemma_map_of_dom(s.drop_last());
        assert forall|o: Identity| #[trigger] map_of(s).dom().contains(o) implies (exists|i: int|
            0 <= i < s.len() && #[trigger] s[i].armored_wallet == o) by {
            if o == s.last().armored_wallet {
                assert(s[s.len() - 1].armored_wallet == o);
            } else {
                assert(map_of(s.drop_last()).dom().contains(o));
                let i = choose|i: int|
                    0 <= i < s.drop_last().len() && #[trigger] s.drop_last()[i].armored_wallet == o;
                assert(s[i].armored_wallet == o);
            }
        }
        assert forall|o: Identity| (exists|i: int|
            0 <= i < s.len() && #[trigger] s[i].armored_wallet == o) implies #[trigger] map_of(
            s,
        ).dom().contains(o) by {
            let i = choose|i: int| 0 <= i < s.len() && #[trigger] s[i].armored_wallet == o;
            if i < s.len() - 1 {
                assert(s.drop_last()[i].armored_wallet == o);
                assert(map_of(s.drop_last()).dom().contains(o));
            }
        }
    }
}

/// In a well-formed store the keyed view returns each record under its own
/// owner.
proof fn lemma_map_of_index(s: Seq<Armor>, i: int)
    requires
        owners_distinct(s),
        0 <= i < s.len(),
    ensures
        map_of(s).dom().contains(s[i].armored_wallet),
        map_of(s)[s[i].armored_wallet] == s[i],
    decreases s.len(),
{
    if i < s.len() - 1 {
        lemma_distinct_drop_last(s);
        lemma_map_of_index(s.drop_last(), i);
        assert(s.drop_last()[i] == s[i]);
        assert(s[i].armored_wallet != s[s.len() - 1].armored_wallet);
    }
}

/// Replacing one record by another with the same owner updates the keyed
/// view at that one key.
proof fn lemma_map_of_update(s: Seq<Armor>, i: int, x: Armor)
    requires
        owners_distinct(s),
        0 <= i < s.len(),
        x.armored_wallet == s[i].armored_wallet,
    ensures
        map_of(s.update(i, x)) == map_of(s).insert(x.armored_wallet, x),
    decreases s.len(),
{
    let t = s.update(i, x);
    if i == s.len() - 1 {
        assert(t.drop_last() =~= s.drop_last());
        assert(map_of(s).insert(x.armored_wallet, x) =~= map_of(s.drop_last()).insert(
            x.armored_wallet,
            x,
        ));
    } else {
        lemma_distinct_drop_last(s);
        assert(s.drop_last()[i] == s[i]);
        lemma_map_of_update(s.drop_last(), i, x);
        assert(t.drop_last() =~= s.drop_last().update(i, x));
        assert(t.last() == s.last());
        assert(x.armored_wallet != s.last().armored_wallet);
        assert(map_of(s.drop_last()).insert(x.armored_wallet, x).insert(
            s.last().armored_wallet,
            s.last(),
        ) =~= map_of(s.drop_last()).insert(s.last().armored_wallet, s.last()).insert(
            x.armored_wallet,
            x,
        ));
    }
}

/// Removing one record removes its owner's entry, and nothing else, from the
/// keyed view.
proof fn lemma_map_of_remove(s: Seq<Armor>, i: int)
    requires
        owners_distinct(s),
        0 <= i < s.len(),
    ensures
        map_of(s.remove(i)) == map_of(s).remove(s[i].armored_wallet),
    decreases s.len(),
{
    let o = s[i].armored_wallet;
    if i == s.len() - 1 {
        assert(s.remove(i) =~= s.drop_last());
        lemma_map_of_dom(s.drop_last());
        assert forall|k: int| 0 <= k < s.drop_last().len() implies #[trigger] s.drop_last()[k].armored_wallet
            != o by {
            assert(s.drop_last()[k] == s[k]);
        }
        assert(!map_of(s.drop_last()).dom().contains(o));
        assert(map_of(s.drop_last()) =~= map_of(s.drop_last()).insert(o, s[i]).remove(o));
    } else {
        lemma_distinct_drop_last(s);
        assert(s.drop_last()[i] == s[i]);
        lemma_map_of_remove(s.drop_last(), i);
        let t = s.remove(i);
        assert(t.len() == s.len() - 1);
        assert(t.last() == s.last());
        assert(t.drop_last() =~= s.drop_last().remove(i));
        assert(o != s.last().armored_wallet);
        assert(map_of(s.drop_last()).remove(o).insert(s.last().armored_wallet, s.last()) =~= map_of(
            s.drop_last(),
        ).insert(s.last().armored_wallet, s.last()).remove(o));
    }
}

/// Appending a record for a not-yet-stored owner keeps owners distinct.
proof fn lemma_distinct_push(s: Seq<Armor>, x: Armor)
    requires
        owners_distinct(s),
        forall|i: int| 0 <= i < s.len() ==> #[trigger] s[i].armored_wallet != x.armored_wallet,
    ensures
        owners_distinct(s.push(x)),
{
    let t = s.push(x);
    assert forall|i: int, j: int| 0 <= i < j < t.len() implies #[trigger] t[i].armored_wallet
        != #[trigger] t[j].armored_wallet by {
        if j < s.len() {
            assert(t[i] == s[i]);
            assert(t[j] == s[j]);
        } else {
            assert(t[i] == s[i]);
            assert(t[j] == x);
        }
    }
}

/// Replacing a record by one with the same owner keeps owners distinct.
proof fn lemma_distinct_update(s: Seq<Armor>, i: int, x: Armor)
    requires
        owners_distinct(s),
        0 <= i < s.len(),
        x.armored_wallet == s[i].armored_wallet,
    ensures
        owners_distinct(s.update(i, x)),
{
    let t = s.update(i, x);
    assert forall|p: int, q: int| 0 <= p < q < t.len() implies #[trigger] t[p].armored_wallet
        != #[trigger] t[q].armored_wallet by {
        assert(s[p].armored_wallet != s[q].armored_wallet);
    }
}

/// Removing a record keeps owners distinct.
proof fn lemma_distinct_remove(s: Seq<Armor>, i: int)
    requires
        owners_distinct(s),
        0 <= i < s.len(),
    ensures
        owners_distinct(s.remove(i)),
{
    let t = s.remove(i);
    assert forall|p: int, q: int| 0 <= p < q < t.len() implies #[trigger] t[p].armored_wallet
        != #[trigger] t[q].armored_wallet by {
        let p0 = if p < i { p } else { p + 1 };
        let q0 = if q < i { q } else { q + 1 };
        assert(t[p] == s[p0]);
        assert(t[q] == s[q0]);
        assert(s[p0].armored_wallet != s[q0].armored_wallet);
    }
}

impl View for Registry {
    type V = Map<Identity, Armor>;

    /// The registry as the abstract keyed store the contracts speak of.
    closed spec fn view(&self) -> Map<Identity, Armor> {
        map_of(self.records@)
    }
}

impl Registry {
    /// The stored records in storage order.
    pub closed spec fn records_view(self) -> Seq<Armor> {
        self.records@
    }

    /// The bootstrap configuration slot: `None` until the one-time
    /// initialization has run.
    pub closed spec fn spec_config(self) -> Option<ProgramConfig> {
        self.config
    }

    /// Well-formedness of the storage: one record per owner.
    pub open spec fn wf(self) -> bool {
        owners_distinct(self.records_view())
    }

    /// An empty registry: no binding records, configuration uninitialized.
    pub fn new() -> (r: Registry)
        ensures
            r.wf(),
            r@ == Map::<Identity, Armor>::empty(),
            r.records_view() == Seq::<Armor>::empty(),
            r.spec_config() is None,
    {
        Registry { records: Vec::new(), config: None }
    }

    /// Locates the record stored for the given owner, if any.
    fn find_index(&self, armored_wallet: &Identity) -> (r: Option<usize>)
        ensures
            match r {
                Some(i) => i < self.records@.len()
                    && self.records@[i as int].armored_wallet == *armored_wallet,
                None => forall|i: int|
                    0 <= i < self.records@.len()
                        ==> #[trigger] self.records@[i].armored_wallet != *armored_wallet,
            },
    {
        let mut i: usize = 0;
        while i < self.records.len()
            invariant
                i <= self.records@.len(),
                forall|j: int|
                    0 <= j < i ==> #[trigger] self.records@[j].armored_wallet != *armored_wallet,
            decreases self.records@.len() - i,
        {
            if self.records[i].armored_wallet == *armored_wallet {
                return Some(i);
            }
            i = i + 1;
        }
        None
    }

    /// Reads back the record stored for the given owner, if any.
    pub fn get_armor(&self, armored_wallet: &Identity) -> (r: Option<Armor>)
        requires
            self.wf(),
        ensures
            match r {
                Some(a) => self@.dom().contains(*armored_wallet) && a == self@[*armored_wallet],
                None => !self@.dom().contains(*armored_wallet),
            },
    {
        proof {
            lemma_map_of_dom(self.records@);
        }
        match self.find_index(armored_wallet) {
            Some(i) => {
                proof {
                    lemma_map_of_index(self.records@, i as int);
                }
                Some(self.records[i])
            },
            None => None,
        }
    }

    /// Reads back the bootstrap configuration, if it has been initialized.
    pub fn get_config(&self) -> (r: Option<ProgramConfig>)
        ensures
            r == self.spec_config(),
    {
        self.config
    }
}

/// One-time bootstrap of the process-wide configuration record, storing the
/// derivation tag of its slot. A second initialization is rejected and
/// changes nothing; the binding records are never touched.
pub fn initialize(registry: &mut Registry, bump: u8) -> (r: Result<(), ArmorError>)
    ensures
        final(registry)@ == old(registry)@,
        final(registry).records_view() == old(registry).records_view(),
        r is Ok <==> old(registry).spec_config() is None,
        r is Ok ==> final(registry).spec_config() == Some(ProgramConfig { bump }),
        r is Err ==> *final(registry) == *old(registry) && r == Err::<(), ArmorError>(
            ArmorError::AlreadyExists,
        ),
{
    match registry.config {
        Some(_) => Err(ArmorError::AlreadyExists),
        None => {
            let mut config = ProgramConfig { bump: 0 };
            config.initialize(bump);
            registry.config = Some(config);
            Ok(())
        },
    }
}

/// Registers a new binding: the caller becomes the owner, the supplied
/// identity the initial claimant, and the record starts unverified. A second
/// registration for the same owner finds the slot occupied and is rejected
/// with `AlreadyExists`, leaving the registry unchanged.
pub fn create_armor(
    registry: &mut Registry,
    caller: Identity,
    claim_wallet: Identity,
    bump: u8,
) -> (r: Result<(), ArmorError>)
    requires
        old(registry).wf(),
    ensures
        final(registry).wf(),
        final(registry).spec_config() == old(registry).spec_config(),
        r is Ok <==> register_allowed(old(registry)@, caller),
        r is Ok ==> final(registry)@ == register_apply(old(registry)@, caller, claim_wallet, bump),
        r is Err ==> *final(registry) == *old(registry) && r == Err::<(), ArmorError>(
            ArmorError::AlreadyExists,
        ),
{
    proof {
        lemma_map_of_dom(registry.records@);
    }
    match registry.find_index(&caller) {
        Some(_) => Err(ArmorError::AlreadyExists),
        None => {
            let mut armor = Armor {
                armored_wallet: caller,
                claim_wallet: caller,
                verified: false,
                bump: 0,
            };
            armor.initialize(&caller, &claim_wallet, bump);
            proof {
                lemma_distinct_push(registry.records@, armor);
            }
            registry.records.push(armor);
            proof {
                assert(registry.records@.drop_last() =~= old(registry).records@);
                assert(registry@ == register_apply(old(registry)@, caller, claim_wallet, bump));
            }
            Ok(())
        },
    }
}

/// Asserts the verification flag of the caller's binding: succeeds exactly
/// when a record exists for the addressed owner and the caller is its
/// current claimant. Verifying an already verified binding is a no-op. A
/// denied call reports `NotFound` or `Unauthorized` and changes nothing.
pub fn verify_armor(
    registry: &mut Registry,
    caller: Identity,
    armored_wallet: Identity,
) -> (r: Result<(), ArmorError>)
    requires
        old(registry).wf(),
    ensures
        final(registry).wf(),
        final(registry).spec_config() == old(registry).spec_config(),
        r is Ok <==> verify_allowed(old(registry)@, caller, armored_wallet),
        r is Ok ==> final(registry)@ == verify_apply(old(registry)@, armored_wallet),
        r is Err ==> *final(registry) == *old(registry) && r == Err::<(), ArmorError>(
            denial(old(registry)@, armored_wallet),
        ),
{
    proof {
        lemma_map_of_dom(registry.records@);
    }
    match registry.find_index(&armored_wallet) {
        None => Err(ArmorError::NotFound),
        Some(i) => {
            proof {
                lemma_map_of_index(registry.records@, i as int);
            }
            if registry.records[i].claim_wallet == caller {
                let ghost s0 = registry.records@;
                let record = &mut registry.records[i];
                record.verify();
                proof {
                    lemma_distinct_update(s0, i as int, registry.records@[i as int]);
                    lemma_map_of_update(s0, i as int, registry.records@[i as int]);
                }
                Ok(())
            } else {
                Err(ArmorError::Unauthorized)
            }
        },
    }
}

/// Rotates the claimant of the caller's binding: succeeds exactly when a
/// record exists for the addressed owner and the caller is that owner. The
/// new claimant is stored and the verification flag cleared in the same
/// step, also when the new claimant equals the old one. A denied call
/// reports `NotFound` or `Unauthorized` and changes nothing.
pub fn update_claim_wallet(
    registry: &mut Registry,
    caller: Identity,
    armored_wallet: Identity,
    new_claim_wallet: Identity,
) -> (r: Result<(), ArmorError>)
    requires
        old(registry).wf(),
    ensures
        final(registry).wf(),
        final(registry).spec_config() == old(registry).spec_config(),
        r is Ok <==> rotate_allowed(old(registry)@, caller, armored_wallet),
        r is Ok ==> final(registry)@ == rotate_apply(
            old(registry)@,
            armored_wallet,
            new_claim_wallet,
        ),
        r is Ok ==> final(registry)@[armored_wallet].verified == false,
        r is Err ==> *final(registry) == *old(registry) && r == Err::<(), ArmorError>(
            denial(old(registry)@, armored_wallet),
        ),
{
    proof {
        lemma_map_of_dom(registry.records@);
    }
    match registry.find_index(&armored_wallet) {
        None => Err(ArmorError::NotFound),
        Some(i) => {
            proof {
                lemma_map_of_index(registry.records@, i as int);
            }
            if registry.records[i].armored_wallet == caller {
                let ghost s0 = registry.records@;
                let record = &mut registry.records[i];
                record.update_claim_wallet(&new_claim_wallet);
                proof {
                    lemma_distinct_update(s0, i as int, registry.records@[i as int]);
                    lemma_map_of_update(s0, i as int, registry.records@[i as int]);
                }
                Ok(())
            } else {
                Err(ArmorError::Unauthorized)
            }
        },
    }
}

/// Dissolves the addressed binding: succeeds exactly when a record exists
/// for the addressed owner and the caller is its current claimant. The
/// record is removed in the same step in which the host must pay the
/// reclaimed storage resource to the returned beneficiary — the caller. A
/// denied call reports `NotFound` or `Unauthorized` and changes nothing.
pub fn destroy_armor(
    registry: &mut Registry,
    caller: Identity,
    armored_wallet: Identity,
) -> (r: Result<Identity, ArmorError>)
    requires
        old(registry).wf(),
    ensures
        final(registry).wf(),
        final(registry).spec_config() == old(registry).spec_config(),
        r is Ok <==> dissolve_allowed(old(registry)@, caller, armored_wallet),
        r is Ok ==> final(registry)@ == dissolve_apply(old(registry)@, armored_wallet)
            && r == Ok::<Identity, ArmorError>(caller),
        r is Err ==> *final(registry) == *old(registry) && r == Err::<Identity, ArmorError>(
            denial(old(registry)@, armored_wallet),
        ),
{
    proof {
        lemma_map_of_dom(registry.records@);
    }
    match registry.find_index(&armored_wallet) {
        None => Err(ArmorError::NotFound),
        Some(i) => {
            proof {
                lemma_map_of_index(registry.records@, i as int);
            }
            if registry.records[i].claim_wallet == caller {
                proof {
                    lemma_distinct_remove(registry.records@, i as int);
                    lemma_map_of_remove(registry.records@, i as int);
                }
                registry.records.remove(i);
                Ok(caller)
            } else {
                Err(ArmorError::Unauthorized)
            }
        },
    }
}

/// Law: at most one binding record exists per owner identity — in a
/// well-formed registry, two stored records carrying the same owner are the
/// same stored record.
pub proof fn lemma_one_record_per_owner(registry: Registry, i: int, j: int)
    requires
        registry.wf(),
        0 <= i < registry.records_view().len(),
        0 <= j < registry.records_view().len(),
        registry.records_view()[i].armored_wallet == registry.records_view()[j].armored_wallet,
    ensures
        i == j,
{
}

/// Law: the keyed view of a well-formed registry indexes each record by its
/// own owner — its keys are exactly the stored owners, and the record found
/// under a key carries that key as its owner.
pub proof fn lemma_view_key_is_owner(registry: Registry)
    requires
        registry.wf(),
    ensures
        forall|o: Identity| #[trigger] registry@.dom().contains(o)
            <==> (exists|i: int|
                0 <= i < registry.records_view().len()
                    && #[trigger] registry.records_view()[i].armored_wallet == o),
        forall|o: Identity| #[trigger] registry@.dom().contains(o)
            ==> registry@[o].armored_wallet == o,
{
    lemma_map_of_dom(registry.records@);
    assert forall|o: Identity| #[trigger] registry@.dom().contains(o) implies registry@[o].armored_wallet
        == o by {
        let i = choose|i: int|
            0 <= i < registry.records@.len() && #[trigger] registry.records@[i].armored_wallet == o;
        lemma_map_of_index(registry.records@, i);
    }
}

} // verus!
