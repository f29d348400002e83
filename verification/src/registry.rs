//! The identifier registry: ownership, reverse index, bond ledger, authority
//! store and the legacy-key migration.
//!
//! The registry maps each identifier to its owner, keeps a reverse index from
//! each account to the identifiers it owns (in insertion order), and holds a
//! capacity-bounded bond list per identifier. Registration is gated by the
//! authority key of the identifier's tier; bonding and unbonding by ownership.
//! Every failing operation leaves the state unchanged.

use vstd::prelude::*;

use crate::bond::{
    bond_type_index, bond_types_unique, bonds_with, bonds_without, find_bond_index, has_bond_type,
    lemma_bond_type_index_unique, lemma_bond_type_index_valid, lemma_bonds_with_props,
    lemma_bonds_without_props, BondData,
};
use crate::tier::{
    classify, required_authority, spec_classify, spec_required_authority, AuthorityLevel, Tier,
};
use std::collections::HashMap;

verus! {

/// An account identity supplied by the host; zero is the absent value of the
/// legacy admin-key slot.
pub type Account = u64;

/// A numeric identifier allocated by the registry.
pub type Cid = u64;

/// Why an operation was rejected. Every rejection leaves the state unchanged.
#[derive(Clone, Copy, PartialEq, Eq, Structural, Debug)]
pub enum Error {
    /// The identifier lies outside all defined tiers.
    InvalidIdentifier,
    /// The caller is not the authority for the identifier's tier.
    InsufficientAuthority,
    /// The identifier already has an owner.
    AlreadyRegistered,
    /// The caller is not the current owner (or the identifier has none).
    NotOwner,
    /// The bond list is at capacity and the bond type is new.
    TooManyBonds,
    /// No bond of the given type exists.
    BondTypeNotFound,
}

/// A notification appended to the registry's ordered event log.
#[derive(Clone, Copy, PartialEq, Eq, Structural, Debug)]
pub enum Event {
    Registered(Account, Cid),
    Bonded(Account, Cid, u16),
    BondUpdated(Account, Cid, u16),
    UnBonded(Account, Cid, u16),
}

/// What the registry stores for one allocated identifier.
#[derive(Debug, PartialEq, Eq)]
pub struct CidDetails {
    pub owner: Account,
    pub bonds: Vec<BondData>,
}

/// The registry state: authority keys, ownership map, reverse index, bond
/// lists and the event log.
pub struct Registry {
    /// Authority for the high tier.
    pub high_key: Account,
    /// Authority for the medium tier.
    pub medium_key: Account,
    /// Authority for the low tier.
    pub low_key: Account,
    /// The deprecated single authority slot; zero after migration.
    pub legacy_admin_key: Account,
    /// Capacity of each identifier's bond list.
    pub cids_limit: usize,
    /// Ownership map: identifier to its details; absence means unregistered.
    pub distributed: HashMap<Cid, CidDetails>,
    /// Reverse index: account to the identifiers it owns, in insertion order.
    pub account_cids: HashMap<Account, Vec<Cid>>,
    /// Ordered log of emitted notifications.
    pub events: Vec<Event>,
}

/// The authority keys and the configured capacity agree between two states.
pub open spec fn same_authorities(a: Registry, b: Registry) -> bool {
    &&& b.high_key == a.high_key
    &&& b.medium_key == a.medium_key
    &&& b.low_key == a.low_key
    &&& b.legacy_admin_key == a.legacy_admin_key
    &&& b.cids_limit == a.cids_limit
}

/// Nothing observable differs between two states.
pub open spec fn same_state(a: Registry, b: Registry) -> bool {
    &&& same_authorities(a, b)
    &&& b.distributed@ == a.distributed@
    &&& b.account_cids@ == a.account_cids@
    &&& b.events@ == a.events@
}

impl Registry {
    /// The identifier has an owner.
    pub open spec fn is_registered(&self, cid: Cid) -> bool {
        self.distributed@.contains_key(cid)
    }

    /// The owner of a registered identifier.
    pub open spec fn spec_owner_of(&self, cid: Cid) -> Account
        recommends
            self.is_registered(cid),
    {
        self.distributed@[cid].owner
    }

    /// The bond list of a registered identifier.
    pub open spec fn spec_bonds_of(&self, cid: Cid) -> Seq<BondData>
        recommends
            self.is_registered(cid),
    {
        self.distributed@[cid].bonds@
    }

    /// The identifiers an account owns, in insertion order; empty when the
    /// account owns none.
    pub open spec fn spec_cids_of(&self, a: Account) -> Seq<Cid> {
        if self.account_cids@.contains_key(a) {
            self.account_cids@[a]@
        } else {
            Seq::<Cid>::empty()
        }
    }

    /// The account holding the given authority key.
    pub open spec fn spec_authority_for(&self, level: AuthorityLevel) -> Account {
        match level {
            AuthorityLevel::High => self.high_key,
            AuthorityLevel::Medium => self.medium_key,
            AuthorityLevel::Low => self.low_key,
        }
    }

    /// The account that may allocate within a tier.
    pub open spec fn spec_tier_authority(&self, t: Tier) -> Account
        recommends
            t != Tier::Invalid,
    {
        match spec_required_authority(t) {
            Some(level) => self.spec_authority_for(level),
            None => 0,
        }
    }

    /// The reverse-index entry of one account is sound: no duplicates, and
    /// every listed identifier is registered to that account.
    pub open spec fn account_list_ok(&self, a: Account) -> bool {
        &&& self.account_cids@[a]@.no_duplicates()
        &&& forall|i: int|
            0 <= i < self.account_cids@[a]@.len() ==> self.distributed@.contains_key(
                #[trigger] self.account_cids@[a]@[i],
            ) && self.distributed@[self.account_cids@[a]@[i]].owner == a
    }

    /// Well-formedness: only valid identifiers are stored, each bond list has
    /// unique types and respects the capacity, and the reverse index and the
    /// ownership map agree exactly.
    pub open spec fn wf(&self) -> bool {
        &&& forall|c: Cid| #[trigger]
            self.distributed@.contains_key(c) ==> spec_classify(c) != Tier::Invalid
        &&& forall|c: Cid| #[trigger]
            self.distributed@.contains_key(c) ==> bond_types_unique(self.distributed@[c].bonds@)
        &&& forall|c: Cid| #[trigger]
            self.distributed@.contains_key(c) ==> self.distributed@[c].bonds@.len()
                <= self.cids_limit
        &&& forall|c: Cid| #[trigger]
            self.distributed@.contains_key(c) ==> self.spec_cids_of(
                self.distributed@[c].owner,
            ).contains(c)
        &&& forall|a: Account| #[trigger]
            self.account_cids@.contains_key(a) ==> self.account_list_ok(a)
    }

    /// A fresh registry: all three authority keys and the legacy slot hold
    /// the genesis admin key; nothing is registered and no event was emitted.
    pub fn new(admin_key: Account, cids_limit: usize) -> (r: Registry)
        ensures
            r.wf(),
            r.high_key == admin_key,
            r.medium_key == admin_key,
            r.low_key == admin_key,
            r.legacy_admin_key == admin_key,
            r.cids_limit == cids_limit,
            r.distributed@ == Map::<Cid, CidDetails>::empty(),
            r.account_cids@ == Map::<Account, Vec<Cid>>::empty(),
            r.events@ == Seq::<Event>::empty(),
    {
        Registry {
            high_key: admin_key,
            medium_key: admin_key,
            low_key: admin_key,
            legacy_admin_key: admin_key,
            cids_limit,
            distributed: HashMap::new(),
            account_cids: HashMap::new(),
            events: Vec::new(),
        }
    }

    /// Look up the account holding an authority key.
    pub fn authority_for(&self, level: AuthorityLevel) -> (a: Account)
        ensures
            a == self.spec_authority_for(level),
    {
        match level {
            AuthorityLevel::High => self.high_key,
            AuthorityLevel::Medium => self.medium_key,
            AuthorityLevel::Low => self.low_key,
        }
    }

    /// Overwrite one authority key. Total and idempotent; access control is
    /// the host's concern.
    pub fn set_authority(&mut self, level: AuthorityLevel, account: Account)
        ensures
            final(self).spec_authority_for(level) == account,
            forall|l2: AuthorityLevel|
                l2 != level ==> final(self).spec_authority_for(l2) == old(
                    self,
                ).spec_authority_for(l2),
            final(self).legacy_admin_key == old(self).legacy_admin_key,
            final(self).cids_limit == old(self).cids_limit,
            final(self).distributed@ == old(self).distributed@,
            final(self).account_cids@ == old(self).account_cids@,
            final(self).events@ == old(self).events@,
            old(self).wf() ==> final(self).wf(),
    {
        match level {
            AuthorityLevel::High => self.high_key = account,
            AuthorityLevel::Medium => self.medium_key = account,
            AuthorityLevel::Low => self.low_key = account,
        }
    }

    /// Overwrite the legacy admin-key slot; models the pre-migration storage
    /// layout written at genesis or by the host's storage tooling.
    pub fn set_legacy_admin_key(&mut self, account: Account)
        ensures
            final(self).legacy_admin_key == account,
            final(self).high_key == old(self).high_key,
            final(self).medium_key == old(self).medium_key,
            final(self).low_key == old(self).low_key,
            final(self).cids_limit == old(self).cids_limit,
            final(self).distributed@ == old(self).distributed@,
            final(self).account_cids@ == old(self).account_cids@,
            final(self).events@ == old(self).events@,
            old(self).wf() ==> final(self).wf(),
    {
        self.legacy_admin_key = account;
    }

    /// One-shot migration from the legacy single-admin layout: writes the
    /// three tier keys from the arguments and zeroes the legacy slot. An
    /// unconditional overwrite; re-running it re-applies the same keys.
    pub fn migrate_admin_key(&mut self, high: Account, medium: Account, low: Account)
        ensures
            final(self).high_key == high,
            final(self).medium_key == medium,
            final(self).low_key == low,
            final(self).legacy_admin_key == 0,
            final(self).cids_limit == old(self).cids_limit,
            final(self).distributed@ == old(self).distributed@,
            final(self).account_cids@ == old(self).account_cids@,
            final(self).events@ == old(self).events@,
            old(self).wf() ==> final(self).wf(),
    {
        self.high_key = high;
        self.medium_key = medium;
        self.low_key = low;
        self.legacy_admin_key = 0;
    }

    /// The current owner of an identifier, if it is registered.
    pub fn owner_of(&self, cid: Cid) -> (r: Option<Account>)
        ensures
            r == if self.is_registered(cid) {
                Some(self.spec_owner_of(cid))
            } else {
                None::<Account>
            },
    {
        match self.distributed.get(&cid) {
            Some(details) => Some(details.owner),
            None => None,
        }
    }

    /// The owner and bond list of an identifier, if it is registered.
    pub fn bonds_of(&self, cid: Cid) -> (r: Option<(Account, &Vec<BondData>)>)
        ensures
            match r {
                Some(p) => self.is_registered(cid) && p.0 == self.spec_owner_of(cid) && p.1@
                    == self.spec_bonds_of(cid),
                None => !self.is_registered(cid),
            },
    {
        match self.distributed.get(&cid) {
            Some(details) => Some((details.owner, &details.bonds)),
            None => None,
        }
    }

    /// The identifiers an account owns, in insertion order.
    pub fn identifiers_of(&self, account: Account) -> (r: Vec<Cid>)
        ensures
            r@ == self.spec_cids_of(account),
    {
        match self.account_cids.get(&account) {
            Some(list) => {
                let mut out: Vec<Cid> = Vec::new();
                let mut i: usize = 0;
                while i < list.len()
                    invariant
                        i <= list@.len(),
                        out@ == list@.subrange(0, i as int),
                    decreases list@.len() - i,
                {
                    out.push(list[i]);
                    proof {
                        assert(out@ =~= list@.subrange(0, i + 1 as int));
                    }
                    i += 1;
                }
                proof {
                    assert(out@ =~= list@);
                }
                out
            },
            None => Vec::new(),
        }
    }

    /// Allocate an identifier to an account. Fail-fast checks, first failure
    /// wins: the identifier must lie in a tier, the caller must hold that
    /// tier's authority key, and the identifier must be unregistered. On
    /// success the identifier is appended to the recipient's reverse-index
    /// entry and `Registered` is emitted.
    pub fn register(&mut self, caller: Account, cid: Cid, owner: Account) -> (r: Result<(), Error>)
        requires
            old(self).wf(),
        ensures
            final(self).wf(),
            same_authorities(*old(self), *final(self)),
            ({
                let t = spec_classify(cid);
                if t == Tier::Invalid {
                    r == Err::<(), Error>(Error::InvalidIdentifier) && same_state(
                        *old(self),
                        *final(self),
                    )
                } else if caller != old(self).spec_tier_authority(t) {
                    r == Err::<(), Error>(Error::InsufficientAuthority) && same_state(
                        *old(self),
                        *final(self),
                    )
                } else if old(self).is_registered(cid) {
                    r == Err::<(), Error>(Error::AlreadyRegistered) && same_state(
                        *old(self),
                        *final(self),
                    )
                } else {
                    &&& r == Ok::<(), Error>(())
                    &&& final(self).is_registered(cid)
                    &&& final(self).spec_owner_of(cid) == owner
                    &&& final(self).spec_bonds_of(cid) == Seq::<BondData>::empty()
                    &&& forall|c2: Cid|
                        c2 != cid ==> final(self).is_registered(c2) == old(self).is_registered(c2)
                    &&& forall|c2: Cid|
                        c2 != cid && old(self).is_registered(c2) ==> final(self).distributed@[c2]
                            == old(self).distributed@[c2]
                    &&& final(self).spec_cids_of(owner) == old(self).spec_cids_of(owner).push(cid)
                    &&& forall|a2: Account|
                        a2 != owner ==> final(self).spec_cids_of(a2) == old(self).spec_cids_of(a2)
                    &&& final(self).events@ == old(self).events@.push(
                        Event::Registered(owner, cid),
                    )
                }
            }),
    {
        let tier = classify(cid);
        if tier == Tier::Invalid {
            return Err(Error::InvalidIdentifier);
        }
        let authority = match required_authority(tier) {
            Some(level) => self.authority_for(level),
            None => {
                return Err(Error::InvalidIdentifier);
            },
        };
        if caller != authority {
            return Err(Error::InsufficientAuthority);
        }
        if self.distributed.contains_key(&cid) {
            return Err(Error::AlreadyRegistered);
        }
        self.distributed.insert(cid, CidDetails { owner, bonds: Vec::new() });
        let mut list = match self.account_cids.remove(&owner) {
            Some(l) => l,
            None => Vec::new(),
        };
        proof {
            assert(list@ == old(self).spec_cids_of(owner));
        }
        list.push(cid);
        self.account_cids.insert(owner, list);
        self.events.push(Event::Registered(owner, cid));
        proof {
            assert(self.account_cids@ =~= old(self).account_cids@.insert(
                owner,
                self.account_cids@[owner],
            ));
            lemma_wf_after_register(*old(self), *self, cid, owner);
        }
        Ok(())
    }

    /// Attach or update a bond on an owned identifier. The identifier must
    /// lie in a tier and the caller must be its current owner. A record whose
    /// type is already present replaces the old one in place and emits
    /// `BondUpdated`; a record of a new type needs room in the bond list and
    /// is appended, emitting `Bonded`.
    pub fn bond(&mut self, caller: Account, cid: Cid, record: BondData) -> (r: Result<(), Error>)
        requires
            old(self).wf(),
        ensures
            final(self).wf(),
            same_authorities(*old(self), *final(self)),
            final(self).account_cids@ == old(self).account_cids@,
            ({
                let t = spec_classify(cid);
                let owner_ok = old(self).is_registered(cid) && old(self).spec_owner_of(cid)
                    == caller;
                let old_bonds = old(self).spec_bonds_of(cid);
                let replacing = has_bond_type(old_bonds, record.bond_type);
                if t == Tier::Invalid {
                    r == Err::<(), Error>(Error::InvalidIdentifier) && same_state(
                        *old(self),
                        *final(self),
                    )
                } else if !owner_ok {
                    r == Err::<(), Error>(Error::NotOwner) && same_state(*old(self), *final(self))
                } else if !replacing && old_bonds.len() >= old(self).cids_limit {
                    r == Err::<(), Error>(Error::TooManyBonds) && same_state(
                        *old(self),
                        *final(self),
                    )
                } else {
                    &&& r == Ok::<(), Error>(())
                    &&& final(self).is_registered(cid)
                    &&& final(self).spec_owner_of(cid) == caller
                    &&& final(self).spec_bonds_of(cid) == bonds_with(old_bonds, record)
                    &&& forall|c2: Cid|
                        c2 != cid ==> final(self).is_registered(c2) == old(self).is_registered(c2)
                    &&& forall|c2: Cid|
                        c2 != cid && old(self).is_registered(c2) ==> final(self).distributed@[c2]
                            == old(self).distributed@[c2]
                    &&& final(self).events@ == old(self).events@.push(
                        if replacing {
                            Event::BondUpdated(caller, cid, record.bond_type)
                        } else {
                            Event::Bonded(caller, cid, record.bond_type)
                        },
                    )
                }
            }),
    {
        let tier = classify(cid);
        if tier == Tier::Invalid {
            return Err(Error::InvalidIdentifier);
        }
        let bond_type = record.bond_type;
        let mut details = match self.distributed.remove(&cid) {
            Some(d) => d,
            None => {
                proof {
                    assert(self.distributed@ =~= old(self).distributed@);
                }
                return Err(Error::NotOwner);
            },
        };
        if details.owner != caller {
            self.distributed.insert(cid, details);
            proof {
                assert(self.distributed@ =~= old(self).distributed@);
            }
            return Err(Error::NotOwner);
        }
        let ghost old_bonds = old(self).distributed@[cid].bonds@;
        proof {
            lemma_bonds_with_props(old_bonds, record);
        }
        match find_bond_index(&details.bonds, bond_type) {
            Some(i) => {
                proof {
                    lemma_bond_type_index_unique(old_bonds, bond_type);
                }
                details.bonds.set(i, record);
                self.distributed.insert(cid, details);
                self.events.push(Event::BondUpdated(caller, cid, bond_type));
                proof {
                    assert(self.distributed@ =~= old(self).distributed@.insert(
                        cid,
                        self.distributed@[cid],
                    ));
                    assert(self.spec_bonds_of(cid) == bonds_with(old_bonds, record));
                    lemma_wf_after_bonds_change(*old(self), *self, cid);
                }
                Ok(())
            },
            None => {
                if details.bonds.len() >= self.cids_limit {
                    self.distributed.insert(cid, details);
                    proof {
                        assert(self.distributed@ =~= old(self).distributed@);
                    }
                    return Err(Error::TooManyBonds);
                }
                details.bonds.push(record);
                self.distributed.insert(cid, details);
                self.events.push(Event::Bonded(caller, cid, bond_type));
                proof {
                    assert(self.distributed@ =~= old(self).distributed@.insert(
                        cid,
                        self.distributed@[cid],
                    ));
                    assert(self.spec_bonds_of(cid) == bonds_with(old_bonds, record));
                    lemma_wf_after_bonds_change(*old(self), *self, cid);
                }
                Ok(())
            },
        }
    }

    /// Remove the bond of one type from an owned identifier. The identifier
    /// must lie in a tier, the caller must be its current owner, and a bond
    /// of that type must exist; the list contracts around the gap and
    /// `UnBonded` is emitted.
    pub fn unbond(&mut self, caller: Account, cid: Cid, bond_type: u16) -> (r: Result<(), Error>)
        requires
            old(self).wf(),
        ensures
            final(self).wf(),
            same_authorities(*old(self), *final(self)),
            final(self).account_cids@ == old(self).account_cids@,
            ({
                let t = spec_classify(cid);
                let owner_ok = old(self).is_registered(cid) && old(self).spec_owner_of(cid)
                    == caller;
                let old_bonds = old(self).spec_bonds_of(cid);
                if t == Tier::Invalid {
                    r == Err::<(), Error>(Error::InvalidIdentifier) && same_state(
                        *old(self),
                        *final(self),
                    )
                } else if !owner_ok {
                    r == Err::<(), Error>(Error::NotOwner) && same_state(*old(self), *final(self))
                } else if !has_bond_type(old_bonds, bond_type) {
                    r == Err::<(), Error>(Error::BondTypeNotFound) && same_state(
                        *old(self),
                        *final(self),
                    )
                } else {
                    &&& r == Ok::<(), Error>(())
                    &&& final(self).is_registered(cid)
                    &&& final(self).spec_owner_of(cid) == caller
                    &&& final(self).spec_bonds_of(cid) == bonds_without(old_bonds, bond_type)
                    &&& forall|c2: Cid|
                        c2 != cid ==> final(self).is_registered(c2) == old(self).is_registered(c2)
                    &&& forall|c2: Cid|
                        c2 != cid && old(self).is_registered(c2) ==> final(self).distributed@[c2]
                            == old(self).distributed@[c2]
                    &&& final(self).events@ == old(self).events@.push(
                        Event::UnBonded(caller, cid, bond_type),
                    )
                }
            }),
    {
        let tier = classify(cid);
        if tier == Tier::Invalid {
            return Err(Error::InvalidIdentifier);
        }
        let mut details = match self.distributed.remove(&cid) {
            Some(d) => d,
            None => {
                proof {
                    assert(self.distributed@ =~= old(self).distributed@);
                }
                return Err(Error::NotOwner);
            },
        };
        if details.owner != caller {
            self.distributed.insert(cid, details);
            proof {
                assert(self.distributed@ =~= old(self).distributed@);
            }
            return Err(Error::NotOwner);
        }
        let ghost old_bonds = old(self).distributed@[cid].bonds@;
        match find_bond_index(&details.bonds, bond_type) {
            None => {
                self.distributed.insert(cid, details);
                proof {
                    assert(self.distributed@ =~= old(self).distributed@);
                }
                Err(Error::BondTypeNotFound)
            },
            Some(i) => {
                proof {
                    lemma_bond_type_index_valid(old_bonds, bond_type);
                    lemma_bond_type_index_unique(old_bonds, bond_type);
                    lemma_bonds_without_props(old_bonds, bond_type);
                }
                details.bonds.remove(i);
                self.distributed.insert(cid, details);
                self.events.push(Event::UnBonded(caller, cid, bond_type));
                proof {
                    assert(self.distributed@ =~= old(self).distributed@.insert(
                        cid,
                        self.distributed@[cid],
                    ));
                    assert(self.spec_bonds_of(cid) == bonds_without(old_bonds, bond_type));
                    lemma_wf_after_bonds_change(*old(self), *self, cid);
                }
                Ok(())
            },
        }
    }
}

/// Well-formedness carries over when registration adds a fresh, valid
/// identifier and appends it to the recipient's reverse-index entry.
proof fn lemma_wf_after_register(pre: Registry, post: Registry, cid: Cid, owner: Account)
    requires
        pre.wf(),
        spec_classify(cid) != Tier::Invalid,
        !pre.distributed@.contains_key(cid),
        post.cids_limit == pre.cids_limit,
        post.distributed@.contains_key(cid),
        post.distributed@[cid].owner == owner,
        post.distributed@[cid].bonds@ == Seq::<BondData>::empty(),
        post.distributed@ == pre.distributed@.insert(cid, post.distributed@[cid]),
        post.account_cids@.contains_key(owner),
        post.account_cids@[owner]@ == pre.spec_cids_of(owner).push(cid),
        post.account_cids@ == pre.account_cids@.insert(owner, post.account_cids@[owner]),
    ensures
        post.wf(),
{
    let l2 = post.account_cids@[owner]@;
    let l1 = pre.spec_cids_of(owner);
    assert forall|i: int| 0 <= i < l1.len() implies l1[i] != cid by {
        if pre.account_cids@.contains_key(owner) {
            assert(pre.account_list_ok(owner));
            assert(pre.distributed@.contains_key(l1[i]));
        }
    }
    assert forall|c: Cid| #[trigger]
        post.distributed@.contains_key(c) implies spec_classify(c) != Tier::Invalid by {
        if c != cid {
            assert(pre.distributed@.contains_key(c));
        }
    }
    assert forall|c: Cid| #[trigger] post.distributed@.contains_key(c) implies bond_types_unique(
        post.distributed@[c].bonds@,
    ) && post.distributed@[c].bonds@.len() <= post.cids_limit by {
        if c != cid {
            assert(pre.distributed@.contains_key(c));
            assert(post.distributed@[c] == pre.distributed@[c]);
        }
    }
    assert forall|c: Cid| #[trigger] post.distributed@.contains_key(c) implies post.spec_cids_of(
        post.distributed@[c].owner,
    ).contains(c) by {
        if c == cid {
            assert(l2[l2.len() - 1] == cid);
            assert(post.spec_cids_of(owner) == l2);
        } else {
            assert(pre.distributed@.contains_key(c));
            assert(post.distributed@[c] == pre.distributed@[c]);
            let o = pre.distributed@[c].owner;
            assert(pre.spec_cids_of(o).contains(c));
            let j = choose|j: int| 0 <= j < pre.spec_cids_of(o).len() && pre.spec_cids_of(o)[j] == c;
            if o == owner {
                assert(l2[j] == c);
                assert(post.spec_cids_of(owner).contains(c));
            } else {
                assert(post.spec_cids_of(o) == pre.spec_cids_of(o));
            }
        }
    }
    assert forall|a: Account| #[trigger]
        post.account_cids@.contains_key(a) implies post.account_list_ok(a) by {
        if a == owner {
            assert(l2.no_duplicates()) by {
                assert forall|i: int, j: int|
                    0 <= i < l2.len() && 0 <= j < l2.len() && i != j implies l2[i] != l2[j] by {
                    if i < l1.len() && j < l1.len() {
                        if pre.account_cids@.contains_key(owner) {
                            assert(pre.account_list_ok(owner));
                            assert(l1.no_duplicates());
                        }
                    } else if i < l1.len() {
                        assert(l2[j] == cid && l1[i] != cid);
                    } else {
                        assert(l2[i] == cid && l1[j] != cid);
                    }
                }
            }
            assert forall|i: int| 0 <= i < l2.len() implies post.distributed@.contains_key(
                #[trigger] l2[i],
            ) && post.distributed@[l2[i]].owner == a by {
                if i < l1.len() {
                    assert(pre.account_list_ok(owner));
                    assert(pre.distributed@.contains_key(l1[i]));
                    assert(l1[i] != cid);
                    assert(post.distributed@[l1[i]] == pre.distributed@[l1[i]]);
                } else {
                    assert(l2[i] == cid);
                }
            }
        } else {
            assert(pre.account_cids@.contains_key(a));
            assert(pre.account_list_ok(a));
            assert(post.account_cids@[a] == pre.account_cids@[a]);
            let l = post.account_cids@[a]@;
            assert forall|i: int| 0 <= i < l.len() implies post.distributed@.contains_key(
                #[trigger] l[i],
            ) && post.distributed@[l[i]].owner == a by {
                assert(pre.distributed@.contains_key(l[i]));
                assert(l[i] != cid);
                assert(post.distributed@[l[i]] == pre.distributed@[l[i]]);
            }
        }
    }
}

/// Well-formedness carries over when only the bond list of one registered
/// identifier changes, keeping its owner, unique types and the capacity.
proof fn lemma_wf_after_bonds_change(pre: Registry, post: Registry, cid: Cid)
    requires
        pre.wf(),
        pre.distributed@.contains_key(cid),
        post.cids_limit == pre.cids_limit,
        post.distributed@.contains_key(cid),
        post.distributed@[cid].owner == pre.distributed@[cid].owner,
        bond_types_unique(post.distributed@[cid].bonds@),
        post.distributed@[cid].bonds@.len() <= post.cids_limit,
        post.distributed@ == pre.distributed@.insert(cid, post.distributed@[cid]),
        post.account_cids@ == pre.account_cids@,
    ensures
        post.wf(),
{
    assert forall|c: Cid| #[trigger]
        post.distributed@.contains_key(c) implies spec_classify(c) != Tier::Invalid by {
        assert(pre.distributed@.contains_key(c));
    }
    assert forall|c: Cid| #[trigger] post.distributed@.contains_key(c) implies bond_types_unique(
        post.distributed@[c].bonds@,
    ) && post.distributed@[c].bonds@.len() <= post.cids_limit by {
        if c != cid {
            assert(pre.distributed@.contains_key(c));
            assert(post.distributed@[c] == pre.distributed@[c]);
        }
    }
    assert forall|c: Cid| #[trigger] post.distributed@.contains_key(c) implies post.spec_cids_of(
        post.distributed@[c].owner,
    ).contains(c) by {
        assert(pre.distributed@.contains_key(c));
        if c != cid {
            assert(post.distributed@[c] == pre.distributed@[c]);
        }
        let o = pre.distributed@[c].owner;
        assert(post.distributed@[c].owner == o);
        assert(pre.spec_cids_of(o).contains(c));
        assert(post.spec_cids_of(o) == pre.spec_cids_of(o));
    }
    assert forall|a: Account| #[trigger]
        post.account_cids@.contains_key(a) implies post.account_list_ok(a) by {
        assert(pre.account_cids@.contains_key(a));
        assert(pre.account_list_ok(a));
        let l = post.account_cids@[a]@;
        assert(l == pre.account_cids@[a]@);
        assert forall|i: int| 0 <= i < l.len() implies post.distributed@.contains_key(
            #[trigger] l[i],
        ) && post.distributed@[l[i]].owner == a by {
            assert(pre.distributed@.contains_key(l[i]));
            if l[i] != cid {
                assert(post.distributed@[l[i]] == pre.distributed@[l[i]]);
            }
        }
    }
}

} // verus!
