//! Registry-wide laws, proved once and for all.
//!
//! Each proof function here states a property of the registry model that
//! holds for every input its `requires` admits; the per-operation guarantees
//! themselves live in the `ensures` of the operations.

use vstd::prelude::*;

use crate::bond::{
    bond_type_index, bond_types_unique, bonds_with, bonds_without, has_bond_type,
    lemma_bond_type_index_unique, lemma_bond_type_index_valid, lemma_bonds_with_props,
    lemma_bonds_without_props, BondData,
};
use crate::registry::{Account, Cid, Registry};
use crate::tier::{
    spec_classify, Tier, HIGH_TIER_START, LOW_TIER_START, MEDIUM_TIER_START, TIER_SPACE_END,
};

verus! {

/// Tier classification is total and disjoint: every identifier inside the
/// space falls in exactly one of the three configured ranges and classifies
/// to that range's tier; zero and everything at or beyond the end of the
/// space classify as invalid.
pub proof fn lemma_classification_total_disjoint(id: u64)
    ensures
        LOW_TIER_START <= id < MEDIUM_TIER_START ==> spec_classify(id) == Tier::Low,
        MEDIUM_TIER_START <= id < HIGH_TIER_START ==> spec_classify(id) == Tier::Medium,
        HIGH_TIER_START <= id < TIER_SPACE_END ==> spec_classify(id) == Tier::High,
        LOW_TIER_START <= id < TIER_SPACE_END ==> spec_classify(id) != Tier::Invalid,
        id < LOW_TIER_START || id >= TIER_SPACE_END ==> spec_classify(id) == Tier::Invalid,
{
}

/// Registration uniqueness: in a well-formed registry no identifier is
/// listed under two different accounts, and a listed identifier is owned by
/// exactly the account it is listed under.
pub proof fn lemma_registration_uniqueness(r: Registry, a1: Account, a2: Account, cid: Cid)
    requires
        r.wf(),
        r.spec_cids_of(a1).contains(cid),
        r.spec_cids_of(a2).contains(cid),
    ensures
        a1 == a2,
        r.is_registered(cid),
        r.spec_owner_of(cid) == a1,
{
    let l1 = r.spec_cids_of(a1);
    let l2 = r.spec_cids_of(a2);
    assert(r.account_cids@.contains_key(a1) && r.account_cids@.contains_key(a2));
    let i = choose|i: int| 0 <= i < l1.len() && l1[i] == cid;
    let j = choose|j: int| 0 <= j < l2.len() && l2[j] == cid;
    assert(r.account_list_ok(a1) && r.account_list_ok(a2));
    assert(r.distributed@[l1[i]].owner == a1);
    assert(r.distributed@[l2[j]].owner == a2);
}

/// Bonding is an idempotent replace: bonding twice with the same type leaves
/// exactly one bond of that type in the list, holding the latest record, at
/// the position the type first got, and every other position untouched.
pub proof fn lemma_bond_replaces_in_place(s: Seq<BondData>, r1: BondData, r2: BondData)
    requires
        bond_types_unique(s),
        r1.bond_type == r2.bond_type,
    ensures
        ({
            let s1 = bonds_with(s, r1);
            let s2 = bonds_with(s1, r2);
            let k = bond_type_index(s1, r1.bond_type);
            &&& bond_types_unique(s2)
            &&& s2.len() == s1.len()
            &&& has_bond_type(s2, r2.bond_type)
            &&& forall|i: int|
                0 <= i < s2.len() ==> (s2[i].bond_type == r2.bond_type <==> i == k)
            &&& s2[k] == r2
            &&& has_bond_type(s, r1.bond_type) ==> k == bond_type_index(s, r1.bond_type)
            &&& !has_bond_type(s, r1.bond_type) ==> k == s.len()
            &&& forall|i: int| 0 <= i < s2.len() && i != k ==> s2[i] == s1[i]
        }),
{
    let t = r1.bond_type;
    let s1 = bonds_with(s, r1);
    let s2 = bonds_with(s1, r2);
    lemma_bonds_with_props(s, r1);
    lemma_bonds_with_props(s1, r2);
    let k = bond_type_index(s1, t);
    lemma_bond_type_index_valid(s1, t);
    lemma_bond_type_index_unique(s1, t);
    lemma_bond_type_index_unique(s2, t);
    assert(bond_type_index(s2, t) == k);
    assert forall|i: int| 0 <= i < s2.len() implies (s2[i].bond_type == t <==> i == k) by {
        if s2[i].bond_type == t {
            lemma_bond_type_index_valid(s2, t);
        }
    }
}

/// Unbonding is not idempotent: removing the bond of a type leaves a list in
/// which that type no longer occurs, one record shorter and still unique, so
/// an identical removal has nothing to find.
pub proof fn lemma_unbond_removes_type(s: Seq<BondData>, t: u16)
    requires
        bond_types_unique(s),
        has_bond_type(s, t),
    ensures
        !has_bond_type(bonds_without(s, t), t),
        bonds_without(s, t).len() == s.len() - 1,
        bond_types_unique(bonds_without(s, t)),
{
    lemma_bonds_without_props(s, t);
}

} // verus!
