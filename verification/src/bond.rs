//! Bond records and the semantics of a per-identifier bond list.
//!
//! A bond list is an ordered sequence of typed records with unique
//! `bond_type`s. Bonding inserts a new record at the end or replaces the
//! record of the same type in place; unbonding removes the record of a type
//! and closes the gap, keeping the relative order of the rest.

use vstd::prelude::*;

verus! {

/// A typed metadata record attached to an owned identifier.
#[derive(Clone, Debug, PartialEq, Eq)]
pub struct BondData {
    pub bond_type: u16,
    pub data: Vec<u8>,
}

/// Whether some record in `s` has type `t`.
pub open spec fn has_bond_type(s: Seq<BondData>, t: u16) -> bool {
    exists|i: int| 0 <= i < s.len() && s[i].bond_type == t
}

/// The position of the record of type `t`; meaningful when one exists
/// (and unique when the list has unique types).
pub open spec fn bond_type_index(s: Seq<BondData>, t: u16) -> int {
    choose|i: int| 0 <= i < s.len() && s[i].bond_type == t
}

/// Each type occurs at most once in the list.
pub open spec fn bond_types_unique(s: Seq<BondData>) -> bool {
    forall|i: int, j: int| 0 <= i < j < s.len() ==> s[i].bond_type != s[j].bond_type
}

/// The list after insert-or-replace of `record`: replaced in place when its
/// type is already present, appended otherwise.
pub open spec fn bonds_with(s: Seq<BondData>, record: BondData) -> Seq<BondData> {
    if has_bond_type(s, record.bond_type) {
        s.update(bond_type_index(s, record.bond_type), record)
    } else {
        s.push(record)
    }
}

/// The list after removal of the record of type `t`; meaningful when one
/// exists.
pub open spec fn bonds_without(s: Seq<BondData>, t: u16) -> Seq<BondData> {
    s.remove(bond_type_index(s, t))
}

/// When a record of type `t` exists, `bond_type_index` names a real position
/// holding that type.
pub proof fn lemma_bond_type_index_valid(s: Seq<BondData>, t: u16)
    requires
        has_bond_type(s, t),
    ensures
        0 <= bond_type_index(s, t) < s.len(),
        s[bond_type_index(s, t)].bond_type == t,
{
    let i = choose|i: int| 0 <= i < s.len() && s[i].bond_type == t;
    assert(0 <= i < s.len() && s[i].bond_type == t);
}

/// With unique types, `bond_type_index` is the only position of type `t`.
pub proof fn lemma_bond_type_index_unique(s: Seq<BondData>, t: u16)
    requires
        bond_types_unique(s),
        has_bond_type(s, t),
    ensures
        forall|i: int| 0 <= i < s.len() && s[i].bond_type == t ==> i == bond_type_index(s, t),
{
    lemma_bond_type_index_valid(s, t);
    let k = bond_type_index(s, t);
    assert forall|i: int| 0 <= i < s.len() && s[i].bond_type == t implies i == k by {
        if i < k {
            assert(s[i].bond_type != s[k].bond_type);
        } else if k < i {
            assert(s[k].bond_type != s[i].bond_type);
        }
    }
}

/// What insert-or-replace does to a list with unique types: uniqueness and
/// the position of every other type are preserved, the new record's type is
/// present afterwards, and the length grows only on a fresh type.
pub proof fn lemma_bonds_with_props(s: Seq<BondData>, record: BondData)
    requires
        bond_types_unique(s),
    ensures
        bond_types_unique(bonds_with(s, record)),
        has_bond_type(bonds_with(s, record), record.bond_type),
        bonds_with(s, record).len() == if has_bond_type(s, record.bond_type) {
            s.len() as int
        } else {
            s.len() + 1 as int
        },
        forall|t2: u16|
            t2 != record.bond_type ==> (has_bond_type(bonds_with(s, record), t2) <==> has_bond_type(
                s,
                t2,
            )),
        has_bond_type(s, record.bond_type) ==> bonds_with(s, record) == s.update(
            bond_type_index(s, record.bond_type),
            record,
        ),
        !has_bond_type(s, record.bond_type) ==> bonds_with(s, record) == s.push(record),
        bond_type_index(bonds_with(s, record), record.bond_type) == if has_bond_type(
            s,
            record.bond_type,
        ) {
            bond_type_index(s, record.bond_type)
        } else {
            s.len() as int
        },
        bonds_with(s, record)[bond_type_index(bonds_with(s, record), record.bond_type)] == record,
        forall|i: int|
            0 <= i < bonds_with(s, record).len() && i != bond_type_index(
                bonds_with(s, record),
                record.bond_type,
            ) ==> bonds_with(s, record)[i] == s[i],
{
    let t = record.bond_type;
    let s2 = bonds_with(s, record);
    if has_bond_type(s, t) {
        lemma_bond_type_index_valid(s, t);
        lemma_bond_type_index_unique(s, t);
        let k = bond_type_index(s, t);
        assert(s2 == s.update(k, record));
        assert(s2.len() == s.len());
        assert(s2[k] == record);
        assert(bond_types_unique(s2)) by {
            assert forall|i: int, j: int| 0 <= i < j < s2.len() implies s2[i].bond_type
                != s2[j].bond_type by {
                if i != k && j != k {
                    assert(s2[i] == s[i] && s2[j] == s[j]);
                } else if i == k {
                    assert(s2[j] == s[j]);
                    assert(s[j].bond_type != t);
                } else {
                    assert(s2[i] == s[i]);
                    assert(s[i].bond_type != t);
                }
            }
        }
        assert(has_bond_type(s2, t)) by {
            assert(0 <= k < s2.len() && s2[k].bond_type == t);
        }
        lemma_bond_type_index_unique(s2, t);
        assert(bond_type_index(s2, t) == k) by {
            lemma_bond_type_index_valid(s2, t);
        }
        assert forall|t2: u16| t2 != t implies (has_bond_type(s2, t2) <==> has_bond_type(
            s,
            t2,
        )) by {
            if has_bond_type(s2, t2) {
                let i = choose|i: int| 0 <= i < s2.len() && s2[i].bond_type == t2;
                assert(i != k);
                assert(s[i].bond_type == t2);
            }
            if has_bond_type(s, t2) {
                let i = choose|i: int| 0 <= i < s.len() && s[i].bond_type == t2;
                assert(i != k);
                assert(s2[i].bond_type == t2);
            }
        }
    } else {
        assert(s2 == s.push(record));
        assert(s2[s.len() as int] == record);
        assert(has_bond_type(s2, t)) by {
            assert(0 <= s.len() && s2[s.len() as int].bond_type == t);
        }
        assert(bond_types_unique(s2)) by {
            assert forall|i: int, j: int| 0 <= i < j < s2.len() implies s2[i].bond_type
                != s2[j].bond_type by {
                if j < s.len() {
                    assert(s2[i] == s[i] && s2[j] == s[j]);
                } else {
                    assert(s2[i] == s[i]);
                    assert(!(0 <= i < s.len() && s[i].bond_type == t));
                }
            }
        }
        lemma_bond_type_index_unique(s2, t);
        assert(bond_type_index(s2, t) == s.len()) by {
            lemma_bond_type_index_valid(s2, t);
            if bond_type_index(s2, t) < s.len() {
                assert(s[bond_type_index(s2, t)].bond_type == t);
            }
        }
        assert forall|t2: u16| t2 != t implies (has_bond_type(s2, t2) <==> has_bond_type(
            s,
            t2,
        )) by {
            if has_bond_type(s2, t2) {
                let i = choose|i: int| 0 <= i < s2.len() && s2[i].bond_type == t2;
                assert(i != s.len());
                assert(s[i].bond_type == t2);
            }
            if has_bond_type(s, t2) {
                let i = choose|i: int| 0 <= i < s.len() && s[i].bond_type == t2;
                assert(s2[i].bond_type == t2);
            }
        }
    }
}

/// What removal does to a list with unique types: the removed type is gone,
/// every other type stays, uniqueness is preserved, and the rest keep their
/// relative order around the closed gap.
pub proof fn lemma_bonds_without_props(s: Seq<BondData>, t: u16)
    requires
        bond_types_unique(s),
        has_bond_type(s, t),
    ensures
        bonds_without(s, t).len() == s.len() - 1,
        !has_bond_type(bonds_without(s, t), t),
        bond_types_unique(bonds_without(s, t)),
        forall|t2: u16|
            t2 != t ==> (has_bond_type(bonds_without(s, t), t2) <==> has_bond_type(s, t2)),
        forall|i: int|
            0 <= i < bond_type_index(s, t) ==> bonds_without(s, t)[i] == s[i],
        forall|i: int|
            bond_type_index(s, t) <= i < bonds_without(s, t).len() ==> bonds_without(s, t)[i]
                == s[i + 1],
{
    lemma_bond_type_index_valid(s, t);
    lemma_bond_type_index_unique(s, t);
    let k = bond_type_index(s, t);
    let s2 = bonds_without(s, t);
    assert(s2 == s.remove(k));
    assert(s2.len() == s.len() - 1);
    assert forall|i: int| 0 <= i < s2.len() implies s2[i] == (if i < k {
        s[i]
    } else {
        s[i + 1]
    }) by {}
    assert(!has_bond_type(s2, t)) by {
        if has_bond_type(s2, t) {
            let i = choose|i: int| 0 <= i < s2.len() && s2[i].bond_type == t;
            if i < k {
                assert(s[i].bond_type == t);
            } else {
                assert(s[i + 1].bond_type == t);
            }
        }
    }
    assert(bond_types_unique(s2)) by {
        assert forall|i: int, j: int| 0 <= i < j < s2.len() implies s2[i].bond_type
            != s2[j].bond_type by {
            let i0 = if i < k { i } else { i + 1 };
            let j0 = if j < k { j } else { j + 1 };
            assert(s2[i] == s[i0] && s2[j] == s[j0]);
            assert(i0 < j0);
        }
    }
    assert forall|t2: u16| t2 != t implies (has_bond_type(s2, t2) <==> has_bond_type(s, t2)) by {
        if has_bond_type(s2, t2) {
            let i = choose|i: int| 0 <= i < s2.len() && s2[i].bond_type == t2;
            if i < k {
                assert(s[i].bond_type == t2);
            } else {
                assert(s[i + 1].bond_type == t2);
            }
        }
        if has_bond_type(s, t2) {
            let i = choose|i: int| 0 <= i < s.len() && s[i].bond_type == t2;
            assert(i != k);
            if i < k {
                assert(s2[i].bond_type == t2);
            } else {
                assert(s2[i - 1].bond_type == t2);
            }
        }
    }
}

/// Find the position of the record of type `t`, scanning from the front.
pub fn find_bond_index(bonds: &Vec<BondData>, t: u16) -> (r: Option<usize>)
    ensures
        match r {
            Some(i) => 0 <= i < bonds@.len() && bonds@[i as int].bond_type == t && forall|j: int|
                0 <= j < i ==> bonds@[j].bond_type != t,
            None => !has_bond_type(bonds@, t),
        },
{
    let mut i: usize = 0;
    while i < bonds.len()
        invariant
            i <= bonds@.len(),
            forall|j: int| 0 <= j < i ==> bonds@[j].bond_type != t,
        decreases bonds@.len() - i,
    {
        if bonds[i].bond_type == t {
            return Some(i);
        }
        i += 1;
    }
    None
}

} // verus!
