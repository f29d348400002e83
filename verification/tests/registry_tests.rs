use coming_id::bond::BondData;
use coming_id::registry::{Error, Event, Registry};

const ADMIN: u64 = 1;
const RESERVE2: u64 = 2;
const RESERVE3: u64 = 3;
const COMMUNITY_ALICE: u64 = 100000;
const COMMUNITY_BOB: u64 = 999999;
const COMMON_CHARLIE: u64 = 1000000;

const CIDS_LIMIT: usize = 5;

#[test]
fn it_works_for_regular_value() {
    let mut reg = Registry::new(ADMIN, CIDS_LIMIT);
    assert_eq!(reg.register(ADMIN, 1, RESERVE2), Ok(()));
    assert_eq!(reg.register(ADMIN, 1000000, COMMON_CHARLIE), Ok(()));
    assert_eq!(
        reg.bond(
            COMMON_CHARLIE,
            1000000,
            BondData {
                bond_type: 1u16,
                data: vec![],
            }
        ),
        Ok(())
    );
    assert_eq!(reg.unbond(COMMON_CHARLIE, 1000000, 1u16), Ok(()));

    let events = vec![
        Event::Registered(RESERVE2, 1),
        Event::Registered(COMMON_CHARLIE, 1000000),
        Event::Bonded(COMMON_CHARLIE, 1000000, 1),
        Event::UnBonded(COMMON_CHARLIE, 1000000, 1),
    ];

    assert_eq!(reg.events, events);
}

#[test]
fn register_should_work() {
    let mut reg = Registry::new(ADMIN, CIDS_LIMIT);
    // (1) caller is not the authority of the identifier's tier
    assert_eq!(
        reg.register(COMMUNITY_ALICE, 1, RESERVE2),
        Err(Error::InsufficientAuthority)
    );

    // (2) Error::InvalidIdentifier
    assert_eq!(
        reg.register(ADMIN, 1_000_000_000_000, RESERVE2),
        Err(Error::InvalidIdentifier)
    );
    assert_eq!(
        reg.register(ADMIN, 1_000_000_000_000, RESERVE2),
        Err(Error::InvalidIdentifier)
    );

    // (3) Event::Registered
    assert_eq!(reg.register(ADMIN, 1, RESERVE2), Ok(()));
    assert_eq!(reg.events.last(), Some(&Event::Registered(RESERVE2, 1)));

    // (4) Error::AlreadyRegistered
    assert_eq!(reg.register(ADMIN, 100000, COMMUNITY_ALICE), Ok(()));
    assert_eq!(
        reg.register(ADMIN, 100000, COMMUNITY_BOB),
        Err(Error::AlreadyRegistered)
    );

    assert_eq!(reg.register(ADMIN, 1_000_001, RESERVE2), Ok(()));
    assert_eq!(
        reg.events.last(),
        Some(&Event::Registered(RESERVE2, 1000001))
    );
}

#[test]
fn bond_should_work() {
    let mut reg = Registry::new(ADMIN, CIDS_LIMIT);
    assert_eq!(reg.register(ADMIN, 1, RESERVE2), Ok(()));
    assert_eq!(reg.register(ADMIN, 100000, COMMUNITY_ALICE), Ok(()));
    assert_eq!(reg.register(ADMIN, 1000000, COMMON_CHARLIE), Ok(()));
    assert_eq!(
        reg.events.last(),
        Some(&Event::Registered(COMMON_CHARLIE, 1000000))
    );
    let bond = BondData {
        bond_type: 1u16,
        data: b"test".to_vec(),
    };

    assert_eq!(
        reg.bond(RESERVE2, 1000000000000, bond.clone()),
        Err(Error::InvalidIdentifier)
    );
    // 1. Error::InvalidIdentifier
    assert_eq!(
        reg.bond(RESERVE2, 1_000_000_000_000, bond.clone()),
        Err(Error::InvalidIdentifier)
    );

    // 2. Error::NotOwner
    assert_eq!(reg.bond(RESERVE3, 1, bond.clone()), Err(Error::NotOwner));

    assert_eq!(reg.bond(RESERVE2, 1, bond.clone()), Ok(()));
    assert_eq!(reg.bond(COMMUNITY_ALICE, 100000, bond.clone()), Ok(()));
    assert_eq!(reg.bond(COMMON_CHARLIE, 1000000, bond.clone()), Ok(()));

    let new_bond1 = BondData {
        bond_type: 1u16,
        data: b"new-test".to_vec(),
    };
    assert_eq!(reg.bond(RESERVE2, 1, new_bond1.clone()), Ok(()));
    assert_eq!(reg.events.last(), Some(&Event::BondUpdated(RESERVE2, 1, 1u16)));
    let expected1 = vec![new_bond1];
    assert_eq!(reg.bonds_of(1), Some((RESERVE2, &expected1)));

    let new_bond2 = BondData {
        bond_type: 2u16,
        data: b"new-test".to_vec(),
    };
    assert_eq!(reg.bond(COMMUNITY_ALICE, 100000, new_bond2.clone()), Ok(()));
    let expected2 = vec![bond.clone(), new_bond2];
    assert_eq!(reg.bonds_of(100000), Some((COMMUNITY_ALICE, &expected2)));

    let new_bond3 = BondData {
        bond_type: 3u16,
        data: b"new-test".to_vec(),
    };
    assert_eq!(reg.bond(COMMON_CHARLIE, 1000000, new_bond3.clone()), Ok(()));
    assert_eq!(
        reg.events.last(),
        Some(&Event::Bonded(COMMON_CHARLIE, 1000000, 3u16))
    );
    let expected3 = vec![bond, new_bond3];
    assert_eq!(reg.bonds_of(1000000), Some((COMMON_CHARLIE, &expected3)));
}

#[test]
fn unbond_should_work() {
    let mut reg = Registry::new(ADMIN, CIDS_LIMIT);
    assert_eq!(reg.register(ADMIN, 1, RESERVE2), Ok(()));
    assert_eq!(reg.register(ADMIN, 100000, COMMUNITY_ALICE), Ok(()));
    assert_eq!(reg.register(ADMIN, 1000000, COMMON_CHARLIE), Ok(()));
    assert_eq!(
        reg.events.last(),
        Some(&Event::Registered(COMMON_CHARLIE, 1000000))
    );
    let bond = BondData {
        bond_type: 1u16,
        data: b"test".to_vec(),
    };

    assert_eq!(reg.bond(RESERVE2, 1, bond.clone()), Ok(()));
    assert_eq!(reg.bond(COMMUNITY_ALICE, 100000, bond.clone()), Ok(()));
    assert_eq!(reg.bond(COMMON_CHARLIE, 1000000, bond.clone()), Ok(()));

    // 1. Error::InvalidIdentifier
    assert_eq!(
        reg.unbond(RESERVE2, 1_000_000_000_000, 1u16),
        Err(Error::InvalidIdentifier)
    );
    assert_eq!(
        reg.unbond(RESERVE2, 1000000000000, 1u16),
        Err(Error::InvalidIdentifier)
    );

    // 2. Error::NotOwner
    assert_eq!(reg.unbond(ADMIN, 1, 1u16), Err(Error::NotOwner));

    assert_eq!(reg.unbond(RESERVE2, 1, 1u16), Ok(()));
    assert_eq!(reg.events.last(), Some(&Event::UnBonded(RESERVE2, 1, 1u16)));

    let new_bond2 = BondData {
        bond_type: 2u16,
        data: b"new-test".to_vec(),
    };
    assert_eq!(reg.bond(COMMUNITY_ALICE, 100000, new_bond2.clone()), Ok(()));
    let expected_before = vec![bond.clone(), new_bond2.clone()];
    assert_eq!(reg.bonds_of(100000), Some((COMMUNITY_ALICE, &expected_before)));
    assert_eq!(reg.unbond(COMMUNITY_ALICE, 100000, 1u16), Ok(()));
    let expected_after = vec![new_bond2];
    assert_eq!(reg.bonds_of(100000), Some((COMMUNITY_ALICE, &expected_after)));

    // unbond twice
    // 3. Error::BondTypeNotFound
    assert_eq!(reg.unbond(COMMON_CHARLIE, 1000000, 1u16), Ok(()));
    assert_eq!(
        reg.events.last(),
        Some(&Event::UnBonded(COMMON_CHARLIE, 1000000, 1u16))
    );
    assert_eq!(
        reg.unbond(COMMON_CHARLIE, 1000000, 1u16),
        Err(Error::BondTypeNotFound)
    );
}

#[test]
fn update_keys_migration_should_work() {
    let (old_key, high, medium, low) = (10u64, 2u64, 3u64, 4u64);

    let mut reg = Registry::new(ADMIN, CIDS_LIMIT);
    reg.set_legacy_admin_key(old_key);

    assert_eq!(reg.legacy_admin_key, old_key);

    reg.migrate_admin_key(high, medium, low);

    assert_eq!(reg.high_key, high);
    assert_eq!(reg.medium_key, medium);
    assert_eq!(reg.low_key, low);
    assert_eq!(reg.legacy_admin_key, 0);
}
