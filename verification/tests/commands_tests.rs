use sui_core::error::SuiError;
use sui_core::sui_commands::{
    genesis_committee, preload_gas_objects, AccountConfig, AuthorityInfo, GasObject, ObjectConfig,
    ObjectConfigRange,
};
use sui_core::wallet_commands::{WalletConfig, WalletContext};

fn account(items: Vec<(u64, u64)>, ranges: Option<Vec<(u64, u64, u64)>>) -> AccountConfig {
    AccountConfig {
        address: None,
        gas_objects: items.into_iter().map(|(object_id, gas_value)| ObjectConfig { object_id, gas_value }).collect(),
        gas_object_ranges: ranges.map(|r| {
            r.into_iter().map(|(offset, count, gas_value)| ObjectConfigRange { offset, count, gas_value }).collect()
        }),
    }
}

fn gas(object_id: u64, owner: u64, gas_value: u64) -> GasObject {
    GasObject { object_id, owner, gas_value }
}

#[test]
fn accounts_get_their_gas_objects_in_order_of_identifier() {
    let accounts = vec![account(vec![(5, 50), (2, 20), (5, 55)], None), account(vec![], None), account(vec![(3, 30)], None)];
    assert_eq!(
        preload_gas_objects(&accounts, &vec![11, 12, 13]),
        Ok(vec![gas(2, 11, 20), gas(5, 11, 55), gas(3, 13, 30)])
    );
    assert_eq!(preload_gas_objects(&vec![], &vec![]), Ok(vec![]));
}

#[test]
fn runs_claim_identifiers_once() {
    let accounts = vec![
        // The account names 11 itself, so the run does not claim it.
        account(vec![(11, 1)], Some(vec![(10, 3, 7), (12, 2, 8)])),
        // 10 and 12 and 13 are claimed; 11 is not; a named object that is claimed is dropped.
        account(vec![(12, 9)], Some(vec![(9, 6, 5)])),
        // Now a run has claimed 11 too, so it can be named no more; 15 can.
        account(vec![(11, 2), (15, 3)], None),
        // Objects that accounts name themselves are not claimed: 15 can be named again.
        account(vec![(15, 4)], None),
    ];
    assert_eq!(
        preload_gas_objects(&accounts, &vec![1, 2, 3, 4]),
        Ok(vec![
            gas(10, 1, 7),
            gas(11, 1, 1),
            gas(12, 1, 7),
            gas(13, 1, 8),
            gas(9, 2, 5),
            gas(11, 2, 5),
            gas(14, 2, 5),
            gas(15, 3, 3),
            gas(15, 4, 4),
        ])
    );
}

#[test]
fn runs_past_the_last_identifier_are_refused() {
    let fits = vec![account(vec![], Some(vec![(u64::MAX - 1, 2, 1)]))];
    assert_eq!(
        preload_gas_objects(&fits, &vec![1]),
        Ok(vec![gas(u64::MAX - 1, 1, 1), gas(u64::MAX, 1, 1)])
    );
    let past = vec![account(vec![(1, 1)], None), account(vec![], Some(vec![(u64::MAX - 1, 3, 1)]))];
    assert_eq!(preload_gas_objects(&past, &vec![1, 2]), Err(SuiError::ObjectIDRangeError));
    assert_eq!(preload_gas_objects(&fits, &vec![]), Err(SuiError::GenericAuthorityError));
    let empty = vec![account(vec![], Some(vec![(u64::MAX, 0, 1), (0, 0, 1)]))];
    assert_eq!(preload_gas_objects(&empty, &vec![1]), Ok(vec![]));
}

#[test]
fn the_committee_of_a_genesis_has_the_stakes_of_the_authorities() {
    let info = |public_key, stake| AuthorityInfo { address: 0, public_key, stake };
    let committee = genesis_committee(&vec![info(1, 1), info(2, 2), info(1, 5)]).unwrap();
    assert_eq!(committee.epoch(), 0);
    assert_eq!(committee.weight(&1), 5);
    assert_eq!(committee.weight(&2), 2);
    assert_eq!(committee.total_votes(), 7);
    assert!(genesis_committee(&vec![info(1, u64::MAX), info(2, 1)]).is_none());
    assert_eq!(genesis_committee(&vec![]).unwrap().total_votes(), 0);
    // Only the last stake of a name counts, also towards the limit.
    let replaced = genesis_committee(&vec![info(1, u64::MAX), info(2, 3), info(1, 4)]).unwrap();
    assert_eq!(replaced.total_votes(), 7);
    assert_eq!(replaced.weight(&1), 4);
    assert!(genesis_committee(&vec![info(1, 4), info(2, 3), info(1, u64::MAX)]).is_none());
    assert_eq!(genesis_committee(&vec![info(1, u64::MAX)]).unwrap().total_votes(), u64::MAX);
}

#[test]
fn the_first_address_becomes_the_active_one() {
    let mut wallet = WalletContext::new(WalletConfig { accounts: vec![], active_address: None });
    assert_eq!(wallet.active_address(), None);
    let mut wallet = WalletContext::new(WalletConfig { accounts: vec![7, 8], active_address: None });
    assert_eq!(wallet.active_address(), Some(7));
    assert_eq!(wallet.config.active_address, Some(7));
    assert!(wallet.switch(8));
    assert_eq!(wallet.active_address(), Some(8));
    assert!(!wallet.switch(9));
    assert_eq!(wallet.active_address(), Some(8));
}

#[test]
fn the_first_gas_object_that_fits_pays() {
    let wallet = WalletContext::new(WalletConfig { accounts: vec![7], active_address: None });
    let gas_for_owner_budget =
        |objects: &Vec<(u64, u64)>, budget, forbidden: &Vec<u64>| wallet.gas_for_owner_budget(objects, budget, forbidden);
    let objects = vec![(5, 1), (50, 2), (100, 3), (70, 4)];
    assert_eq!(gas_for_owner_budget(&objects, 20, &vec![]), Some((50, 2)));
    assert_eq!(gas_for_owner_budget(&objects, 20, &vec![2]), Some((100, 3)));
    assert_eq!(gas_for_owner_budget(&objects, 20, &vec![3, 2]), Some((70, 4)));
    assert_eq!(gas_for_owner_budget(&objects, 200, &vec![]), None);
    assert_eq!(gas_for_owner_budget(&objects, 100, &vec![3]), None);
    assert_eq!(gas_for_owner_budget(&vec![], 0, &vec![]), None);
    assert_eq!(gas_for_owner_budget(&objects, 0, &vec![]), Some((5, 1)));
}
