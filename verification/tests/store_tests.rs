use sui_core::authority_store::AuthorityStore;
use sui_core::base_types::{sort_object_refs, ExecutionIndices, ObjectRef};
use sui_core::batch::{AuthorityBatch, SignedBatch};
use sui_core::committee::Committee;
use sui_core::error::SuiError;
use sui_core::messages::{
    CertifiedTransaction, InputObjectKind, SignedTransaction, Transaction, TransactionKind,
};
use sui_core::table::Table;

fn tx(digest: u64, inputs: Vec<InputObjectKind>) -> Transaction {
    Transaction {
        digest,
        sender: 1,
        kind: TransactionKind::Call,
        inputs,
        gas_payment: (9, 0, 0),
        gas_budget: 1,
        tx_signature: 0,
        is_verified: true,
    }
}

fn signed(digest: u64) -> SignedTransaction {
    SignedTransaction::new(0, tx(digest, vec![]), 1, digest * 10)
}

fn cert(digest: u64, shared: Vec<u64>) -> CertifiedTransaction {
    CertifiedTransaction {
        transaction: tx(digest, shared.into_iter().map(InputObjectKind::SharedMoveObject).collect()),
        epoch: 0,
        signatures: vec![],
        is_verified: true,
    }
}

#[test]
fn table_is_a_map() {
    let mut t: Table<(u64, u64), u64> = Table::new();
    assert_eq!(t.len(), 0);
    t.insert((1, 2), 10);
    t.insert((2, 1), 20);
    t.insert((1, 2), 30);
    assert_eq!(t.len(), 2);
    assert_eq!(t.get(&(1, 2)), Some(&30));
    assert_eq!(t.get(&(2, 1)), Some(&20));
    assert_eq!(t.get(&(2, 2)), None);
    assert!(t.contains_key(&(2, 1)));
    assert_eq!(*t.key_at(0), (1, 2));
    assert_eq!(*t.value_at(1), 20);
    t.remove(&(1, 2));
    t.remove(&(7, 7));
    assert_eq!(t.len(), 1);
    assert_eq!(t.get(&(1, 2)), None);
    assert_eq!(*t.key_at(0), (2, 1));
}

#[test]
fn locks_are_all_or_nothing() {
    let mut store = AuthorityStore::new();
    let (a, b, c): (ObjectRef, ObjectRef, ObjectRef) = ((1, 0, 0), (2, 0, 0), (3, 0, 0));
    assert_eq!(store.set_transaction_lock(&vec![a, b], signed(50)), Ok(()));
    assert_eq!(store.get_transaction_lock(&a), Some(signed(50)));
    assert_eq!(store.get_transaction_lock(&c), None);
    assert_eq!(
        store.set_transaction_lock(&vec![c, b, a], signed(51)),
        Err(SuiError::ConflictingTransaction { pending_transaction: signed(50) })
    );
    assert_eq!(store.get_transaction_lock(&c), None);
    assert!(!store.transaction_exists(&51));
    // The same transaction may lock again, and lock more.
    assert_eq!(store.set_transaction_lock(&vec![a, c], signed(50)), Ok(()));
    assert_eq!(store.get_transaction_lock(&c), Some(signed(50)));
    // A lock on another version of the same object is another lock.
    assert_eq!(store.set_transaction_lock(&vec![(1, 1, 0)], signed(51)), Ok(()));
    // The evidence is the holder of the first conflicting reference.
    assert_eq!(
        store.set_transaction_lock(&vec![(1, 1, 0), a], signed(52)),
        Err(SuiError::ConflictingTransaction { pending_transaction: signed(51) })
    );
}

#[test]
fn the_first_signature_of_a_transaction_is_kept() {
    let mut store = AuthorityStore::new();
    assert_eq!(store.set_transaction_lock(&vec![(1, 0, 0)], signed(50)), Ok(()));
    let resigned = SignedTransaction::new(0, tx(50, vec![]), 1, 12345);
    assert_eq!(store.set_transaction_lock(&vec![(1, 0, 0)], resigned), Ok(()));
    assert_eq!(store.get_transaction(&50), Some(signed(50)));
}

#[test]
fn shared_objects_are_sequenced_in_order_of_delivery() {
    let mut store = AuthorityStore::new();
    let index = |n| ExecutionIndices { next_certificate_index: n, next_batch_index: 0, next_transaction_index: 0 };
    assert_eq!(store.persist_certificate_and_lock_shared_objects(cert(60, vec![5, 6]), index(1)), Ok(()));
    assert_eq!(store.persist_certificate_and_lock_shared_objects(cert(61, vec![6]), index(2)), Ok(()));
    assert_eq!(store.persist_certificate_and_lock_shared_objects(cert(62, vec![6, 5, 6]), index(3)), Ok(()));
    assert_eq!(store.sequenced(&60, &vec![5, 6, 7]), vec![Some(0), Some(0), None]);
    assert_eq!(store.sequenced(&61, &vec![5, 6]), vec![None, Some(1)]);
    // An object that a certificate names twice gets one version.
    assert_eq!(store.sequenced(&62, &vec![5, 6]), vec![Some(1), Some(2)]);
    assert_eq!(store.persist_certificate_and_lock_shared_objects(cert(63, vec![6]), index(4)), Ok(()));
    assert_eq!(store.get_shared_lock(&63, &6), Some(3));
    assert_eq!(store.all_shared_locks(&60), vec![(5, 0), (6, 0)]);
    assert_eq!(store.all_shared_locks(&62), vec![(5, 1), (6, 2)]);
    assert_eq!(store.all_shared_locks(&99), vec![]);
    assert_eq!(store.last_consensus_index(), index(4));
    assert_eq!(store.read_certificate(&61), Some(cert(61, vec![6])));
    assert_eq!(store.read_certificate(&64), None);
}

#[test]
fn batches_must_continue_the_log() {
    let mut store = AuthorityStore::new();
    assert_eq!(store.last_batch(), None);
    assert_eq!(store.batches_and_transactions(0, 5).err(), Some(SuiError::NoBatchesFoundError));
    let first = AuthorityBatch::make_next(&AuthorityBatch::initial(1), &vec![(0, 5)], 2).unwrap();
    assert_eq!(store.add_batch(SignedBatch::new(first, 0, 0)), Err(SuiError::GenericAuthorityError));
    let initial = SignedBatch::new(AuthorityBatch::initial(1), 0, 0);
    assert_eq!(store.add_batch(initial.clone()), Ok(()));
    assert_eq!(store.add_batch(initial.clone()), Err(SuiError::GenericAuthorityError));
    assert_eq!(store.last_batch(), Some(initial.clone()));
    assert_eq!(store.batches_and_transactions(3, 5), Ok((vec![initial], vec![])));
}

#[test]
fn batches_are_made_from_runs_of_transactions() {
    let initial = AuthorityBatch::initial(9);
    assert_eq!(
        (initial.next_sequence_number, initial.initial_sequence_number, initial.size, initial.previous_digest),
        (0, 0, 0, None)
    );
    let next = AuthorityBatch::make_next(&initial, &vec![(4, 40), (5, 50), (6, 60)], 10).unwrap();
    assert_eq!(next.initial_sequence_number, 4);
    assert_eq!(next.next_sequence_number, 7);
    assert_eq!(next.size, 3);
    assert_eq!(next.previous_digest, Some(9));
    assert_eq!(next.digest, 10);
    assert_eq!(next.transactions, vec![(4, 40), (5, 50), (6, 60)]);
    assert_eq!(AuthorityBatch::make_next(&initial, &vec![], 10), Err(SuiError::GenericAuthorityError));
    assert_eq!(
        AuthorityBatch::make_next(&initial, &vec![(u64::MAX, 1)], 10),
        Err(SuiError::GenericAuthorityError)
    );
}

#[test]
fn object_references_are_sorted_by_id_version_digest() {
    let refs = vec![(2, 0, 0), (1, 5, 9), (1, 5, 3), (1, 2, 100), (0, 9, 9), (1, 5, 3)];
    assert_eq!(
        sort_object_refs(refs),
        vec![(0, 9, 9), (1, 2, 100), (1, 5, 3), (1, 5, 3), (1, 5, 9), (2, 0, 0)]
    );
    assert_eq!(sort_object_refs(vec![]), vec![]);
}

#[test]
fn committee_counts_stake() {
    let mut rights: Table<u64, u64> = Table::new();
    rights.insert(1, 5);
    rights.insert(2, 1);
    rights.insert(3, 1);
    let committee = Committee::new(3, rights).unwrap();
    assert_eq!(committee.epoch(), 3);
    assert_eq!(committee.total_votes(), 7);
    assert_eq!(committee.quorum_threshold(), 5);
    assert_eq!(committee.weight(&1), 5);
    assert_eq!(committee.weight(&4), 0);
    let certificate = |signatures| CertifiedTransaction { epoch: 3, signatures, ..cert(1, vec![]) };
    assert_eq!(certificate(vec![(1, 0)]).verify(&committee), Ok(()));
    assert_eq!(certificate(vec![(2, 0), (3, 0)]).verify(&committee), Err(SuiError::SignatureError));
    assert_eq!(certificate(vec![(3, 0), (1, 0), (2, 0)]).verify(&committee), Ok(()));
    assert_eq!(certificate(vec![(1, 0), (1, 0)]).verify(&committee), Err(SuiError::SignatureError));
    assert_eq!(certificate(vec![]).verify(&committee), Err(SuiError::SignatureError));

    let mut heavy: Table<u64, u64> = Table::new();
    heavy.insert(1, u64::MAX);
    heavy.insert(2, 1);
    assert!(Committee::new(0, heavy).is_none());
    let mut full: Table<u64, u64> = Table::new();
    full.insert(1, u64::MAX);
    let alone = Committee::new(0, full).unwrap();
    assert_eq!(alone.quorum_threshold(), 12297829382473034411);
    let empty = Committee::new(0, Table::new()).unwrap();
    assert_eq!(empty.quorum_threshold(), 1);
}
