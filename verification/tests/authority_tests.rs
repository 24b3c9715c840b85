use sui_core::authority::{
    AuthorityState, AuthorityTemporaryStore, ConfirmationStep, ExecutionInput, MAX_ITEMS_LIMIT,
};
use sui_core::authority_batch::{BatchAction, BatchService};
use sui_core::authority_store::AuthorityStore;
use sui_core::base_types::{ExecutionIndices, ObjectID, SuiAddress, TransactionDigest};
use sui_core::batch::UpdateItem;
use sui_core::committee::Committee;
use sui_core::error::SuiError;
use sui_core::messages::{
    AccountInfoRequest, BatchInfoRequest, CertifiedTransaction, ConfirmationTransaction,
    ExecutionStatus, InputObjectKind, ObjectInfoRequest, ObjectInfoRequestKind,
    SignedTransactionEffects, Transaction, TransactionEffects, TransactionInfoRequest,
    TransactionKind,
};
use sui_core::object::{Object, Owner};
use sui_core::table::Table;

const ALICE: SuiAddress = 100;
const BOB: SuiAddress = 200;
const NAME: u64 = 1;
const EPOCH: u64 = 0;

fn committee() -> Committee {
    let mut rights: Table<u64, u64> = Table::new();
    rights.insert(1, 1);
    rights.insert(2, 1);
    rights.insert(3, 1);
    rights.insert(4, 1);
    Committee::new(EPOCH, rights).unwrap()
}

fn object(id: ObjectID, owner: Owner) -> Object {
    Object { id, version: 0, digest: id + 1000, owner, previous_transaction: 0, gas_balance: 1_000 }
}

fn owned(id: ObjectID) -> Object {
    object(id, Owner::AddressOwner(ALICE))
}

fn authority(objects: Vec<Object>) -> AuthorityState {
    AuthorityState::new(committee(), NAME, AuthorityStore::new(), &objects, 7, 8)
}

fn transaction(digest: TransactionDigest, inputs: Vec<InputObjectKind>, gas: &Object) -> Transaction {
    Transaction {
        digest,
        sender: ALICE,
        kind: TransactionKind::Transfer,
        inputs,
        gas_payment: gas.compute_object_reference(),
        gas_budget: 10,
        tx_signature: 55,
        is_verified: true,
    }
}

fn owned_input(o: &Object) -> InputObjectKind {
    InputObjectKind::ImmOrOwnedMoveObject(o.compute_object_reference())
}

fn certificate(transaction: Transaction) -> CertifiedTransaction {
    CertifiedTransaction {
        transaction,
        epoch: EPOCH,
        signatures: vec![(1, 11), (2, 12), (3, 13)],
        is_verified: true,
    }
}

/// What an execution engine might answer: every input that can be mutated
/// moves on by one version.
fn execute(input: &ExecutionInput) -> (AuthorityTemporaryStore, SignedTransactionEffects) {
    let mut written = Vec::new();
    let mut mutated = Vec::new();
    for (_, o) in input.objects_by_kind.iter() {
        if o.owner != Owner::Immutable {
            let next = Object {
                version: o.version + 1,
                digest: o.digest + 1,
                previous_transaction: input.transaction_digest,
                ..*o
            };
            mutated.push((next.compute_object_reference(), next.owner));
            written.push(next);
        }
    }
    let effects = TransactionEffects {
        transaction_digest: input.transaction_digest,
        status: ExecutionStatus::Success,
        gas_used: 1,
        shared_objects: input.shared_object_refs.clone(),
        created: vec![],
        mutated,
        deleted: vec![],
        dependencies: input.transaction_dependencies.clone(),
        events: 2,
    };
    (
        AuthorityTemporaryStore { written, deleted: vec![] },
        effects.to_sign_effects(EPOCH, NAME, 99),
    )
}

fn confirm(state: &mut AuthorityState, cert: &CertifiedTransaction) -> Result<(), SuiError> {
    match state.handle_confirmation_transaction(ConfirmationTransaction::new(cert.clone()))? {
        ConfirmationStep::AlreadyExecuted(_) => Ok(()),
        ConfirmationStep::Execute(input) => {
            let (store, effects) = execute(&input);
            state.commit_certificate(cert.clone(), store, effects).map(|_| ())
        }
    }
}

#[test]
fn handle_transaction_locks_owned_inputs() {
    let (a, gas) = (owned(1), owned(9));
    let mut state = authority(vec![a, gas]);
    let tx = transaction(500, vec![owned_input(&a)], &gas);
    let response = state.handle_transaction(tx.clone(), 77).unwrap();
    let signed = response.signed_transaction.unwrap();
    assert_eq!(signed.transaction, tx);
    assert_eq!(signed.authority, NAME);
    assert_eq!(signed.epoch, EPOCH);
    assert_eq!(signed.signature, 77);
    assert!(response.certified_transaction.is_none());
    assert!(response.signed_effects.is_none());
    let lock = state.get_transaction_lock(&a.compute_object_reference()).unwrap();
    assert_eq!(lock.unwrap().transaction.digest, 500);
    let gas_lock = state.get_transaction_lock(&gas.compute_object_reference()).unwrap();
    assert_eq!(gas_lock.unwrap().transaction.digest, 500);
}

#[test]
fn handle_transaction_rejects_unverified_signature() {
    let (a, gas) = (owned(1), owned(9));
    let mut state = authority(vec![a, gas]);
    let mut tx = transaction(500, vec![owned_input(&a)], &gas);
    tx.is_verified = false;
    assert_eq!(state.handle_transaction(tx, 77), Err(SuiError::SignatureError));
    assert_eq!(state.get_transaction_lock(&a.compute_object_reference()), Ok(None));
    assert_eq!(state.metrics().signature_errors, 1);
    assert_eq!(state.metrics().tx_orders, 1);
}

#[test]
fn conflicting_transaction_is_refused_with_evidence() {
    let (a, b, c, gas1, gas2) = (owned(1), owned(2), owned(3), owned(8), owned(9));
    let mut state = authority(vec![a, b, c, gas1, gas2]);
    let t1 = transaction(501, vec![owned_input(&a), owned_input(&b)], &gas1);
    let t2 = transaction(502, vec![owned_input(&b), owned_input(&c)], &gas2);
    state.handle_transaction(t1.clone(), 71).unwrap();
    match state.handle_transaction(t2, 72) {
        Err(SuiError::ConflictingTransaction { pending_transaction }) => {
            assert_eq!(pending_transaction.transaction, t1);
            assert_eq!(pending_transaction.signature, 71);
        }
        other => panic!("{:?}", other),
    }
    // All or nothing: neither C nor the second gas object is locked.
    assert_eq!(state.get_transaction_lock(&c.compute_object_reference()), Ok(None));
    assert_eq!(state.get_transaction_lock(&gas2.compute_object_reference()), Ok(None));
}

#[test]
fn handle_transaction_is_idempotent() {
    let (a, gas) = (owned(1), owned(9));
    let mut state = authority(vec![a, gas]);
    let tx = transaction(500, vec![owned_input(&a)], &gas);
    let first = state.handle_transaction(tx.clone(), 77).unwrap();
    let second = state.handle_transaction(tx.clone(), 77).unwrap();
    assert_eq!(first, second);
    assert_eq!(state.metrics().tx_orders, 2);
    assert_eq!(state.metrics().tx_already_processed, 1);
}

#[test]
fn end_to_end_lock_conflict_and_new_version() {
    let (a, b, c, gas1, gas2) = (owned(1), owned(2), owned(3), owned(8), owned(9));
    let mut state = authority(vec![a, b, c, gas1, gas2]);
    let t1 = transaction(501, vec![owned_input(&a), owned_input(&b)], &gas1);
    let t2 = transaction(502, vec![owned_input(&b), owned_input(&c)], &gas2);
    state.handle_transaction(t1.clone(), 71).unwrap();
    assert!(matches!(
        state.handle_transaction(t2, 72),
        Err(SuiError::ConflictingTransaction { pending_transaction }) if pending_transaction.transaction == t1
    ));
    confirm(&mut state, &certificate(t1)).unwrap();
    let new_b = state.db().get_object(&2).unwrap();
    assert_eq!(new_b.version, 1);
    assert_eq!(new_b.previous_transaction, 501);
    // The lock on the old version has been released.
    assert_eq!(state.get_transaction_lock(&b.compute_object_reference()), Ok(None));
    let t3 = transaction(503, vec![owned_input(&new_b), owned_input(&c)], &gas2);
    let response = state.handle_transaction(t3, 73).unwrap();
    assert_eq!(response.signed_transaction.unwrap().transaction.digest, 503);
    let lock = state.get_transaction_lock(&new_b.compute_object_reference()).unwrap();
    assert_eq!(lock.unwrap().transaction.digest, 503);
}

#[test]
fn stale_version_is_refused() {
    let (a, gas) = (owned(1), owned(9));
    let mut state = authority(vec![a, gas]);
    let t1 = transaction(501, vec![owned_input(&a)], &gas);
    state.handle_transaction(t1.clone(), 71).unwrap();
    confirm(&mut state, &certificate(t1)).unwrap();
    let new_gas = state.db().get_object(&9).unwrap();
    let stale = transaction(502, vec![owned_input(&a)], &new_gas);
    assert_eq!(
        state.handle_transaction(stale, 72),
        Err(SuiError::UnexpectedSequenceNumber { object_id: 1, expected_sequence: 1, given_sequence: 0 })
    );
}

#[test]
fn confirmation_is_idempotent() {
    let (a, gas) = (owned(1), owned(9));
    let mut state = authority(vec![a, gas]);
    let t1 = transaction(501, vec![owned_input(&a)], &gas);
    state.handle_transaction(t1.clone(), 71).unwrap();
    let cert = certificate(t1);
    let input = match state.handle_confirmation_transaction(ConfirmationTransaction::new(cert.clone())) {
        Ok(ConfirmationStep::Execute(input)) => input,
        other => panic!("{:?}", other),
    };
    assert_eq!(input.transaction_digest, 501);
    assert_eq!(input.objects_by_kind, vec![(owned_input(&a), a), (owned_input(&gas), gas)]);
    assert_eq!(input.transaction_dependencies, vec![0, 0]);
    assert!(input.shared_object_refs.is_empty());
    let (store, effects) = execute(&input);
    let first = state.commit_certificate(cert.clone(), store, effects.clone()).unwrap();
    assert_eq!(first.signed_effects, Some(effects.clone()));
    assert_eq!(first.certified_transaction, Some(cert.clone()));
    assert_eq!(first.signed_transaction.as_ref().unwrap().signature, 71);
    assert_eq!(state.metrics().total_effects, 1);
    assert_eq!(state.metrics().total_events, 2);
    // A second confirmation is answered from the store and asks for no execution.
    match state.handle_confirmation_transaction(ConfirmationTransaction::new(cert.clone())) {
        Ok(ConfirmationStep::AlreadyExecuted(cached)) => assert_eq!(cached, first),
        other => panic!("{:?}", other),
    }
    // A second commit, whatever it brings, changes nothing.
    let other_output = AuthorityTemporaryStore { written: vec![owned(77)], deleted: vec![] };
    let again = state.commit_certificate(cert, other_output, effects).unwrap();
    assert_eq!(again, first);
    assert_eq!(state.db().get_object(&77), None);
    assert_eq!(state.metrics().total_effects, 1);
    assert_eq!(state.db().next_sequence_number(), 1);
}

#[test]
fn certificate_without_quorum_is_refused() {
    let (a, gas) = (owned(1), owned(9));
    let mut state = authority(vec![a, gas]);
    let mut cert = certificate(transaction(501, vec![owned_input(&a)], &gas));
    cert.signatures = vec![(1, 11), (2, 12)];
    assert_eq!(
        state.handle_confirmation_transaction(ConfirmationTransaction::new(cert.clone())),
        Err(SuiError::SignatureError)
    );
    cert.signatures = vec![(1, 11), (2, 12), (2, 13)];
    assert_eq!(cert.verify(state.committee()), Err(SuiError::SignatureError));
    cert.signatures = vec![(1, 11), (2, 12), (9, 13)];
    assert_eq!(cert.verify(state.committee()), Err(SuiError::SignatureError));
    cert.signatures = vec![(1, 11), (2, 12), (3, 13)];
    assert_eq!(cert.verify(state.committee()), Ok(()));
    cert.epoch = 1;
    assert_eq!(cert.verify(state.committee()), Err(SuiError::SignatureError));
    cert.epoch = 0;
    cert.is_verified = false;
    assert_eq!(cert.verify(state.committee()), Err(SuiError::SignatureError));
    assert_eq!(state.committee().quorum_threshold(), 3);
    assert_eq!(state.metrics().signature_errors, 1);
}

#[test]
fn shared_object_needs_consensus_first() {
    let (shared, gas) = (object(5, Owner::Shared), owned(9));
    let mut state = authority(vec![shared, gas]);
    let tx = transaction(600, vec![InputObjectKind::SharedMoveObject(5)], &gas);
    state.handle_transaction(tx.clone(), 71).unwrap();
    let cert = certificate(tx);
    assert_eq!(
        state.handle_confirmation_transaction(ConfirmationTransaction::new(cert.clone())),
        Err(SuiError::SharedObjectLockNotSetObject)
    );
    let index = ExecutionIndices { next_certificate_index: 1, next_batch_index: 0, next_transaction_index: 0 };
    assert_eq!(state.handle_consensus_certificate(cert.clone(), index), Ok(()));
    assert_eq!(state.load_execution_indices(), Ok(index));
    assert_eq!(state.db().get_shared_lock(&600, &5), Some(0));
    match state.handle_confirmation_transaction(ConfirmationTransaction::new(cert.clone())) {
        Ok(ConfirmationStep::Execute(input)) => {
            assert_eq!(input.shared_object_refs, vec![shared.compute_object_reference()]);
        }
        other => panic!("{:?}", other),
    }
    confirm(&mut state, &cert).unwrap();
    assert_eq!(state.db().get_object(&5).unwrap().version, 1);
    // Delivered again, the certificate is not sequenced again.
    let later = ExecutionIndices { next_certificate_index: 2, next_batch_index: 0, next_transaction_index: 0 };
    assert_eq!(state.handle_consensus_certificate(cert, later), Ok(()));
    assert_eq!(state.load_execution_indices(), Ok(index));
    assert_eq!(state.db().get_shared_lock(&600, &5), Some(0));
}

#[test]
fn shared_object_versions_follow_consensus_order() {
    let (shared, gas1, gas2) = (object(5, Owner::Shared), owned(8), owned(9));
    let mut state = authority(vec![shared, gas1, gas2]);
    let first = certificate(transaction(601, vec![InputObjectKind::SharedMoveObject(5)], &gas1));
    let second = certificate(transaction(602, vec![InputObjectKind::SharedMoveObject(5)], &gas2));
    let index = ExecutionIndices { next_certificate_index: 1, next_batch_index: 0, next_transaction_index: 0 };
    state.handle_consensus_certificate(first.clone(), index).unwrap();
    state.handle_consensus_certificate(second.clone(), index).unwrap();
    assert_eq!(state.db().get_shared_lock(&601, &5), Some(0));
    assert_eq!(state.db().get_shared_lock(&602, &5), Some(1));
    // The second cannot run before the first has moved the object on.
    assert_eq!(
        state.handle_confirmation_transaction(ConfirmationTransaction::new(second.clone())),
        Err(SuiError::UnexpectedSequenceNumber { object_id: 5, expected_sequence: 1, given_sequence: 0 })
    );
    confirm(&mut state, &first).unwrap();
    confirm(&mut state, &second).unwrap();
    assert_eq!(state.db().get_object(&5).unwrap().version, 2);
    assert_eq!(state.metrics().shared_obj_tx, 3);
}

#[test]
fn consensus_ignores_certificates_without_shared_objects() {
    let (a, gas) = (owned(1), owned(9));
    let mut state = authority(vec![a, gas]);
    let mut cert = certificate(transaction(501, vec![owned_input(&a)], &gas));
    cert.signatures = vec![];
    let index = ExecutionIndices { next_certificate_index: 1, next_batch_index: 0, next_transaction_index: 0 };
    assert_eq!(state.handle_consensus_certificate(cert, index), Ok(()));
    assert_eq!(state.read_certificate(&501), Ok(None));
    let mut shared = certificate(transaction(502, vec![InputObjectKind::SharedMoveObject(5)], &gas));
    shared.signatures = vec![(1, 1)];
    assert_eq!(state.handle_consensus_certificate(shared, index), Err(SuiError::SignatureError));
    assert_eq!(state.db().get_shared_lock(&502, &5), None);
}

#[test]
fn input_checks() {
    let a = owned(1);
    let bobs = object(2, Owner::AddressOwner(BOB));
    let shared = object(5, Owner::Shared);
    let frozen = object(6, Owner::Immutable);
    let mut poor = owned(7);
    poor.gas_balance = 5;
    let gas = owned(9);
    let mut state = authority(vec![a, bobs, shared, frozen, poor, gas]);
    let mut check = |digest, inputs, gas: &Object| state.handle_transaction(transaction(digest, inputs, gas), 1);
    assert_eq!(
        check(1, vec![InputObjectKind::ImmOrOwnedMoveObject((42, 0, 0))], &gas),
        Err(SuiError::ObjectNotFound { object_id: 42 })
    );
    assert_eq!(check(2, vec![owned_input(&bobs)], &gas), Err(SuiError::IncorrectSigner));
    assert_eq!(check(3, vec![owned_input(&shared)], &gas), Err(SuiError::NotSharedObjectError));
    assert_eq!(
        check(4, vec![InputObjectKind::SharedMoveObject(1)], &gas),
        Err(SuiError::NotSharedObjectError)
    );
    assert_eq!(
        check(5, vec![InputObjectKind::MovePackage(1)], &gas),
        Err(SuiError::MoveObjectAsPackage { object_id: 1 })
    );
    assert_eq!(
        check(6, vec![InputObjectKind::ImmOrOwnedMoveObject((1, 0, 5))], &gas),
        Err(SuiError::InvalidObjectDigest { object_id: 1, expected_digest: 1001 })
    );
    assert_eq!(check(7, vec![], &poor), Err(SuiError::InsufficientGas { balance: 5, budget: 10 }));
    let missing_gas = owned(43);
    assert_eq!(check(8, vec![], &missing_gas), Err(SuiError::ObjectNotFound { object_id: 43 }));
    // Immutable objects and packages are read without a lock.
    assert!(check(9, vec![owned_input(&frozen), InputObjectKind::MovePackage(6)], &gas).is_ok());
    assert_eq!(state.get_transaction_lock(&frozen.compute_object_reference()), Ok(None));
}

#[test]
fn batch_info_request_is_validated() {
    let state = authority(vec![]);
    assert_eq!(
        state.handle_batch_info_request(BatchInfoRequest { start: Some(0), length: 0 }).err(),
        Some(SuiError::InvalidSequenceRangeError)
    );
    assert_eq!(
        state.handle_batch_info_request(BatchInfoRequest { start: Some(0), length: 100_001 }).err(),
        Some(SuiError::TooManyItemsError(100_000))
    );
    assert_eq!(MAX_ITEMS_LIMIT, 100_000);
    assert_eq!(
        state.handle_batch_info_request(BatchInfoRequest { start: Some(u64::MAX), length: 1 }).err(),
        Some(SuiError::InvalidSequenceRangeError)
    );
    let (items, range) = state
        .handle_batch_info_request(BatchInfoRequest { start: None, length: 100_000 })
        .unwrap();
    assert_eq!(range, (true, 0, 100_000));
    assert_eq!(items.len(), 1);
    assert!(matches!(&items[0], UpdateItem::Batch(b) if b.batch.next_sequence_number == 0));
}

#[test]
fn batch_info_interleaves_batches_and_transactions() {
    let gas = owned(9);
    let mut state = authority(vec![gas]);
    let mut current = gas;
    for digest in 700..705u64 {
        let tx = transaction(digest, vec![], &current);
        state.handle_transaction(tx.clone(), 1).unwrap();
        confirm(&mut state, &certificate(tx)).unwrap();
        current = state.db().get_object(&9).unwrap();
    }
    assert_eq!(state.next_batch_item(0), Some((0, 700)));
    assert_eq!(state.next_batch_item(4), Some((4, 704)));
    assert_eq!(state.next_batch_item(5), None);
    let b1 = state.seal_batch(&vec![(0, 700), (1, 701)], 21, 31).unwrap();
    assert_eq!(b1.batch.initial_sequence_number, 0);
    assert_eq!(b1.batch.next_sequence_number, 2);
    assert_eq!(b1.batch.size, 2);
    assert_eq!(b1.batch.previous_digest, Some(7));
    let b2 = state.seal_batch(&vec![(2, 702)], 22, 32).unwrap();
    assert_eq!(b2.batch.previous_digest, Some(21));
    // A batch must continue the log.
    assert_eq!(state.seal_batch(&vec![(4, 704)], 23, 33), Err(SuiError::GenericAuthorityError));
    assert_eq!(state.seal_batch(&vec![(3, 999)], 23, 33), Err(SuiError::GenericAuthorityError));
    assert_eq!(state.seal_batch(&vec![], 23, 33), Err(SuiError::GenericAuthorityError));

    let (items, range) = state
        .handle_batch_info_request(BatchInfoRequest { start: Some(0), length: 10 })
        .unwrap();
    assert_eq!(range, (true, 0, 10));
    let shown: Vec<String> = items
        .iter()
        .map(|i| match i {
            UpdateItem::Transaction((seq, d)) => format!("T{}:{}", seq, d),
            UpdateItem::Batch(b) => format!("B{}", b.batch.next_sequence_number),
        })
        .collect();
    assert_eq!(shown, vec!["B0", "T0:700", "T1:701", "B2", "T2:702", "B3", "T3:703", "T4:704"]);

    let (items, range) = state
        .handle_batch_info_request(BatchInfoRequest { start: Some(2), length: 1 })
        .unwrap();
    assert_eq!(range, (false, 2, 3));
    let shown: Vec<String> = items
        .iter()
        .map(|i| match i {
            UpdateItem::Transaction((seq, d)) => format!("T{}:{}", seq, d),
            UpdateItem::Batch(b) => format!("B{}", b.batch.next_sequence_number),
        })
        .collect();
    assert_eq!(shown, vec!["B2", "T2:702", "B3"]);

    let (_, range) = state
        .handle_batch_info_request(BatchInfoRequest { start: None, length: 1 })
        .unwrap();
    assert_eq!(range, (true, 3, 4));
}

#[test]
fn object_and_account_info() {
    let (a, b, gas) = (owned(1), object(2, Owner::AddressOwner(BOB)), owned(9));
    let mut state = authority(vec![gas, b, a]);
    let accounts = state.handle_account_info_request(AccountInfoRequest { account: ALICE }).unwrap();
    assert_eq!(accounts.owner, ALICE);
    assert_eq!(accounts.object_ids, vec![a.compute_object_reference(), gas.compute_object_reference()]);
    let tx = transaction(501, vec![owned_input(&a)], &gas);
    state.handle_transaction(tx.clone(), 71).unwrap();
    let latest = state
        .handle_object_info_request(ObjectInfoRequest { object_id: 1, request_kind: ObjectInfoRequestKind::LatestObjectInfo })
        .unwrap();
    assert_eq!(latest.requested_object_reference, Some(a.compute_object_reference()));
    assert_eq!(latest.parent_certificate, None);
    let shown = latest.object_and_lock.unwrap();
    assert_eq!(shown.object, a);
    assert_eq!(shown.lock.unwrap().transaction, tx);
    let cert = certificate(tx);
    confirm(&mut state, &cert).unwrap();
    let latest = state
        .handle_object_info_request(ObjectInfoRequest { object_id: 1, request_kind: ObjectInfoRequestKind::LatestObjectInfo })
        .unwrap();
    assert_eq!(latest.requested_object_reference, Some((1, 1, 1002)));
    assert_eq!(latest.parent_certificate, Some(cert.clone()));
    assert_eq!(latest.object_and_lock.unwrap().lock, None);
    let past = state
        .handle_object_info_request(ObjectInfoRequest { object_id: 1, request_kind: ObjectInfoRequestKind::PastObjectInfo(0) })
        .unwrap();
    assert_eq!(past.requested_object_reference, Some((1, 0, 1001)));
    assert_eq!(past.parent_certificate, None);
    assert_eq!(past.object_and_lock, None);
    let none = state
        .handle_object_info_request(ObjectInfoRequest { object_id: 1, request_kind: ObjectInfoRequestKind::PastObjectInfo(7) })
        .unwrap();
    assert_eq!(none.requested_object_reference, None);
    assert_eq!(state.parent(&(1, 1, 1002)), Some(501));
    assert_eq!(state.get_latest_parent_entry(1), Ok(Some(((1, 1, 1002), 501))));
    assert_eq!(
        state.get_parent_iterator(1, None),
        Ok(vec![((1, 0, 1001), 0), ((1, 1, 1002), 501)])
    );
    assert_eq!(state.get_objects(&vec![2, 42]), Ok(vec![Some(b), None]));
    let info = state.handle_transaction_info_request(TransactionInfoRequest { transaction_digest: 501 }).unwrap();
    assert_eq!(info.certified_transaction, Some(cert));
}

#[test]
fn parent_certificate_must_be_known() {
    let mut orphan = owned(1);
    orphan.previous_transaction = 333;
    let mut state = authority(vec![]);
    state.insert_genesis_object(orphan);
    assert_eq!(
        state.handle_object_info_request(ObjectInfoRequest {
            object_id: 1,
            request_kind: ObjectInfoRequestKind::LatestObjectInfo
        }),
        Err(SuiError::CertificateNotfound { certificate_digest: 333 })
    );
}

#[test]
fn consensus_write_lock_is_exclusive() {
    let mut state = authority(vec![]);
    assert!(state.ask_consensus_write_lock());
    assert!(!state.ask_consensus_write_lock());
    state.release_consensus_write_lock();
    assert!(!state.ask_consensus_write_lock());
    state.release_consensus_write_lock();
    state.release_consensus_write_lock();
    assert!(state.ask_consensus_write_lock());
}

#[test]
fn batch_streaming_subscribes_past_the_last_batch() {
    let gas = owned(9);
    let mut state = authority(vec![gas]);
    let tx = transaction(700, vec![], &gas);
    state.handle_transaction(tx.clone(), 1).unwrap();
    confirm(&mut state, &certificate(tx)).unwrap();
    state.seal_batch(&vec![(0, 700)], 21, 31).unwrap();
    let (items, stream) = state.handle_batch_streaming(BatchInfoRequest { start: Some(0), length: 1 }).unwrap();
    assert_eq!(items.len(), 3);
    assert!(stream.is_none());
    let (items, stream) = state.handle_batch_streaming(BatchInfoRequest { start: Some(0), length: 2 }).unwrap();
    assert_eq!(items.len(), 3);
    let mut stream = stream.unwrap();
    assert_eq!(
        stream.on_update(&UpdateItem::Transaction((0, 700))),
        sui_core::authority_batch::StreamStep::Skip
    );
    assert_eq!(
        stream.on_update(&UpdateItem::Transaction((1, 701))),
        sui_core::authority_batch::StreamStep::Forward
    );
    assert_eq!(
        state.handle_batch_streaming(BatchInfoRequest { start: Some(0), length: 0 }).err(),
        Some(SuiError::InvalidSequenceRangeError)
    );
}

#[test]
fn unverified_transactions_do_not_verify() {
    let gas = owned(9);
    let mut tx = transaction(700, vec![], &gas);
    assert_eq!(tx.verify_signature(), Ok(()));
    tx.is_verified = false;
    assert_eq!(tx.verify_signature(), Err(SuiError::SignatureError));
    assert_eq!(tx.input_objects(), vec![InputObjectKind::ImmOrOwnedMoveObject(gas.compute_object_reference())]);
    let both = transaction(
        701,
        vec![InputObjectKind::SharedMoveObject(4), owned_input(&gas), InputObjectKind::SharedMoveObject(2)],
        &gas,
    );
    assert_eq!(both.shared_input_objects(), vec![4, 2]);
    assert!(both.contains_shared_object());
    assert!(!tx.contains_shared_object());
}

#[test]
fn commit_writes_everything_at_once() {
    let (a, b, gas) = (owned(1), owned(2), owned(9));
    let mut state = authority(vec![a, b, gas]);
    let tx = transaction(70, vec![owned_input(&a), owned_input(&b)], &gas);
    state.handle_transaction(tx.clone(), 71).unwrap();
    let cert = certificate(tx);
    let a1 = Object { version: 1, digest: 11, previous_transaction: 70, ..a };
    let created = Object { id: 3, version: 0, digest: 30, previous_transaction: 70, ..a };
    let effects = TransactionEffects {
        transaction_digest: 70,
        status: ExecutionStatus::Failure { reason: 4 },
        gas_used: 3,
        shared_objects: vec![],
        created: vec![(created.compute_object_reference(), created.owner)],
        mutated: vec![(a1.compute_object_reference(), a1.owner)],
        deleted: vec![(2, 1, 0)],
        dependencies: vec![0],
        events: 0,
    }
    .to_sign_effects(EPOCH, NAME, 5);
    let output = AuthorityTemporaryStore { written: vec![a1, created], deleted: vec![(2, 1, 0)] };
    // Effects of another transaction are not taken for those of the certificate.
    let mut foreign = effects.clone();
    foreign.effects.transaction_digest = 71;
    let other = AuthorityTemporaryStore { written: vec![a1], deleted: vec![] };
    assert_eq!(
        state.commit_certificate(cert.clone(), other, foreign),
        Err(SuiError::InvalidTransactionDigest)
    );
    assert_eq!(state.db().get_object(&1), Some(a));
    let response = state.commit_certificate(cert, output, effects.clone()).unwrap();
    // A failed execution is recorded like a successful one.
    assert_eq!(response.signed_effects, Some(effects.clone()));
    let store = state.db();
    assert_eq!(store.get_objects(&vec![1, 2, 3]), vec![Some(a1), None, Some(created)]);
    assert_eq!(store.get_transaction_lock(&a.compute_object_reference()), None);
    assert_eq!(store.get_transaction_lock(&b.compute_object_reference()), None);
    assert_eq!(store.get_transaction_lock(&gas.compute_object_reference()), None);
    assert_eq!(store.get_effects(&70), Some(effects));
    assert!(store.effects_exists(&70));
    assert_eq!(store.parent(&a1.compute_object_reference()), Some(70));
    assert_eq!(store.parent(&(2, 1, 0)), Some(70));
    assert_eq!(store.parent(&a.compute_object_reference()), Some(0));
    assert_eq!(store.executed_transaction(0), Some((0, 70)));
    assert_eq!(store.executed_transaction(1), None);
    assert_eq!(store.next_sequence_number(), 1);
    assert_eq!(store.get_latest_parent_entry(2), Some(((2, 1, 0), 70)));
    assert_eq!(store.get_parent_iterator(2, Some(0)), vec![((2, 0, 1002), 0)]);
    assert_eq!(store.get_parent_iterator(42, None), vec![]);
    assert_eq!(store.get_latest_parent_entry(42), None);
    assert_eq!(store.get_account_objects(ALICE), vec![(1, 1, 11), (3, 0, 30), (9, 0, 1009)]);
    assert_eq!(store.get_account_objects(BOB), vec![]);
}

#[test]
fn a_restarted_authority_continues_its_log() {
    let (a, gas) = (owned(1), owned(9));
    let mut state = authority(vec![a, gas]);
    let tx = transaction(501, vec![owned_input(&a)], &gas);
    state.handle_transaction(tx.clone(), 71).unwrap();
    confirm(&mut state, &certificate(tx.clone())).unwrap();
    let pending = transaction(502, vec![], &state.db().get_object(&9).unwrap());
    state.handle_transaction(pending.clone(), 72).unwrap();
    let store = state.into_store();
    let mut restarted = AuthorityState::new(committee(), NAME, store, &vec![owned(77)], 1, 2);
    // The store is not empty, so the genesis objects are not put in again.
    assert_eq!(restarted.db().get_object(&77), None);
    assert_eq!(restarted.db().last_batch().unwrap().batch.digest, 7);
    assert_eq!(restarted.db().next_sequence_number(), 1);
    let again = restarted.handle_transaction(pending.clone(), 99).unwrap();
    assert_eq!(again.signed_transaction.unwrap().signature, 72);
    match restarted.handle_confirmation_transaction(ConfirmationTransaction::new(certificate(tx))) {
        Ok(ConfirmationStep::AlreadyExecuted(info)) => assert!(info.signed_effects.is_some()),
        other => panic!("{:?}", other),
    }
    confirm(&mut restarted, &certificate(pending)).unwrap();
    assert_eq!(restarted.next_batch_item(1), Some((1, 502)));
}

#[test]
fn an_executed_transaction_is_answered_from_the_store() {
    let (a, gas) = (owned(1), owned(9));
    let mut state = authority(vec![a, gas]);
    let tx = transaction(501, vec![owned_input(&a)], &gas);
    // The certificate was formed by others: this authority never signed the transaction.
    let cert = certificate(tx.clone());
    let input = match state.handle_confirmation_transaction(ConfirmationTransaction::new(cert.clone())) {
        Ok(ConfirmationStep::Execute(input)) => input,
        other => panic!("{:?}", other),
    };
    // The execution leaves the inputs as they are.
    let (_, effects) = execute(&input);
    let untouched = AuthorityTemporaryStore { written: vec![], deleted: vec![] };
    state.commit_certificate(cert.clone(), untouched, effects.clone()).unwrap();
    assert_eq!(state.db().get_object(&1), Some(a));
    let response = state.handle_transaction(tx, 71).unwrap();
    assert_eq!(response.signed_effects, Some(effects));
    assert_eq!(response.certified_transaction, Some(cert));
    assert_eq!(response.signed_transaction, None);
    // Nothing is written: no lock, no signed transaction.
    assert_eq!(state.get_transaction_lock(&a.compute_object_reference()), Ok(None));
    assert_eq!(state.get_transaction_lock(&gas.compute_object_reference()), Ok(None));
    assert!(!state.db().transaction_exists(&501));
    assert_eq!(state.metrics().tx_already_processed, 1);
}

#[test]
fn an_executed_transaction_with_stale_inputs_is_answered_from_the_store() {
    let (a, gas) = (owned(1), owned(9));
    let mut state = authority(vec![a, gas]);
    let tx = transaction(501, vec![owned_input(&a)], &gas);
    let cert = certificate(tx.clone());
    confirm(&mut state, &cert).unwrap();
    assert_eq!(state.db().get_object(&1).unwrap().version, 1);
    let response = state.handle_transaction(tx, 71).unwrap();
    assert!(response.signed_effects.is_some());
    assert_eq!(response.signed_transaction, None);
}

#[test]
fn effects_must_be_signed_by_this_authority_in_its_epoch() {
    let (a, gas) = (owned(1), owned(9));
    let mut state = authority(vec![a, gas]);
    let cert = certificate(transaction(501, vec![owned_input(&a)], &gas));
    let input = match state.handle_confirmation_transaction(ConfirmationTransaction::new(cert.clone())) {
        Ok(ConfirmationStep::Execute(input)) => input,
        other => panic!("{:?}", other),
    };
    let (_, effects) = execute(&input);
    let output = || AuthorityTemporaryStore { written: vec![], deleted: vec![] };
    let mut foreign = effects.clone();
    foreign.authority = NAME + 1;
    assert_eq!(state.commit_certificate(cert.clone(), output(), foreign), Err(SuiError::UnknownSigner));
    let mut late = effects.clone();
    late.epoch = EPOCH + 1;
    assert_eq!(state.commit_certificate(cert.clone(), output(), late), Err(SuiError::WrongEpoch));
    assert!(!state.db().effects_exists(&501));
    let response = state.commit_certificate(cert, output(), effects).unwrap();
    let signed = response.signed_effects.unwrap();
    assert_eq!((signed.authority, signed.epoch), (NAME, EPOCH));
    assert_eq!(signed.effects.transaction_digest, 501);
}

#[test]
fn the_batch_service_is_fed_from_the_log() {
    let gas = owned(9);
    let mut state = authority(vec![gas]);
    let mut service = BatchService::new(2, 0);
    assert_eq!(state.feed_batch_service(&mut service), None);
    let mut current = gas;
    for digest in 700..703u64 {
        let tx = transaction(digest, vec![], &current);
        confirm(&mut state, &certificate(tx)).unwrap();
        current = state.db().get_object(&9).unwrap();
    }
    assert_eq!(
        state.feed_batch_service(&mut service),
        Some(BatchAction { forward: Some((0, 700)), seal: None, exit: false })
    );
    assert_eq!(
        state.feed_batch_service(&mut service),
        Some(BatchAction { forward: Some((1, 701)), seal: Some(vec![(0, 700), (1, 701)]), exit: false })
    );
    assert_eq!(
        state.feed_batch_service(&mut service),
        Some(BatchAction { forward: Some((2, 702)), seal: None, exit: false })
    );
    assert_eq!(state.feed_batch_service(&mut service), None);
    assert_eq!(service.next_sequence_number(), 3);
}
