use sui_core::authority::{AuthorityState, ConfirmationStep};
use sui_core::authority_active::gossip::configurable_batch_action_client::{
    init_configurable_authorities, BatchAction, ConfigurableBatchActionClient, TestBatch,
};
use sui_core::authority_server::{AuthorityServer, Status, MAX_DELAY_MILLIS, MIN_BATCH_SIZE};
use sui_core::authority_store::AuthorityStore;
use sui_core::base_types::ExecutionIndices;
use sui_core::batch::{BatchInfoResponseItem, UpdateItem};
use sui_core::consensus_adapter::{ConsensusListener, ConsensusOutput, MAX_PENDING_CONSENSUS_TRANSACTIONS};
use sui_core::error::SuiError;
use sui_core::messages::{
    AccountInfoRequest, BatchInfoRequest, CertifiedTransaction, InputObjectKind, Transaction,
    TransactionKind,
};
use sui_core::object::{Object, Owner};
use sui_core::rpc_gateway::responses::{
    digest_from_bytes, digest_to_bytes, object_id_from_hex, object_id_to_hex, object_id_to_literal,
    GetObjectInfoResponse, NamedObjectRef, ObjectNotExistsResponse, ObjectRead, ObjectResponse,
    SuiTypeTag,
};
use sui_core::test_utils::{test_authority_states, test_authority_store, test_committee};

#[test]
fn object_ids_are_shown_in_hexadecimal() {
    assert_eq!(object_id_to_hex(0), "0000000000000000");
    assert_eq!(object_id_to_hex(0x1a2b), "0000000000001a2b");
    assert_eq!(object_id_to_hex(u64::MAX), "ffffffffffffffff");
    assert_eq!(object_id_to_literal(0xdeadbeef), "0x00000000deadbeef");
    assert_eq!(object_id_to_literal(0x0123456789abcdef), "0x0123456789abcdef");
}

#[test]
fn object_ids_are_read_from_hexadecimal() {
    assert_eq!(object_id_from_hex("0x1a2b"), Ok(0x1a2b));
    assert_eq!(object_id_from_hex("0x0"), Ok(0));
    assert_eq!(object_id_from_hex("0xFFFFFFFFFFFFFFFF"), Ok(u64::MAX));
    assert_eq!(object_id_from_hex("0123456789ABCDEF"), Ok(0x0123456789abcdef));
    assert_eq!(object_id_from_hex("00000000000000000"), Err(SuiError::ObjectIDParseError));
    assert_eq!(object_id_from_hex("0x10000000000000000"), Err(SuiError::ObjectIDParseError));
    assert_eq!(object_id_from_hex("0x"), Err(SuiError::ObjectIDParseError));
    assert_eq!(object_id_from_hex(""), Err(SuiError::ObjectIDParseError));
    assert_eq!(object_id_from_hex("1a2b"), Err(SuiError::ObjectIDParseError));
    assert_eq!(object_id_from_hex("0x12g4"), Err(SuiError::ObjectIDParseError));
    assert_eq!(object_id_from_hex("0X12"), Err(SuiError::ObjectIDParseError));
    assert_eq!(object_id_from_hex("0x\u{e9}"), Err(SuiError::ObjectIDParseError));
    for id in [0u64, 1, 15, 16, 255, 0xabcdef, u64::MAX - 1, u64::MAX] {
        assert_eq!(object_id_from_hex(&object_id_to_hex(id)), Ok(id));
        assert_eq!(object_id_from_hex(&object_id_to_literal(id)), Ok(id));
    }
}

#[test]
fn digests_have_eight_bytes() {
    assert_eq!(digest_to_bytes(0x0102030405060708), vec![8, 7, 6, 5, 4, 3, 2, 1]);
    assert_eq!(digest_from_bytes(&vec![8, 7, 6, 5, 4, 3, 2, 1]), Ok(0x0102030405060708));
    assert_eq!(digest_from_bytes(&vec![1, 2, 3]), Err(SuiError::InvalidTransactionDigest));
    assert_eq!(digest_from_bytes(&vec![0; 9]), Err(SuiError::InvalidTransactionDigest));
}

#[test]
fn named_object_refs_go_there_and_back() {
    let named = NamedObjectRef::from_object_ref((0x1a2b, 7, 0x0102030405060708));
    assert_eq!(named.object_id(), "0x0000000000001a2b");
    assert_eq!(named.version(), 7);
    assert_eq!(named.digest(), "CAcGBQQDAgE=");
    assert_eq!(named.to_object_ref(), Ok((0x1a2b, 7, 0x0102030405060708)));
    let zero = NamedObjectRef::from_object_ref((0, 0, 0));
    assert_eq!(zero.digest(), "AAAAAAAAAAA=");
    assert_eq!(zero.to_object_ref(), Ok((0, 0, 0)));
}

#[test]
fn malformed_named_object_refs_are_refused() {
    let named = |id: &str, digest: &str| NamedObjectRef::new(id.to_string(), 3, digest.to_string());
    assert_eq!(named("0x1", "CAcGBQQDAgE=").to_object_ref(), Ok((1, 3, 0x0102030405060708)));
    assert_eq!(named("zz", "CAcGBQQDAgE=").to_object_ref(), Err(SuiError::ObjectIDParseError));
    assert_eq!(named("0x1", "not base64!").to_object_ref(), Err(SuiError::Base64Error));
    assert_eq!(named("0x1", "CAcGBQQDAgE").to_object_ref(), Err(SuiError::Base64Error));
    assert_eq!(named("0x1", "AQID").to_object_ref(), Err(SuiError::InvalidTransactionDigest));
    assert_eq!(named("0x1", "").to_object_ref(), Err(SuiError::InvalidTransactionDigest));
    // The identifier is read first.
    assert_eq!(named("zz", "not base64!").to_object_ref(), Err(SuiError::ObjectIDParseError));
    assert_eq!(
        named("0x1", "AQID").with_decoded_digest(Some(vec![1, 0, 0, 0, 0, 0, 0, 0])),
        Ok((1, 3, 1))
    );
    assert_eq!(named("0x1", "AQID").with_decoded_digest(None), Err(SuiError::Base64Error));
}

#[test]
fn object_reads_are_shown() {
    let object = Object { id: 5, version: 2, digest: 1, owner: Owner::Shared, previous_transaction: 44, gas_balance: 0 };
    match GetObjectInfoResponse::from_object_read(ObjectRead::Exists((5, 2, 1), object)) {
        GetObjectInfoResponse::Exists(_) => {}
        other => panic!("{:?}", other),
    }
    assert_eq!(
        GetObjectInfoResponse::from_object_read(ObjectRead::NotExists(255)),
        GetObjectInfoResponse::NotExists(ObjectNotExistsResponse::new(255))
    );
    assert_eq!(ObjectNotExistsResponse::new(255).object_id(), "00000000000000ff");
    assert_eq!(
        GetObjectInfoResponse::from_object_read(ObjectRead::Deleted((5, 3, 0))),
        GetObjectInfoResponse::Deleted(NamedObjectRef::from_object_ref((5, 3, 0)))
    );
    let listed = ObjectResponse { objects: vec![NamedObjectRef::from_object_ref((5, 3, 0))] };
    assert_eq!(listed.objects[0].version(), 3);
    assert_eq!(SuiTypeTag::new("0x2::coin::Coin".to_string()).as_str(), "0x2::coin::Coin");
}

fn shared_certificate(digest: u64) -> CertifiedTransaction {
    CertifiedTransaction {
        transaction: Transaction {
            digest,
            sender: 1,
            kind: TransactionKind::Call,
            inputs: vec![InputObjectKind::SharedMoveObject(5)],
            gas_payment: (9, 0, 0),
            gas_budget: 0,
            tx_signature: 0,
            is_verified: true,
        },
        epoch: 0,
        signatures: vec![(0, 0), (1, 0), (2, 0)],
        is_verified: true,
    }
}

#[test]
fn consensus_listener_is_bounded_and_keeps_the_order() {
    assert_eq!(MAX_PENDING_CONSENSUS_TRANSACTIONS, 1_000_000);
    let mut state = test_authority_states(&vec![]).remove(0);
    let mut listener = ConsensusListener::new(2);
    let output = |digest, n| ConsensusOutput {
        certificate: shared_certificate(digest),
        consensus_index: ExecutionIndices { next_certificate_index: n, next_batch_index: 0, next_transaction_index: 0 },
    };
    assert_eq!(listener.forward_next(&mut state), None);
    assert_eq!(listener.submit(output(81, 1)), Ok(()));
    assert_eq!(listener.submit(output(82, 2)), Ok(()));
    assert_eq!(listener.submit(output(83, 3)), Err(SuiError::ListenerCapacityExceeded));
    assert_eq!(listener.len(), 2);
    assert_eq!(listener.forward_next(&mut state), Some(Ok(())));
    assert_eq!(state.db().get_shared_lock(&81, &5), Some(0));
    assert_eq!(state.db().get_shared_lock(&82, &5), None);
    assert_eq!(listener.submit(output(83, 3)), Ok(()));
    assert_eq!(listener.forward_next(&mut state), Some(Ok(())));
    assert_eq!(listener.forward_next(&mut state), Some(Ok(())));
    assert_eq!(listener.forward_next(&mut state), None);
    assert_eq!(state.db().get_shared_lock(&82, &5), Some(1));
    assert_eq!(state.db().get_shared_lock(&83, &5), Some(2));
    assert_eq!(state.load_execution_indices().unwrap().next_certificate_index, 3);
}

#[test]
fn the_server_lets_no_bad_signature_through() {
    assert_eq!((MIN_BATCH_SIZE, MAX_DELAY_MILLIS), (1000, 5000));
    let gas = Object { id: 9, version: 0, digest: 0, owner: Owner::AddressOwner(1), previous_transaction: 0, gas_balance: 5 };
    let mut state = AuthorityState::new(test_committee(), 0, test_authority_store(), &vec![gas], 0, 0);
    let server = AuthorityServer::new();
    assert_eq!((server.min_batch_size, server.max_delay_millis), (1000, 5000));
    let tx = Transaction {
        digest: 90,
        sender: 1,
        kind: TransactionKind::Transfer,
        inputs: vec![],
        gas_payment: (9, 0, 0),
        gas_budget: 1,
        tx_signature: 0,
        is_verified: false,
    };
    assert_eq!(
        server.transaction(&mut state, tx.clone(), false, 4),
        Err(Status::InvalidArgument(SuiError::SignatureError))
    );
    assert_eq!(state.metrics().tx_orders, 0);
    let response = server.transaction(&mut state, tx.clone(), true, 4).unwrap();
    assert!(response.signed_transaction.unwrap().transaction.is_verified);
    let cert = CertifiedTransaction { transaction: tx, epoch: 0, signatures: vec![(0, 0), (1, 0), (3, 0)], is_verified: false };
    assert_eq!(
        server.confirmation_transaction(&mut state, cert.clone(), false),
        Err(Status::InvalidArgument(SuiError::SignatureError))
    );
    assert!(matches!(
        server.confirmation_transaction(&mut state, cert.clone(), true),
        Ok(ConfirmationStep::Execute(_))
    ));
    let few = CertifiedTransaction { signatures: vec![(0, 0)], ..cert };
    assert_eq!(
        server.confirmation_transaction(&mut state, few, true),
        Err(Status::Internal(SuiError::SignatureError))
    );
    assert_eq!(state.metrics().total_certs, 2);
}

#[test]
fn test_authorities_hold_the_genesis_objects() {
    let object = Object { id: 1, version: 0, digest: 0, owner: Owner::Immutable, previous_transaction: 0, gas_balance: 0 };
    let states = test_authority_states(&vec![object]);
    assert_eq!(states.len(), 4);
    for (i, state) in states.iter().enumerate() {
        assert_eq!(state.name(), i as u64);
        assert_eq!(state.committee().total_votes(), 4);
        assert_eq!(state.committee().weight(&(i as u64)), 1);
        assert_eq!(state.db().get_object(&1), Some(object));
        assert_eq!(state.db().last_batch().unwrap().batch.next_sequence_number, 0);
    }
    assert_eq!(test_committee().weight(&4), 0);
    assert!(test_authority_store().database_is_empty());
}

#[test]
fn a_scripted_stream_emits_transactions_and_batches() {
    let script = vec![
        BatchAction::EmitUpdateItems(TestBatch { start: 1, digests: vec![101, 102, 103] }),
        BatchAction::DoNothing(50),
        BatchAction::EmitUpdateItems(TestBatch { start: 4, digests: vec![104] }),
    ];
    let client = ConfigurableBatchActionClient::new_with_actions(test_committee(), 2, 77, script);
    let items = client.handle_batch_stream(BatchInfoRequest { start: None, length: 0 }).unwrap();
    let shown: Vec<String> = items
        .iter()
        .map(|BatchInfoResponseItem(i)| match i {
            UpdateItem::Transaction((seq, d)) => format!("T{}:{}", seq, d),
            UpdateItem::Batch(b) => format!(
                "B{}..{}/{}<-{:?} by {} sig {}",
                b.batch.initial_sequence_number,
                b.batch.next_sequence_number,
                b.batch.size,
                b.batch.previous_digest,
                b.authority,
                b.signature
            ),
        })
        .collect();
    assert_eq!(
        shown,
        vec![
            "T1:101",
            "T2:102",
            "T3:103",
            "B1..4/3<-Some(0) by 2 sig 77",
            "T4:104",
            "B4..5/1<-Some(4) by 2 sig 77",
        ]
    );
}

#[test]
fn a_script_with_an_empty_batch_cannot_run() {
    let mut client = ConfigurableBatchActionClient::new(test_committee(), 2, 77);
    assert_eq!(client.handle_batch_stream(BatchInfoRequest { start: None, length: 0 }), Ok(vec![]));
    client.register_action_sequence(vec![BatchAction::EmitUpdateItems(TestBatch { start: 1, digests: vec![] })]);
    assert_eq!(
        client.handle_batch_stream(BatchInfoRequest { start: None, length: 0 }),
        Err(SuiError::GenericAuthorityError)
    );
    client.register_action_sequence(vec![BatchAction::EmitUpdateItems(TestBatch {
        start: u64::MAX,
        digests: vec![1],
    })]);
    assert_eq!(
        client.handle_batch_stream(BatchInfoRequest { start: None, length: 0 }),
        Err(SuiError::GenericAuthorityError)
    );
    assert_eq!(
        client.handle_account_info_request(AccountInfoRequest { account: 3 }).unwrap().object_ids,
        vec![]
    );
}

#[test]
fn configurable_authorities_share_a_committee() {
    let script = vec![BatchAction::EmitUpdateItems(TestBatch { start: 1, digests: vec![1, 2, 3] })];
    let clients = init_configurable_authorities(
        &vec![10, 20, 30, 40],
        &vec![1, 2, 3, 4],
        vec![script.clone(), script.clone(), script.clone(), vec![]],
    )
    .unwrap();
    assert_eq!(clients.len(), 4);
    assert_eq!(clients[1].state().name(), 20);
    assert_eq!(clients[1].state().committee().total_votes(), 4);
    assert_eq!(clients[1].state().committee().weight(&40), 1);
    assert_eq!(clients[0].handle_batch_stream(BatchInfoRequest { start: None, length: 1 }).unwrap().len(), 4);
    assert_eq!(clients[3].handle_batch_stream(BatchInfoRequest { start: None, length: 1 }).unwrap().len(), 0);
    assert!(init_configurable_authorities(&vec![10, 10], &vec![1, 2], vec![vec![], vec![]]).is_none());
    assert!(init_configurable_authorities(&vec![10, 20], &vec![1], vec![vec![], vec![]]).is_none());
    assert!(init_configurable_authorities(&vec![10, 20], &vec![1, 2], vec![vec![]]).is_none());
    let unused = AuthorityStore::new();
    assert!(unused.database_is_empty());
}
