//! A client of an authority that answers a request for the stream of
//! updates with a scripted stream, for trying out what follows such streams.

use vstd::prelude::*;
use crate::authority::{AuthorityState, AuthorityStateView};
use crate::authority_store::AuthorityStore;
use crate::base_types::{
    AuthorityName, AuthoritySignature, BatchDigest, TransactionDigest, TxSequenceNumber,
};
use crate::batch::{
    AuthorityBatch, AuthorityBatchView, BatchInfoResponseItem, SignedBatch, SignedBatchView,
    UpdateItem, UpdateItemView,
};
use crate::committee::Committee;
use crate::error::SuiError;
use crate::messages::{
    copy_vec, AccountInfoRequest, AccountInfoResponse, BatchInfoRequest, ConfirmationTransaction,
    ObjectInfoRequest, ObjectInfoResponse, Transaction, TransactionInfoRequest,
    TransactionInfoResponse, TransactionInfoResponseView,
};
use crate::table::Table;

verus! {

/// The digest under which a scripted stream seals its first, empty batch.
pub const INITIAL_TEST_BATCH_DIGEST: BatchDigest = 0;

/// A run of transactions that a scripted stream emits and then seals.
#[derive(Debug, PartialEq, Eq)]
pub struct TestBatch {
    /// The sequence number of the first transaction.
    pub start: TxSequenceNumber,
    /// The digests of the transactions.
    pub digests: Vec<TransactionDigest>,
}

impl Clone for TestBatch {
    fn clone(&self) -> (r: Self)
        ensures
            r.start == self.start,
            r.digests@ == self.digests@,
    {
        TestBatch { start: self.start, digests: copy_vec(&self.digests) }
    }
}

/// One step of the script of a stream.
#[derive(Debug, PartialEq, Eq)]
pub enum BatchAction {
    /// Emit nothing for this many milliseconds.
    DoNothing(u64),
    /// Emit the transactions of the batch and then the sealed batch.
    EmitUpdateItems(TestBatch),
}

impl Clone for BatchAction {
    fn clone(&self) -> (r: Self)
        ensures
            action_view(r) == action_view(*self),
    {
        match self {
            BatchAction::DoNothing(d) => BatchAction::DoNothing(*d),
            BatchAction::EmitUpdateItems(b) => BatchAction::EmitUpdateItems(b.clone()),
        }
    }
}

/// What a step of a script emits: nothing, or transactions from a sequence
/// number on.
pub open spec fn action_view(action: BatchAction) -> Option<(TxSequenceNumber, Seq<TransactionDigest>)> {
    match action {
        BatchAction::DoNothing(_) => None,
        BatchAction::EmitUpdateItems(b) => Some((b.start, b.digests@)),
    }
}

/// The views of the steps of a script.
pub open spec fn action_views(actions: Seq<BatchAction>) -> Seq<
    Option<(TxSequenceNumber, Seq<TransactionDigest>)>,
> {
    actions.map_values(|a: BatchAction| action_view(a))
}

/// The transactions of a scripted batch, each with its sequence number.
pub open spec fn numbered(start: TxSequenceNumber, digests: Seq<TransactionDigest>) -> Seq<
    (TxSequenceNumber, TransactionDigest),
> {
    Seq::new(digests.len(), |i: int| ((start + i) as TxSequenceNumber, digests[i]))
}

/// Whether a scripted batch can be emitted: it holds a transaction, and its
/// sequence numbers exist.
pub open spec fn can_emit(start: TxSequenceNumber, digests: Seq<TransactionDigest>) -> bool {
    digests.len() > 0 && start + digests.len() <= u64::MAX
}

/// The batch that a scripted stream seals after it has emitted `digests`
/// from `start` on. A scripted stream names a batch by the sequence number
/// after it.
pub open spec fn sealed_test_batch(
    previous: AuthorityBatchView,
    start: TxSequenceNumber,
    digests: Seq<TransactionDigest>,
    name: AuthorityName,
    secret: AuthoritySignature,
) -> SignedBatchView {
    SignedBatchView {
        batch: AuthorityBatchView::make_next(
            previous,
            numbered(start, digests),
            (start + digests.len()) as BatchDigest,
        ),
        authority: name,
        signature: secret,
    }
}

/// The last batch after the steps `actions`, starting from `initial`.
pub open spec fn last_test_batch(
    initial: AuthorityBatchView,
    actions: Seq<Option<(TxSequenceNumber, Seq<TransactionDigest>)>>,
    name: AuthorityName,
    secret: AuthoritySignature,
) -> AuthorityBatchView
    decreases actions.len(),
{
    if actions.len() == 0 {
        initial
    } else {
        let previous = last_test_batch(initial, actions.drop_last(), name, secret);
        match actions.last() {
            None => previous,
            Some((start, digests)) => sealed_test_batch(previous, start, digests, name, secret).batch,
        }
    }
}

/// What a scripted stream emits for the steps `actions`: for each batch of
/// the script its transactions, numbered from its start, and then the
/// batch, sealed and linked to the batch before it.
pub open spec fn stream_items(
    initial: AuthorityBatchView,
    actions: Seq<Option<(TxSequenceNumber, Seq<TransactionDigest>)>>,
    name: AuthorityName,
    secret: AuthoritySignature,
) -> Seq<UpdateItemView>
    decreases actions.len(),
{
    if actions.len() == 0 {
        Seq::empty()
    } else {
        let before = stream_items(initial, actions.drop_last(), name, secret);
        let previous = last_test_batch(initial, actions.drop_last(), name, secret);
        match actions.last() {
            None => before,
            Some((start, digests)) => before + numbered(start, digests).map_values(
                |t: (TxSequenceNumber, TransactionDigest)| UpdateItemView::Transaction(t),
            ) + seq![
                UpdateItemView::Batch(sealed_test_batch(previous, start, digests, name, secret)),
            ],
        }
    }
}

/// Whether every batch of the script can be emitted.
pub open spec fn script_can_run(actions: Seq<Option<(TxSequenceNumber, Seq<TransactionDigest>)>>) -> bool {
    forall|i: int|
        0 <= i < actions.len() ==> (#[trigger] actions[i] matches Some((start, digests)) ==> can_emit(
            start,
            digests,
        ))
}

/// The views of the items of a stream.
pub open spec fn response_views(items: Seq<BatchInfoResponseItem>) -> Seq<UpdateItemView> {
    items.map_values(|i: BatchInfoResponseItem| i.0@)
}

/// A client with a script.
pub struct ConfigurableBatchActionClient {
    state: AuthorityState,
    secret: AuthoritySignature,
    /// The script of the stream of updates.
    action_sequence: Vec<BatchAction>,
}

impl ConfigurableBatchActionClient {
    /// The client's invariant: its authority is well formed.
    pub closed spec fn wf(&self) -> bool {
        self.state.wf()
    }

    /// The state of the client's authority.
    pub closed spec fn state_view(&self) -> AuthorityStateView {
        self.state@
    }

    /// The token with which the client signs.
    pub closed spec fn secret(&self) -> AuthoritySignature {
        self.secret
    }

    /// The script of the client.
    pub closed spec fn script(&self) -> Seq<Option<(TxSequenceNumber, Seq<TransactionDigest>)>> {
        action_views(self.action_sequence@)
    }

    /// A client over a fresh authority `address` of `committee` that signs
    /// with `secret`, without a script.
    pub fn new(committee: Committee, address: AuthorityName, secret: AuthoritySignature) -> (r: Self)
        requires
            committee.wf(),
        ensures
            r.wf(),
            r.secret() == secret,
            r.script() == Seq::<Option<(TxSequenceNumber, Seq<TransactionDigest>)>>::empty(),
            r.state_view().name == address,
            r.state_view().committee == committee@,
            r.state_view().store.objects == Map::<crate::base_types::ObjectID, crate::object::Object>::empty(),
            r.state_view().store.transaction_lock == Map::<
                crate::base_types::ObjectRef,
                TransactionDigest,
            >::empty(),
    {
        let state = AuthorityState::new_without_genesis(
            committee,
            address,
            AuthorityStore::new(),
            INITIAL_TEST_BATCH_DIGEST,
            secret,
        );
        let r = ConfigurableBatchActionClient { state, secret, action_sequence: Vec::new() };
        assert(r.script() == Seq::<Option<(TxSequenceNumber, Seq<TransactionDigest>)>>::empty());
        r
    }

    /// A client over a fresh authority with the script `actions`.
    pub fn new_with_actions(
        committee: Committee,
        address: AuthorityName,
        secret: AuthoritySignature,
        actions: Vec<BatchAction>,
    ) -> (r: Self)
        requires
            committee.wf(),
        ensures
            r.wf(),
            r.secret() == secret,
            r.script() == action_views(actions@),
            r.state_view().name == address,
            r.state_view().committee == committee@,
    {
        let mut client = Self::new(committee, address, secret);
        client.register_action_sequence(actions);
        client
    }

    /// Gives the client the script `action_sequence`.
    pub fn register_action_sequence(&mut self, action_sequence: Vec<BatchAction>)
        ensures
            final(self).script() == action_views(action_sequence@),
            final(self).state_view() == old(self).state_view(),
            final(self).secret() == old(self).secret(),
            old(self).wf() ==> final(self).wf(),
    {
        self.action_sequence = action_sequence;
    }

    /// The authority of the client.
    pub fn state(&self) -> (r: &AuthorityState)
        ensures
            r@ == self.state_view(),
            self.wf() ==> r.wf(),
    {
        &self.state
    }

    /// Hands the transaction to the client's authority.
    pub fn handle_transaction(&mut self, transaction: Transaction, signature: AuthoritySignature) -> (r:
        Result<TransactionInfoResponse, SuiError>)
        requires
            old(self).wf(),
        ensures
            final(self).wf(),
            crate::authority::response_view(r) == old(self).state_view().handle_transaction(
                transaction@,
                signature,
            ).0,
            final(self).state_view() == old(self).state_view().handle_transaction(
                transaction@,
                signature,
            ).1,
            final(self).script() == old(self).script(),
            final(self).secret() == old(self).secret(),
    {
        self.state.handle_transaction(transaction, signature)
    }

    /// Answers that nothing is known of the transaction.
    pub fn handle_confirmation_transaction(&self, _transaction: ConfirmationTransaction) -> (r: Result<
        TransactionInfoResponse,
        SuiError,
    >)
        ensures
            r matches Ok(response) && response@ == (TransactionInfoResponseView {
                signed_transaction: None,
                certified_transaction: None,
                signed_effects: None,
            }),
    {
        Ok(
            TransactionInfoResponse {
                signed_transaction: None,
                certified_transaction: None,
                signed_effects: None,
            },
        )
    }

    /// Answers that the account owns nothing.
    pub fn handle_account_info_request(&self, request: AccountInfoRequest) -> (r: Result<
        AccountInfoResponse,
        SuiError,
    >)
        ensures
            r matches Ok(response) && response.object_ids@.len() == 0 && response.owner == request.account,
    {
        Ok(AccountInfoResponse { object_ids: Vec::new(), owner: request.account })
    }

    /// Answers that nothing is known of the object.
    pub fn handle_object_info_request(&self, _request: ObjectInfoRequest) -> (r: Result<
        ObjectInfoResponse,
        SuiError,
    >)
        ensures
            r matches Ok(response) && response.parent_certificate is None
                && response.requested_object_reference is None && response.object_and_lock is None,
    {
        Ok(
            ObjectInfoResponse {
                parent_certificate: None,
                requested_object_reference: None,
                object_and_lock: None,
            },
        )
    }

    /// Answers that nothing is known of the transaction.
    pub fn handle_transaction_info_request(&self, _request: TransactionInfoRequest) -> (r: Result<
        TransactionInfoResponse,
        SuiError,
    >)
        ensures
            r matches Ok(response) && response@ == (TransactionInfoResponseView {
                signed_transaction: None,
                certified_transaction: None,
                signed_effects: None,
            }),
    {
        Ok(
            TransactionInfoResponse {
                signed_transaction: None,
                certified_transaction: None,
                signed_effects: None,
            },
        )
    }

    /// Answers a request for the stream of updates with the stream of the
    /// script, whatever the request: for each batch of the script its
    /// transactions and then the sealed batch. The first batch is linked to
    /// the empty batch at the start of a log. A script with a batch that
    /// holds no transaction, or whose sequence numbers do not exist, cannot
    /// be run.
    pub fn handle_batch_stream(&self, _request: BatchInfoRequest) -> (r: Result<
        Vec<BatchInfoResponseItem>,
        SuiError,
    >)
        requires
            self.wf(),
        ensures
            match r {
                Ok(items) => script_can_run(self.script()) && response_views(items@) == stream_items(
                    AuthorityBatchView::initial(INITIAL_TEST_BATCH_DIGEST),
                    self.script(),
                    self.state_view().name,
                    self.secret(),
                ),
                Err(e) => !script_can_run(self.script()) && e == SuiError::GenericAuthorityError,
            },
    {
        let ghost script = self.script();
        let ghost initial = AuthorityBatchView::initial(INITIAL_TEST_BATCH_DIGEST);
        let name = self.state.name();
        let secret = self.secret;
        let mut last_batch = AuthorityBatch::initial(INITIAL_TEST_BATCH_DIGEST);
        let mut items: Vec<BatchInfoResponseItem> = Vec::new();
        let n = self.action_sequence.len();
        let mut k: usize = 0;
        assert(script.subrange(0, 0) == Seq::<Option<(TxSequenceNumber, Seq<TransactionDigest>)>>::empty());
        assert(response_views(items@) == Seq::<UpdateItemView>::empty());
        while k < n
            invariant
                script == action_views(self.action_sequence@),
                n == script.len(),
                k <= n,
                name == self.state_view().name,
                initial == AuthorityBatchView::initial(INITIAL_TEST_BATCH_DIGEST),
                script_can_run(script.subrange(0, k as int)),
                last_batch@ == last_test_batch(initial, script.subrange(0, k as int), name, secret),
                response_views(items@) == stream_items(initial, script.subrange(0, k as int), name, secret),
            decreases n - k,
        {
            proof {
                assert(script.subrange(0, k + 1).drop_last() == script.subrange(0, k as int));
                assert(script.subrange(0, k + 1).last() == script[k as int]);
                assert(script[k as int] == action_view(self.action_sequence@[k as int]));
            }
            match &self.action_sequence[k] {
                BatchAction::DoNothing(_) => {
                    proof {
                        assert forall|i: int| 0 <= i < k + 1 implies (#[trigger] script.subrange(0, k + 1)[i]
                            matches Some((start, digests)) ==> can_emit(start, digests)) by {
                            if i < k {
                                assert(script.subrange(0, k as int)[i] == script.subrange(0, k + 1)[i]);
                            }
                        }
                    }
                },
                BatchAction::EmitUpdateItems(test_batch) => {
                    let start = test_batch.start;
                    let count = test_batch.digests.len();
                    if count == 0 || count as u128 > (u64::MAX - start) as u128 {
                        proof {
                            assert(!can_emit(start, test_batch.digests@));
                            assert(!script_can_run(script)) by {
                                assert(script[k as int] == Some((start, test_batch.digests@)));
                            }
                        }
                        return Err(SuiError::GenericAuthorityError);
                    }
                    let ghost before = response_views(items@);
                    let mut transactions: Vec<(TxSequenceNumber, TransactionDigest)> = Vec::new();
                    let mut j: usize = 0;
                    while j < count
                        invariant
                            count == test_batch.digests@.len(),
                            start + count <= u64::MAX,
                            j <= count,
                            transactions@ == numbered(start, test_batch.digests@).subrange(0, j as int),
                            response_views(items@) == before + numbered(
                                start,
                                test_batch.digests@,
                            ).subrange(0, j as int).map_values(
                                |t: (TxSequenceNumber, TransactionDigest)| UpdateItemView::Transaction(t),
                            ),
                        decreases count - j,
                    {
                        let item = (start + j as u64, test_batch.digests[j]);
                        let ghost shown = response_views(items@);
                        transactions.push(item);
                        items.push(BatchInfoResponseItem(UpdateItem::Transaction(item)));
                        proof {
                            let all = numbered(start, test_batch.digests@);
                            assert(all[j as int] == item);
                            assert(all.subrange(0, j + 1) == all.subrange(0, j as int).push(item));
                            assert(response_views(items@) == shown.push(
                                UpdateItemView::Transaction(item),
                            ));
                            assert(all.subrange(0, j + 1).map_values(
                                |t: (TxSequenceNumber, TransactionDigest)| UpdateItemView::Transaction(t),
                            ) == all.subrange(0, j as int).map_values(
                                |t: (TxSequenceNumber, TransactionDigest)| UpdateItemView::Transaction(t),
                            ).push(UpdateItemView::Transaction(item)));
                        }
                        j += 1;
                    }
                    proof {
                        let all = numbered(start, test_batch.digests@);
                        assert(all.subrange(0, count as int) == all);
                        assert(all.last().0 == start + count - 1);
                    }
                    let new_batch = AuthorityBatch::make_next(
                        &last_batch,
                        &transactions,
                        start + count as u64,
                    );
                    last_batch = new_batch.unwrap();
                    let ghost shown = response_views(items@);
                    let signed = SignedBatch::new(last_batch.clone(), secret, name);
                    let ghost signed_view = signed@;
                    items.push(BatchInfoResponseItem(UpdateItem::Batch(signed)));
                    proof {
                        assert(response_views(items@) == shown.push(UpdateItemView::Batch(signed_view)));
                        assert(shown.push(UpdateItemView::Batch(signed_view)) == shown + seq![
                            UpdateItemView::Batch(signed_view),
                        ]);
                        assert forall|i: int| 0 <= i < k + 1 implies (#[trigger] script.subrange(0, k + 1)[i]
                            matches Some((start, digests)) ==> can_emit(start, digests)) by {
                            if i < k {
                                assert(script.subrange(0, k as int)[i] == script.subrange(0, k + 1)[i]);
                            }
                        }
                    }
                },
            }
            k += 1;
        }
        assert(script.subrange(0, k as int) == script);
        Ok(items)
    }
}

/// For each of `names` a client over a fresh authority of the committee in
/// which each of `names` has a stake of one, with the script at its
/// position in `authority_actions` and the secret at its position in
/// `secrets`. There is none unless the names are distinct and each has a
/// script and a secret.
pub fn init_configurable_authorities(
    names: &Vec<AuthorityName>,
    secrets: &Vec<AuthoritySignature>,
    authority_actions: Vec<Vec<BatchAction>>,
) -> (r: Option<Vec<ConfigurableBatchActionClient>>)
    ensures
        match r {
            Some(clients) => {
                &&& names@.no_duplicates()
                &&& secrets@.len() == names@.len()
                &&& authority_actions@.len() == names@.len()
                &&& clients@.len() == names@.len()
                &&& forall|i: int|
                    0 <= i < clients@.len() ==> {
                        &&& (#[trigger] clients@[i]).wf()
                        &&& clients@[i].state_view().name == names@[i]
                        &&& clients@[i].secret() == secrets@[i]
                        &&& clients@[i].script() == action_views(authority_actions@[i]@)
                        &&& clients@[i].state_view().committee.epoch == 0
                        &&& clients@[i].state_view().committee.total_votes == names@.len()
                        &&& forall|j: int|
                            0 <= j < names@.len() ==> clients@[i].state_view().committee.weight(
                                #[trigger] names@[j],
                            ) == 1
                    }
            },
            None => !names@.no_duplicates() || secrets@.len() != names@.len() || authority_actions@.len()
                != names@.len(),
        },
{
    let n = names.len();
    if secrets.len() != n || authority_actions.len() != n {
        return None;
    }
    if !distinct(names) {
        return None;
    }
    let mut actions = authority_actions;
    let mut clients: Vec<ConfigurableBatchActionClient> = Vec::new();
    let mut i: usize = 0;
    while i < n
        invariant
            n == names@.len(),
            secrets@.len() == n,
            actions@.len() == n,
            authority_actions@.len() == n,
            names@.no_duplicates(),
            i <= n,
            clients@.len() == i,
            forall|t: int| i <= t < n ==> actions@[t] == authority_actions@[t],
            forall|t: int|
                0 <= t < i ==> {
                    &&& (#[trigger] clients@[t]).wf()
                    &&& clients@[t].state_view().name == names@[t]
                    &&& clients@[t].secret() == secrets@[t]
                    &&& clients@[t].script() == action_views(authority_actions@[t]@)
                    &&& clients@[t].state_view().committee.epoch == 0
                    &&& clients@[t].state_view().committee.total_votes == names@.len()
                    &&& forall|j: int|
                        0 <= j < names@.len() ==> clients@[t].state_view().committee.weight(
                            #[trigger] names@[j],
                        ) == 1
                },
        decreases n - i,
    {
        let committee = equal_committee(names);
        let mut script: Vec<BatchAction> = Vec::new();
        std::mem::swap(&mut script, &mut actions[i]);
        let client = ConfigurableBatchActionClient::new_with_actions(
            committee,
            names[i],
            secrets[i],
            script,
        );
        clients.push(client);
        i += 1;
    }
    Some(clients)
}

/// Whether no name occurs twice.
fn distinct(names: &Vec<AuthorityName>) -> (b: bool)
    ensures
        b == names@.no_duplicates(),
{
    let n = names.len();
    let mut i: usize = 0;
    while i < n
        invariant
            n == names@.len(),
            i <= n,
            forall|a: int, b: int| 0 <= a < b < i ==> names@[a] != names@[b],
        decreases n - i,
    {
        let mut j: usize = 0;
        while j < i
            invariant
                n == names@.len(),
                i < n,
                j <= i,
                forall|a: int| 0 <= a < j ==> names@[a] != names@[i as int],
            decreases i - j,
        {
            if names[j] == names[i] {
                return false;
            }
            j += 1;
        }
        i += 1;
    }
    true
}

/// The committee of the epoch zero in which each of `names` has a stake of
/// one.
fn equal_committee(names: &Vec<AuthorityName>) -> (r: Committee)
    requires
        names@.no_duplicates(),
    ensures
        r.wf(),
        r@.epoch == 0,
        r@.total_votes == names@.len(),
        forall|j: int| 0 <= j < names@.len() ==> r@.weight(#[trigger] names@[j]) == 1,
{
    let mut rights: Table<AuthorityName, u64> = Table::new();
    let n = names.len();
    let mut i: usize = 0;
    while i < n
        invariant
            n == names@.len(),
            names@.no_duplicates(),
            i <= n,
            rights.wf(),
            rights.key_seq() == names@.subrange(0, i as int),
            forall|j: int| 0 <= j < i ==> rights@.contains_key(#[trigger] names@[j]) && rights@[names@[j]] == 1,
            forall|k: AuthorityName| rights@.contains_key(k) ==> names@.subrange(0, i as int).contains(k),
        decreases n - i,
    {
        proof {
            if rights@.contains_key(names@[i as int]) {
                let t = choose|t: int|
                    0 <= t < i && names@.subrange(0, i as int)[t] == names@[i as int];
                assert(names@[t] == names@[i as int]);
            }
            assert(names@.subrange(0, i + 1) == names@.subrange(0, i as int).push(names@[i as int]));
        }
        rights.insert(names[i], 1);
        proof {
            assert forall|k: AuthorityName| rights@.contains_key(k) implies names@.subrange(
                0,
                i + 1,
            ).contains(k) by {
                crate::authority_store::lemma_prefix_contains(names@, i as int, k);
            }
        }
        i += 1;
    }
    proof {
        assert(names@.subrange(0, n as int) == names@);
        assert forall|t: int| 0 <= t < rights.key_seq().len() implies rights@[#[trigger] rights.key_seq()[t]]
            == 1 by {
            assert(rights.key_seq()[t] == names@[t]);
        }
        crate::committee::lemma_sum_of_ones(rights@, rights.key_seq());
    }
    let committee = Committee::new(0, rights);
    committee.unwrap()
}

} // verus!
