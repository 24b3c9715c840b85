//! Authorities for trying things out.

use vstd::prelude::*;
use crate::authority::{AuthorityMetrics, AuthorityState};
use crate::authority_store::{insert_genesis_objects, AuthorityStore};
use crate::base_types::AuthorityName;
use crate::committee::Committee;
use crate::object::Object;
use crate::table::Table;

verus! {

/// The size of the network buffer of a test authority.
pub const NETWORK_BUFFER_SIZE: usize = 65_000;

/// How many authorities the test committee has.
pub const TEST_COMMITTEE_SIZE: u64 = 4;

/// An empty store.
pub fn test_authority_store() -> (r: AuthorityStore)
    ensures
        r.wf(),
        r@.objects == Map::<crate::base_types::ObjectID, Object>::empty(),
        r@.executed_sequence.len() == 0,
        r@.batches.len() == 0,
{
    AuthorityStore::new()
}

/// The test committee: the authorities `0` to `3` of the epoch zero, each
/// with a stake of one.
pub fn test_committee() -> (r: Committee)
    ensures
        r.wf(),
        r@.epoch == 0,
        r@.total_votes == 4,
        forall|name: AuthorityName| r@.weight(name) == if name < TEST_COMMITTEE_SIZE {
            1u64
        } else {
            0u64
        },
{
    let mut rights: Table<AuthorityName, u64> = Table::new();
    rights.insert(0, 1);
    rights.insert(1, 1);
    rights.insert(2, 1);
    rights.insert(3, 1);
    proof {
        let keys = rights.key_seq();
        assert(keys == seq![0u64, 1u64, 2u64, 3u64]);
        crate::committee::lemma_sum_of_ones(rights@, keys);
    }
    let committee = Committee::new(0, rights);
    committee.unwrap()
}

/// For each member of the test committee, the state of that authority over
/// a store that holds `objects`. Each seals the first batch of its log with
/// its own name as digest and as signature.
pub fn test_authority_states(objects: &Vec<Object>) -> (r: Vec<AuthorityState>)
    ensures
        r@.len() == TEST_COMMITTEE_SIZE,
        forall|i: int|
            0 <= i < r@.len() ==> {
                &&& (#[trigger] r@[i]).wf()
                &&& r@[i]@.name == i
                &&& r@[i]@.committee.epoch == 0
                &&& r@[i]@.committee.total_votes == 4
                &&& r@[i]@.store.objects == insert_genesis_objects(
                    AuthorityStore::empty_view(),
                    objects@,
                ).objects
                &&& r@[i]@.store.executed_sequence.len() == 0
                &&& r@[i]@.metrics == AuthorityMetrics::zero()
            },
{
    let mut authorities: Vec<AuthorityState> = Vec::new();
    let mut name: u64 = 0;
    while name < TEST_COMMITTEE_SIZE
        invariant
            name <= TEST_COMMITTEE_SIZE,
            authorities@.len() == name,
            forall|i: int|
                0 <= i < authorities@.len() ==> {
                    &&& (#[trigger] authorities@[i]).wf()
                    &&& authorities@[i]@.name == i
                    &&& authorities@[i]@.committee.epoch == 0
                    &&& authorities@[i]@.committee.total_votes == 4
                    &&& authorities@[i]@.store.objects == insert_genesis_objects(
                        AuthorityStore::empty_view(),
                        objects@,
                    ).objects
                    &&& authorities@[i]@.store.executed_sequence.len() == 0
                    &&& authorities@[i]@.metrics == AuthorityMetrics::zero()
                },
        decreases TEST_COMMITTEE_SIZE - name,
    {
        let store = test_authority_store();
        let mut state = AuthorityState::new_without_genesis(test_committee(), name, store, name, name);
        proof {
            crate::authority_store::lemma_insert_genesis_objects_frame(state@.store, objects@);
            crate::authority_store::lemma_insert_genesis_objects_frame(
                AuthorityStore::empty_view(),
                objects@,
            );
            crate::authority_store::lemma_insert_genesis_objects_same(
                state@.store,
                AuthorityStore::empty_view(),
                objects@,
            );
        }
        state.insert_genesis_objects_bulk_unsafe(objects);
        authorities.push(state);
        name += 1;
    }
    authorities
}

} // verus!
