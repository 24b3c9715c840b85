//! The genesis of a network: which gas objects the accounts of a
//! configuration start with, and the committee of its authorities.

use vstd::prelude::*;
use crate::base_types::{
    lemma_sorted_refs_elements, ref_le, sort_object_refs, sorted_refs, AuthorityName, ObjectID,
    ObjectRef, SuiAddress,
};
use crate::committee::{
    lemma_sum_of_insert_absent, lemma_sum_of_insert_present, sum_of, Committee,
};
use crate::error::SuiError;
use crate::table::Table;

verus! {

/// The size of the network buffer that a genesis gives a network.
pub const GENESIS_BUFFER_SIZE: usize = 650000;

/// One authority of a configuration.
#[derive(Clone, Copy, Debug, PartialEq, Eq, Structural)]
pub struct AuthorityInfo {
    /// The address of the authority's account.
    pub address: SuiAddress,
    /// The name under which the authority signs.
    pub public_key: AuthorityName,
    /// The voting stake of the authority.
    pub stake: u64,
}

/// One gas object of an account.
#[derive(Clone, Copy, Debug, PartialEq, Eq, Structural)]
pub struct ObjectConfig {
    /// The identifier of the object.
    pub object_id: ObjectID,
    /// The coins that the object holds.
    pub gas_value: u64,
}

/// A run of gas objects of an account with consecutive identifiers.
#[derive(Clone, Copy, Debug, PartialEq, Eq, Structural)]
pub struct ObjectConfigRange {
    /// The first identifier of the run.
    pub offset: ObjectID,
    /// How many objects the run has.
    pub count: u64,
    /// The coins that each object holds.
    pub gas_value: u64,
}

/// One account of a configuration.
#[derive(Debug, PartialEq, Eq)]
pub struct AccountConfig {
    /// The address of the account. An account without one gets a new
    /// address at the genesis.
    pub address: Option<SuiAddress>,
    /// The gas objects of the account, one by one.
    pub gas_objects: Vec<ObjectConfig>,
    /// The gas objects of the account, by runs of identifiers.
    pub gas_object_ranges: Option<Vec<ObjectConfigRange>>,
}

/// The view of an [`AccountConfig`].
pub struct AccountConfigView {
    pub address: Option<SuiAddress>,
    pub gas_objects: Seq<ObjectConfig>,
    pub gas_object_ranges: Option<Seq<ObjectConfigRange>>,
}

impl View for AccountConfig {
    type V = AccountConfigView;

    open spec fn view(&self) -> AccountConfigView {
        AccountConfigView {
            address: self.address,
            gas_objects: self.gas_objects@,
            gas_object_ranges: match self.gas_object_ranges {
                Some(r) => Some(r@),
                None => None,
            },
        }
    }
}

/// The views of a list of accounts.
pub open spec fn account_views(accounts: Seq<AccountConfig>) -> Seq<AccountConfigView> {
    accounts.map_values(|a: AccountConfig| a@)
}

/// A gas object to make at the genesis.
#[derive(Clone, Copy, Debug, PartialEq, Eq, Structural)]
pub struct GasObject {
    /// The identifier of the object.
    pub object_id: ObjectID,
    /// The address that owns the object.
    pub owner: SuiAddress,
    /// The coins that the object holds.
    pub gas_value: u64,
}

/// The gas objects of an account as a map from identifiers to values, and
/// the identifiers that runs have claimed so far.
pub struct Claims {
    /// The value of each gas object of the account.
    pub objects: Map<ObjectID, u64>,
    /// The identifiers that runs have claimed, of this account and of the
    /// accounts before it.
    pub claimed: Set<ObjectID>,
}

/// The claims after the gas objects that an account names one by one have
/// been taken in: each gets its value unless a run has claimed its
/// identifier, a later one over an earlier one of the same identifier.
pub open spec fn itemize(claims: Claims, gas_objects: Seq<ObjectConfig>) -> Claims
    decreases gas_objects.len(),
{
    if gas_objects.len() == 0 {
        claims
    } else {
        let before = itemize(claims, gas_objects.drop_last());
        let q = gas_objects.last();
        if before.claimed.contains(q.object_id) {
            before
        } else {
            Claims { objects: before.objects.insert(q.object_id, q.gas_value), ..before }
        }
    }
}

/// The claims after the first `count` identifiers of a run from `offset` on
/// have been taken in: each gets the value of the run and is claimed, unless
/// the account has the object already or an earlier run has claimed it.
pub open spec fn claim_range(claims: Claims, offset: ObjectID, count: nat, gas_value: u64) -> Claims
    decreases count,
{
    if count == 0 {
        claims
    } else {
        let before = claim_range(claims, offset, (count - 1) as nat, gas_value);
        let id = (offset + count - 1) as ObjectID;
        if before.objects.contains_key(id) || before.claimed.contains(id) {
            before
        } else {
            Claims { objects: before.objects.insert(id, gas_value), claimed: before.claimed.insert(id) }
        }
    }
}

/// The claims after the runs of an account have been taken in, in order.
pub open spec fn claim_ranges(claims: Claims, ranges: Seq<ObjectConfigRange>) -> Claims
    decreases ranges.len(),
{
    if ranges.len() == 0 {
        claims
    } else {
        let r = ranges.last();
        claim_range(claim_ranges(claims, ranges.drop_last()), r.offset, r.count as nat, r.gas_value)
    }
}

/// Whether every identifier of each run exists.
pub open spec fn ranges_fit(ranges: Seq<ObjectConfigRange>) -> bool {
    forall|i: int| 0 <= i < ranges.len() ==> (#[trigger] ranges[i]).offset + ranges[i].count <= u64::MAX + 1
}

/// Whether every identifier of each run of the account exists.
pub open spec fn account_fits(account: AccountConfigView) -> bool {
    account.gas_object_ranges matches Some(ranges) ==> ranges_fit(ranges)
}

/// The gas objects of an account, and what runs have claimed once the
/// account has been taken in.
pub open spec fn account_claims(claimed: Set<ObjectID>, account: AccountConfigView) -> Claims {
    let itemized = itemize(Claims { objects: Map::empty(), claimed }, account.gas_objects);
    match account.gas_object_ranges {
        Some(ranges) => claim_ranges(itemized, ranges),
        None => itemized,
    }
}

/// What runs have claimed once the accounts have been taken in, in order.
#[verifier::opaque]
pub open spec fn claimed_after(accounts: Seq<AccountConfigView>) -> Set<ObjectID>
    decreases accounts.len(),
{
    if accounts.len() == 0 {
        Set::empty()
    } else {
        account_claims(claimed_after(accounts.drop_last()), accounts.last()).claimed
    }
}

/// The gas objects of the account at `k`.
#[verifier::opaque]
pub open spec fn objects_of(accounts: Seq<AccountConfigView>, k: int) -> Map<ObjectID, u64> {
    account_claims(claimed_after(accounts.subrange(0, k)), accounts[k]).objects
}

/// Whether `listing` lists the gas objects `objects` of the account
/// `owner`: each once, in ascending order of the identifiers.
#[verifier::opaque]
pub open spec fn is_listing(listing: Seq<GasObject>, objects: Map<ObjectID, u64>, owner: SuiAddress) -> bool {
    &&& listing.len() == objects.dom().len()
    &&& forall|i: int|
        0 <= i < listing.len() ==> {
            &&& objects.contains_key((#[trigger] listing[i]).object_id)
            &&& listing[i].gas_value == objects[listing[i].object_id]
            &&& listing[i].owner == owner
        }
    &&& forall|i: int, j: int|
        0 <= i < j < listing.len() ==> (#[trigger] listing[i]).object_id < (#[trigger] listing[j]).object_id
}

/// Whether `listing` lists the gas objects of the first `n` accounts: those
/// of each account in turn, in ascending order of the identifiers, each
/// owned by the address of the account. `ends[k]` is where the objects of the
/// account at `k` end.
#[verifier::opaque]
pub open spec fn lists_accounts(
    listing: Seq<GasObject>,
    ends: Seq<int>,
    accounts: Seq<AccountConfigView>,
    addresses: Seq<SuiAddress>,
    n: int,
) -> bool {
    &&& ends.len() == n
    &&& n > 0 ==> ends[n - 1] == listing.len()
    &&& n == 0 ==> listing.len() == 0
    &&& forall|k: int|
        0 <= k < n ==> {
            let start = if k == 0 {
                0
            } else {
                ends[k - 1]
            };
            &&& 0 <= start <= #[trigger] ends[k] <= listing.len()
            &&& is_listing(listing.subrange(start, ends[k]), objects_of(accounts, k), addresses[k])
        }
}

/// Whether `entry` is the entry of `objects` for the key at `j`.
spec fn entry_at(entry: ObjectRef, keys: Seq<ObjectID>, objects: Map<ObjectID, u64>, j: int) -> bool {
    &&& 0 <= j < keys.len()
    &&& objects.contains_key(keys[j])
    &&& entry == (keys[j], objects[keys[j]], 0u64)
}

/// The gas objects `objects` of `owner`, in ascending order of the
/// identifiers.
fn listing_of(objects: &Table<ObjectID, u64>, owner: SuiAddress) -> (r: Vec<GasObject>)
    requires
        objects.wf(),
    ensures
        is_listing(r@, objects@, owner),
{
    let ghost keys = objects.key_seq();
    proof {
        objects.lemma_keys();
    }
    let n = objects.len();
    let mut entries: Vec<ObjectRef> = Vec::new();
    let mut i: usize = 0;
    while i < n
        invariant
            objects.wf(),
            keys == objects.key_seq(),
            keys.no_duplicates(),
            forall|k: ObjectID| keys.contains(k) <==> objects@.contains_key(k),
            n == keys.len(),
            i <= n,
            entries@.len() == i,
            forall|j: int| 0 <= j < i ==> entry_at(#[trigger] entries@[j], keys, objects@, j),
        decreases n - i,
    {
        let key = *objects.key_at(i);
        let value = *objects.value_at(i);
        let ghost before = entries@;
        entries.push((key, value, 0));
        proof {
            assert forall|j: int| 0 <= j < i + 1 implies entry_at(
                #[trigger] entries@[j],
                keys,
                objects@,
                j,
            ) by {
                if j < i {
                    assert(entries@[j] == before[j]);
                }
            }
        }
        i += 1;
    }
    proof {
        assert forall|a: int, b: int| 0 <= a < entries@.len() && 0 <= b < entries@.len() && a
            != b implies entries@[a] != entries@[b] by {
            assert(entry_at(entries@[a], keys, objects@, a));
            assert(entry_at(entries@[b], keys, objects@, b));
            assert(keys[a] != keys[b]);
        }
        lemma_sorted_refs_elements(entries@);
    }
    let sorted = sort_object_refs(entries);
    let mut r: Vec<GasObject> = Vec::new();
    let mut k: usize = 0;
    proof {
        assert forall|j: int| 0 <= j < sorted@.len() implies objects@.contains_key(
            (#[trigger] sorted@[j]).0,
        ) && sorted@[j].1 == objects@[sorted@[j].0] by {
            assert(sorted_refs(entries@).contains(sorted@[j]));
            assert(entries@.contains(sorted@[j]));
            let t = choose|t: int| 0 <= t < entries@.len() && entries@[t] == sorted@[j];
            assert(entry_at(entries@[t], keys, objects@, t));
        }
        assert(sorted@.no_duplicates());
        assert forall|a: int, b: int| 0 <= a < b < sorted@.len() implies (#[trigger] sorted@[a]).0 < (
        #[trigger] sorted@[b]).0 by {
            assert(ref_le(sorted@[a], sorted@[b]));
            assert(sorted@[a] != sorted@[b]);
            assert(sorted_refs(entries@).contains(sorted@[a]));
            assert(sorted_refs(entries@).contains(sorted@[b]));
            assert(entries@.contains(sorted@[a]));
            assert(entries@.contains(sorted@[b]));
            let ta = choose|t: int| 0 <= t < entries@.len() && entries@[t] == sorted@[a];
            let tb = choose|t: int| 0 <= t < entries@.len() && entries@[t] == sorted@[b];
            assert(entry_at(entries@[ta], keys, objects@, ta));
            assert(entry_at(entries@[tb], keys, objects@, tb));
            if sorted@[a].0 == sorted@[b].0 {
                assert(keys[ta] == keys[tb]);
                assert(ta == tb);
            }
        }
    }
    while k < sorted.len()
        invariant
            k <= sorted@.len(),
            r@.len() == k,
            forall|j: int|
                0 <= j < k ==> (#[trigger] r@[j]) == (GasObject {
                    object_id: sorted@[j].0,
                    owner,
                    gas_value: sorted@[j].1,
                }),
        decreases sorted@.len() - k,
    {
        let (object_id, gas_value, _) = sorted[k];
        r.push(GasObject { object_id, owner, gas_value });
        k += 1;
    }
    proof {
        reveal(is_listing);
    }
    r
}

fn itemize_into(
    objects: &mut Table<ObjectID, u64>,
    claimed: &Table<ObjectID, u64>,
    gas_objects: &Vec<ObjectConfig>,
)
    requires
        old(objects).wf(),
        claimed.wf(),
    ensures
        final(objects).wf(),
        (Claims { objects: final(objects)@, claimed: claimed@.dom() }) == itemize(
            Claims { objects: old(objects)@, claimed: claimed@.dom() },
            gas_objects@,
        ),
{
    let ghost start = Claims { objects: objects@, claimed: claimed@.dom() };
    let mut i: usize = 0;
    while i < gas_objects.len()
        invariant
            objects.wf(),
            claimed.wf(),
            i <= gas_objects@.len(),
            start.claimed == claimed@.dom(),
            (Claims { objects: objects@, claimed: claimed@.dom() }) == itemize(
                start,
                gas_objects@.subrange(0, i as int),
            ),
        decreases gas_objects@.len() - i,
    {
        assert(gas_objects@.subrange(0, i + 1).drop_last() == gas_objects@.subrange(0, i as int));
        let q = gas_objects[i];
        if !claimed.contains_key(&q.object_id) {
            objects.insert(q.object_id, q.gas_value);
        }
        i += 1;
    }
    assert(gas_objects@.subrange(0, i as int) == gas_objects@);
}

fn claim_range_into(
    objects: &mut Table<ObjectID, u64>,
    claimed: &mut Table<ObjectID, u64>,
    range: ObjectConfigRange,
)
    requires
        old(objects).wf(),
        old(claimed).wf(),
        range.offset + range.count <= u64::MAX + 1,
    ensures
        final(objects).wf(),
        final(claimed).wf(),
        (Claims { objects: final(objects)@, claimed: final(claimed)@.dom() }) == claim_range(
            Claims { objects: old(objects)@, claimed: old(claimed)@.dom() },
            range.offset,
            range.count as nat,
            range.gas_value,
        ),
{
    let ghost start = Claims { objects: objects@, claimed: claimed@.dom() };
    let mut k: u64 = 0;
    while k < range.count
        invariant
            objects.wf(),
            claimed.wf(),
            k <= range.count,
            range.offset + range.count <= u64::MAX + 1,
            (Claims { objects: objects@, claimed: claimed@.dom() }) == claim_range(
                start,
                range.offset,
                k as nat,
                range.gas_value,
            ),
        decreases range.count - k,
    {
        let id = range.offset + k;
        if !objects.contains_key(&id) && !claimed.contains_key(&id) {
            objects.insert(id, range.gas_value);
            let ghost before = claimed@.dom();
            claimed.insert(id, 0);
            assert(claimed@.dom() =~= before.insert(id));
        }
        k += 1;
    }
}

fn claim_ranges_into(
    objects: &mut Table<ObjectID, u64>,
    claimed: &mut Table<ObjectID, u64>,
    ranges: &Vec<ObjectConfigRange>,
) -> (r: Result<(), SuiError>)
    requires
        old(objects).wf(),
        old(claimed).wf(),
    ensures
        final(objects).wf(),
        final(claimed).wf(),
        match r {
            Ok(_) => ranges_fit(ranges@) && (Claims {
                objects: final(objects)@,
                claimed: final(claimed)@.dom(),
            }) == claim_ranges(
                Claims { objects: old(objects)@, claimed: old(claimed)@.dom() },
                ranges@,
            ),
            Err(e) => !ranges_fit(ranges@) && e == SuiError::ObjectIDRangeError,
        },
{
    let ghost start = Claims { objects: objects@, claimed: claimed@.dom() };
    let mut i: usize = 0;
    while i < ranges.len()
        invariant
            objects.wf(),
            claimed.wf(),
            i <= ranges@.len(),
            ranges_fit(ranges@.subrange(0, i as int)),
            (Claims { objects: objects@, claimed: claimed@.dom() }) == claim_ranges(
                start,
                ranges@.subrange(0, i as int),
            ),
        decreases ranges@.len() - i,
    {
        assert(ranges@.subrange(0, i + 1).drop_last() == ranges@.subrange(0, i as int));
        let range = ranges[i];
        if range.count as u128 + range.offset as u128 > u64::MAX as u128 + 1 {
            assert(!ranges_fit(ranges@));
            return Err(SuiError::ObjectIDRangeError);
        }
        claim_range_into(objects, claimed, range);
        proof {
            assert forall|t: int| 0 <= t < i + 1 implies (#[trigger] ranges@.subrange(0, i + 1)[t]).offset
                + ranges@.subrange(0, i + 1)[t].count <= u64::MAX + 1 by {
                if t < i {
                    assert(ranges@.subrange(0, i as int)[t] == ranges@.subrange(0, i + 1)[t]);
                }
            }
        }
        i += 1;
    }
    assert(ranges@.subrange(0, i as int) == ranges@);
    Ok(())
}

/// Whether `listing` lists the gas objects with which the accounts start:
/// those of each account in turn, in ascending order of the identifiers,
/// each owned by the address of the account.
pub open spec fn is_preload(
    listing: Seq<GasObject>,
    accounts: Seq<AccountConfigView>,
    addresses: Seq<SuiAddress>,
) -> bool {
    exists|ends: Seq<int>| lists_accounts(listing, ends, accounts, addresses, accounts.len() as int)
}

/// The gas objects of one account, in ascending order of the identifiers,
/// owned by `owner`.
fn account_objects(account: &AccountConfig, claimed: &mut Table<ObjectID, u64>, owner: SuiAddress) -> (r:
    Result<Vec<GasObject>, SuiError>)
    requires
        old(claimed).wf(),
    ensures
        final(claimed).wf(),
        match r {
            Ok(listing) => {
                &&& account_fits(account@)
                &&& is_listing(listing@, account_claims(old(claimed)@.dom(), account@).objects, owner)
                &&& final(claimed)@.dom() == account_claims(old(claimed)@.dom(), account@).claimed
            },
            Err(e) => !account_fits(account@) && e == SuiError::ObjectIDRangeError,
        },
{
    let mut objects: Table<ObjectID, u64> = Table::new();
    itemize_into(&mut objects, claimed, &account.gas_objects);
    match &account.gas_object_ranges {
        Some(ranges) => {
            match claim_ranges_into(&mut objects, claimed, ranges) {
                Ok(()) => {},
                Err(e) => {
                    return Err(e);
                },
            }
        },
        None => {},
    }
    Ok(listing_of(&objects, owner))
}

/// A listing of the gas objects of the first `k` accounts, followed by a
/// listing of those of the account at `k`, lists the gas objects of the
/// first `k + 1` accounts.
pub proof fn lemma_lists_one_more_account(
    listing: Seq<GasObject>,
    ends: Seq<int>,
    accounts: Seq<AccountConfigView>,
    addresses: Seq<SuiAddress>,
    k: int,
    segment: Seq<GasObject>,
)
    requires
        0 <= k < accounts.len(),
        lists_accounts(listing, ends, accounts, addresses, k),
        is_listing(segment, objects_of(accounts, k), addresses[k]),
    ensures
        lists_accounts(
            listing + segment,
            ends.push((listing.len() + segment.len()) as int),
            accounts,
            addresses,
            k + 1,
        ),
{
    reveal(lists_accounts);
    let longer = listing + segment;
    let new_ends = ends.push((listing.len() + segment.len()) as int);
    assert forall|t: int| 0 <= t < k + 1 implies {
        let start = if t == 0 {
            0
        } else {
            new_ends[t - 1]
        };
        &&& 0 <= start <= #[trigger] new_ends[t] <= longer.len()
        &&& is_listing(longer.subrange(start, new_ends[t]), objects_of(accounts, t), addresses[t])
    } by {
        let start = if t == 0 {
            0
        } else {
            new_ends[t - 1]
        };
        if t < k {
            let old_start = if t == 0 {
                0
            } else {
                ends[t - 1]
            };
            assert(ends[t] == new_ends[t]);
            assert(0 <= old_start <= ends[t] <= listing.len());
            assert(longer.subrange(start, new_ends[t]) == listing.subrange(old_start, ends[t]));
        } else {
            assert(start == listing.len()) by {
                if k > 0 {
                    assert(ends[k - 1] == listing.len());
                }
            }
            assert(longer.subrange(start, new_ends[t]) == segment);
        }
    }
}

/// The gas objects with which the accounts of a configuration start: for
/// each account in turn its objects in ascending order of the identifiers,
/// owned by the address at its position in `addresses`.
///
/// An account gets the objects that it names one by one, and of the objects
/// of its runs those that it does not name itself. An identifier that a run
/// has claimed goes to no later run and to no later account. There are no
/// objects for a run whose identifiers do not all exist, nor unless each
/// account has its address.
pub fn preload_gas_objects(accounts: &Vec<AccountConfig>, addresses: &Vec<SuiAddress>) -> (r: Result<
    Vec<GasObject>,
    SuiError,
>)
    ensures
        match r {
            Ok(listing) => {
                &&& addresses@.len() == accounts@.len()
                &&& forall|k: int| 0 <= k < accounts@.len() ==> account_fits(#[trigger] accounts@[k]@)
                &&& is_preload(listing@, account_views(accounts@), addresses@)
            },
            Err(e) => if addresses@.len() != accounts@.len() {
                e == SuiError::GenericAuthorityError
            } else {
                &&& e == SuiError::ObjectIDRangeError
                &&& exists|k: int| 0 <= k < accounts@.len() && !account_fits(#[trigger] accounts@[k]@)
            },
        },
{
    let n = accounts.len();
    if addresses.len() != n {
        return Err(SuiError::GenericAuthorityError);
    }
    let ghost all = account_views(accounts@);
    let mut claimed: Table<ObjectID, u64> = Table::new();
    let mut listing: Vec<GasObject> = Vec::new();
    let ghost mut ends: Seq<int> = Seq::empty();
    let mut k: usize = 0;
    proof {
        reveal(claimed_after);
        assert(all.subrange(0, 0) == Seq::<AccountConfigView>::empty());
        assert(claimed@.dom() =~= Set::<ObjectID>::empty());
        assert(lists_accounts(listing@, ends, all, addresses@, 0)) by {
            reveal(lists_accounts);
        }
    }
    while k < n
        invariant
            all == account_views(accounts@),
            n == accounts@.len(),
            addresses@.len() == n,
            k <= n,
            claimed.wf(),
            claimed@.dom() == claimed_after(all.subrange(0, k as int)),
            forall|t: int| 0 <= t < k ==> account_fits(#[trigger] accounts@[t]@),
            lists_accounts(listing@, ends, all, addresses@, k as int),
        decreases n - k,
    {
        proof {
            reveal(objects_of);
            reveal(claimed_after);
            assert(all[k as int] == accounts@[k as int]@);
            assert(all.subrange(0, k + 1).drop_last() == all.subrange(0, k as int));
            assert(all.subrange(0, k + 1).last() == all[k as int]);
            assert(claimed_after(all.subrange(0, k + 1)) == account_claims(
                claimed_after(all.subrange(0, k as int)),
                all[k as int],
            ).claimed);
            assert(objects_of(all, k as int) == account_claims(
                claimed_after(all.subrange(0, k as int)),
                all[k as int],
            ).objects);
        }
        let mut account_listing = match account_objects(&accounts[k], &mut claimed, addresses[k]) {
            Ok(found) => found,
            Err(e) => {
                return Err(e);
            },
        };
        let ghost old_listing = listing@;
        let ghost segment = account_listing@;
        listing.append(&mut account_listing);
        proof {
            lemma_lists_one_more_account(old_listing, ends, all, addresses@, k as int, segment);
            ends = ends.push((old_listing.len() + segment.len()) as int);
        }
        k += 1;
    }
    assert(lists_accounts(listing@, ends, all, addresses@, all.len() as int));
    assert(is_preload(listing@, all, addresses@));
    Ok(listing)
}

/// The committee of a configuration: the authorities of the epoch zero,
/// each with its stake, where the last of several with one name counts.
/// There is none if the stakes that count exceed together what a `u64`
/// holds.
pub fn genesis_committee(authorities: &Vec<AuthorityInfo>) -> (r: Option<Committee>)
    ensures
        match r {
            Some(c) => {
                &&& total_stake(authorities@) <= u64::MAX
                &&& c.wf()
                &&& c@.epoch == 0
                &&& c@.voting_rights == voting_rights(authorities@)
                &&& c@.total_votes == total_stake(authorities@)
            },
            None => total_stake(authorities@) > u64::MAX,
        },
{
    let mut rights: Table<AuthorityName, u64> = Table::new();
    let mut i: usize = 0;
    while i < authorities.len()
        invariant
            rights.wf(),
            i <= authorities@.len(),
            rights@ == voting_rights(authorities@.subrange(0, i as int)),
            sum_of(rights@, rights.key_seq()) == total_stake(authorities@.subrange(0, i as int)),
        decreases authorities@.len() - i,
    {
        let ghost before = rights@;
        let ghost keys = rights.key_seq();
        let info = authorities[i];
        proof {
            assert(authorities@.subrange(0, i + 1).drop_last() == authorities@.subrange(0, i as int));
            assert(authorities@.subrange(0, i + 1).last() == info);
            rights.lemma_keys();
            if before.contains_key(info.public_key) {
                lemma_sum_of_insert_present(before, keys, info.public_key, info.stake);
            } else {
                lemma_sum_of_insert_absent(before, keys, info.public_key, info.stake);
            }
        }
        rights.insert(info.public_key, info.stake);
        assert(keys.push(info.public_key).drop_last() == keys);
        i += 1;
    }
    assert(authorities@.subrange(0, i as int) == authorities@);
    Committee::new(0, rights)
}

/// The stakes of the authorities together, where of several with one name
/// only the last counts.
pub open spec fn total_stake(authorities: Seq<AuthorityInfo>) -> int
    decreases authorities.len(),
{
    if authorities.len() == 0 {
        0
    } else {
        let rights = voting_rights(authorities.drop_last());
        let last = authorities.last();
        let replaced = if rights.contains_key(last.public_key) {
            rights[last.public_key] as int
        } else {
            0
        };
        total_stake(authorities.drop_last()) - replaced + last.stake
    }
}

/// The stakes of the authorities by name, where the last of several with
/// one name counts.
pub open spec fn voting_rights(authorities: Seq<AuthorityInfo>) -> Map<AuthorityName, u64>
    decreases authorities.len(),
{
    if authorities.len() == 0 {
        Map::empty()
    } else {
        voting_rights(authorities.drop_last()).insert(
            authorities.last().public_key,
            authorities.last().stake,
        )
    }
}

} // verus!
