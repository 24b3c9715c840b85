//! The committee of an epoch and the check of a certificate against it.

use vstd::prelude::*;
use crate::base_types::{AuthorityName, AuthoritySignature, EpochId};
use crate::error::SuiError;
use crate::messages::{CertifiedTransaction, CertifiedTransactionView};
use crate::table::Table;

verus! {

/// The stake needed for a quorum among a total stake of `total`: more than
/// two thirds of it.
pub open spec fn quorum_threshold_of(total: int) -> int {
    2 * total / 3 + 1
}

/// The stake that `signatures` carry together, where an authority outside
/// the committee carries none.
pub open spec fn total_weight(
    rights: Map<AuthorityName, u64>,
    signatures: Seq<(AuthorityName, AuthoritySignature)>,
) -> int
    decreases signatures.len(),
{
    if signatures.len() == 0 {
        0
    } else {
        let name = signatures.last().0;
        total_weight(rights, signatures.drop_last()) + if rights.contains_key(name) {
            rights[name] as int
        } else {
            0
        }
    }
}

/// The names of those who signed, in the order of their signatures.
pub open spec fn signers(signatures: Seq<(AuthorityName, AuthoritySignature)>) -> Seq<AuthorityName> {
    signatures.map_values(|s: (AuthorityName, AuthoritySignature)| s.0)
}

/// The authorities of an epoch, each with its voting stake.
pub struct Committee {
    epoch: EpochId,
    voting_rights: Table<AuthorityName, u64>,
    total_votes: u64,
}

/// The view of a [`Committee`].
pub struct CommitteeView {
    pub epoch: EpochId,
    pub voting_rights: Map<AuthorityName, u64>,
    pub total_votes: u64,
}

impl CommitteeView {
    /// The stake of `name`, none if it is not a member.
    pub open spec fn weight(&self, name: AuthorityName) -> u64 {
        if self.voting_rights.contains_key(name) {
            self.voting_rights[name]
        } else {
            0
        }
    }

    /// The stake needed for a quorum.
    pub open spec fn quorum_threshold(&self) -> int {
        quorum_threshold_of(self.total_votes as int)
    }

    /// Whether a certificate carries a quorum of this committee: it is of the
    /// committee's epoch, its signatures have been checked, no authority
    /// signed twice, every signer is a member with stake, and together the
    /// signers hold a quorum.
    pub open spec fn certifies(&self, certificate: CertifiedTransactionView) -> bool {
        &&& certificate.epoch == self.epoch
        &&& certificate.is_verified
        &&& signers(certificate.signatures).no_duplicates()
        &&& forall|i: int|
            0 <= i < certificate.signatures.len() ==> self.weight(
                (#[trigger] certificate.signatures[i]).0,
            ) > 0
        &&& total_weight(self.voting_rights, certificate.signatures) >= self.quorum_threshold()
    }
}

/// The stakes of all of `keys` together.
pub open spec fn sum_of(rights: Map<AuthorityName, u64>, keys: Seq<AuthorityName>) -> int
    decreases keys.len(),
{
    if keys.len() == 0 {
        0
    } else {
        sum_of(rights, keys.drop_last()) + rights[keys.last()] as int
    }
}

impl View for Committee {
    type V = CommitteeView;

    closed spec fn view(&self) -> CommitteeView {
        CommitteeView {
            epoch: self.epoch,
            voting_rights: self.voting_rights@,
            total_votes: self.total_votes,
        }
    }
}

impl Committee {
    /// The committee's invariant: the total is the sum of the stakes.
    pub closed spec fn wf(&self) -> bool {
        &&& self.voting_rights.wf()
        &&& self.total_votes as int == sum_of(self.voting_rights@, self.voting_rights.key_seq())
    }

    /// The committee of `epoch` with the given stakes, unless the stakes
    /// together exceed what a `u64` holds.
    pub fn new(epoch: EpochId, voting_rights: Table<AuthorityName, u64>) -> (r: Option<Committee>)
        requires
            voting_rights.wf(),
        ensures
            match r {
                Some(c) => {
                    &&& c.wf()
                    &&& c@.epoch == epoch
                    &&& c@.voting_rights == voting_rights@
                    &&& c@.total_votes as int == sum_of(voting_rights@, voting_rights.key_seq())
                },
                None => sum_of(voting_rights@, voting_rights.key_seq()) > u64::MAX,
            },
    {
        let mut total: u64 = 0;
        let mut i: usize = 0;
        let n = voting_rights.len();
        while i < n
            invariant
                voting_rights.wf(),
                n == voting_rights.key_seq().len(),
                i <= n,
                total as int == sum_of(voting_rights@, voting_rights.key_seq().subrange(0, i as int)),
            decreases n - i,
        {
            let stake = *voting_rights.value_at(i);
            proof {
                let ks = voting_rights.key_seq();
                assert(ks.subrange(0, i + 1).drop_last() == ks.subrange(0, i as int));
                lemma_sum_of_monotone(voting_rights@, ks, i + 1);
            }
            if stake > u64::MAX - total {
                return None;
            }
            total = total + stake;
            i += 1;
        }
        assert(voting_rights.key_seq().subrange(0, i as int) == voting_rights.key_seq());
        Some(Committee { epoch, voting_rights, total_votes: total })
    }

    /// The committee's epoch.
    pub fn epoch(&self) -> (e: EpochId)
        ensures
            e == self@.epoch,
    {
        self.epoch
    }

    /// The stake of `name`, none if it is not a member.
    pub fn weight(&self, name: &AuthorityName) -> (w: u64)
        requires
            self.wf(),
        ensures
            w == self@.weight(*name),
    {
        match self.voting_rights.get(name) {
            Some(w) => *w,
            None => 0,
        }
    }

    /// The stake of all members together.
    pub fn total_votes(&self) -> (t: u64)
        ensures
            t == self@.total_votes,
    {
        self.total_votes
    }

    /// The stake needed for a quorum.
    pub fn quorum_threshold(&self) -> (t: u64)
        ensures
            t as int == self@.quorum_threshold(),
    {
        let total = self.total_votes;
        // 2 * total / 3 + 1, written so that no step exceeds `total`.
        let third = total / 3;
        let rest = total % 3;
        let t = 2 * third + (2 * rest) / 3 + 1;
        assert(t as int == 2 * (total as int) / 3 + 1) by {
            assert(total == 3 * third + rest);
        }
        t
    }
}

/// The stakes of keys that each have a stake of one are as many as the
/// keys.
pub proof fn lemma_sum_of_ones(rights: Map<AuthorityName, u64>, keys: Seq<AuthorityName>)
    requires
        forall|i: int| 0 <= i < keys.len() ==> rights[#[trigger] keys[i]] == 1,
    ensures
        sum_of(rights, keys) == keys.len(),
    decreases keys.len(),
{
    if keys.len() > 0 {
        assert forall|i: int| 0 <= i < keys.drop_last().len() implies rights[#[trigger] keys.drop_last()[i]]
            == 1 by {
            assert(keys.drop_last()[i] == keys[i]);
        }
        lemma_sum_of_ones(rights, keys.drop_last());
        assert(rights[keys[keys.len() - 1]] == 1);
    }
}

/// A stake that is stored for a key outside `keys` does not change the sum
/// over `keys`.
pub proof fn lemma_sum_of_insert_absent(
    rights: Map<AuthorityName, u64>,
    keys: Seq<AuthorityName>,
    key: AuthorityName,
    stake: u64,
)
    requires
        !keys.contains(key),
    ensures
        sum_of(rights.insert(key, stake), keys) == sum_of(rights, keys),
    decreases keys.len(),
{
    if keys.len() > 0 {
        assert forall|i: int| 0 <= i < keys.drop_last().len() implies keys.drop_last()[i] != key by {
            assert(keys[i] == keys.drop_last()[i]);
        }
        lemma_sum_of_insert_absent(rights, keys.drop_last(), key, stake);
        assert(keys[keys.len() - 1] != key);
    }
}

/// A new stake for a key that occurs once in `keys` changes the sum over
/// `keys` by the difference of the stakes.
pub proof fn lemma_sum_of_insert_present(
    rights: Map<AuthorityName, u64>,
    keys: Seq<AuthorityName>,
    key: AuthorityName,
    stake: u64,
)
    requires
        keys.no_duplicates(),
        keys.contains(key),
    ensures
        sum_of(rights.insert(key, stake), keys) == sum_of(rights, keys) - rights[key] + stake,
    decreases keys.len(),
{
    let front = keys.drop_last();
    assert(keys.len() > 0);
    assert forall|a: int, b: int| 0 <= a < front.len() && 0 <= b < front.len() && a != b implies front[a]
        != front[b] by {
        assert(front[a] == keys[a] && front[b] == keys[b]);
    }
    if keys.last() == key {
        assert forall|i: int| 0 <= i < front.len() implies front[i] != key by {
            assert(front[i] == keys[i]);
            assert(keys[keys.len() - 1] == key);
        }
        lemma_sum_of_insert_absent(rights, front, key, stake);
    } else {
        let i = choose|i: int| 0 <= i < keys.len() && keys[i] == key;
        assert(front[i] == key);
        lemma_sum_of_insert_present(rights, front, key, stake);
    }
}

/// A sum over a prefix of the keys is at most the sum over all of them.
pub proof fn lemma_sum_of_monotone(rights: Map<AuthorityName, u64>, keys: Seq<AuthorityName>, i: int)
    requires
        0 <= i <= keys.len(),
    ensures
        sum_of(rights, keys.subrange(0, i)) <= sum_of(rights, keys),
    decreases keys.len() - i,
{
    if i == keys.len() {
        assert(keys.subrange(0, i) == keys);
    } else {
        lemma_sum_of_monotone(rights, keys, i + 1);
        assert(keys.subrange(0, i + 1).drop_last() == keys.subrange(0, i));
    }
}

impl CertifiedTransaction {
    /// Checks the certificate against the committee.
    pub fn verify(&self, committee: &Committee) -> (r: Result<(), SuiError>)
        requires
            committee.wf(),
        ensures
            r == if committee@.certifies(self@) {
                Ok::<(), SuiError>(())
            } else {
                Err::<(), SuiError>(SuiError::SignatureError)
            },
    {
        if self.epoch != committee.epoch() || !self.is_verified {
            return Err(SuiError::SignatureError);
        }
        let n = self.signatures.len();
        let mut weight: u128 = 0;
        let mut i: usize = 0;
        while i < n
            invariant
                committee.wf(),
                n == self.signatures@.len(),
                i <= n,
                weight as int == total_weight(
                    committee@.voting_rights,
                    self.signatures@.subrange(0, i as int),
                ),
                weight <= i * u64::MAX,
                signers(self.signatures@.subrange(0, i as int)).no_duplicates(),
                forall|k: int|
                    0 <= k < i ==> committee@.weight((#[trigger] self.signatures@[k]).0) > 0,
            decreases n - i,
        {
            let name = self.signatures[i].0;
            let w = committee.weight(&name);
            if w == 0 {
                return Err(SuiError::SignatureError);
            }
            let mut j: usize = 0;
            while j < i
                invariant
                    j <= i,
                    i < n,
                    n == self.signatures@.len(),
                    name == self.signatures@[i as int].0,
                    forall|k: int| 0 <= k < j ==> (#[trigger] self.signatures@[k]).0 != name,
                decreases i - j,
            {
                if self.signatures[j].0 == name {
                    proof {
                        let s = signers(self.signatures@);
                        assert(s[j as int] == s[i as int]);
                    }
                    return Err(SuiError::SignatureError);
                }
                j += 1;
            }
            proof {
                let prev = self.signatures@.subrange(0, i as int);
                let next = self.signatures@.subrange(0, i + 1);
                assert(next.drop_last() == prev);
                assert(next.last() == self.signatures@[i as int]);
                assert(signers(next) == signers(prev).push(name));
                assert forall|a: int, b: int|
                    0 <= a < b < signers(next).len() implies signers(next)[a] != signers(next)[b] by {
                    if b < i {
                        assert(signers(prev)[a] != signers(prev)[b]);
                    } else {
                        assert(signers(next)[a] == self.signatures@[a].0);
                    }
                }
                assert(i * u64::MAX + u64::MAX == (i + 1) * u64::MAX) by (nonlinear_arith);
                assert(n * u64::MAX <= usize::MAX * u64::MAX) by (nonlinear_arith)
                    requires
                        n <= usize::MAX,
                ;
                assert((i + 1) * u64::MAX <= n * u64::MAX) by (nonlinear_arith)
                    requires
                        i + 1 <= n,
                ;
            }
            weight = weight + w as u128;
            i += 1;
        }
        assert(self.signatures@.subrange(0, i as int) == self.signatures@);
        if weight >= committee.quorum_threshold() as u128 {
            Ok(())
        } else {
            Err(SuiError::SignatureError)
        }
    }
}

} // verus!
