//! What a wallet decides by itself: which of its addresses is active, and
//! which gas object pays for a transaction.

use vstd::prelude::*;
use crate::base_types::{ObjectID, SuiAddress};

verus! {

/// The addresses that a wallet manages.
#[derive(Debug, PartialEq, Eq)]
pub struct WalletConfig {
    /// The managed addresses.
    pub accounts: Vec<SuiAddress>,
    /// The address in use, once one has been chosen.
    pub active_address: Option<SuiAddress>,
}

/// What a wallet works with.
#[derive(Debug, PartialEq, Eq)]
pub struct WalletContext {
    /// The addresses of the wallet.
    pub config: WalletConfig,
}

/// Whether the gas object at `i` can pay: it holds at least the budget and
/// is not forbidden.
pub open spec fn can_pay(
    gas_objects: Seq<(u64, ObjectID)>,
    budget: u64,
    forbidden: Seq<ObjectID>,
    i: int,
) -> bool {
    0 <= i < gas_objects.len() && gas_objects[i].0 >= budget && !forbidden.contains(gas_objects[i].1)
}

impl WalletContext {
    /// A wallet with the given addresses.
    pub fn new(config: WalletConfig) -> (r: Self)
        ensures
            r.config == config,
    {
        WalletContext { config }
    }

    /// The address in use. Where none has been chosen yet, the first managed
    /// address becomes the one in use. There is none if the wallet manages
    /// no address.
    pub fn active_address(&mut self) -> (r: Option<SuiAddress>)
        ensures
            final(self).config.accounts == old(self).config.accounts,
            if old(self).config.accounts@.len() == 0 {
                r is None && final(self).config.active_address == old(self).config.active_address
            } else {
                r == Some(
                    match old(self).config.active_address {
                        Some(a) => a,
                        None => old(self).config.accounts@[0],
                    },
                ) && final(self).config.active_address == r
            },
    {
        if self.config.accounts.len() == 0 {
            return None;
        }
        let active = match self.config.active_address {
            Some(a) => a,
            None => self.config.accounts[0],
        };
        self.config.active_address = Some(active);
        Some(active)
    }

    /// Makes `address` the address in use, if the wallet manages it.
    pub fn switch(&mut self, address: SuiAddress) -> (managed: bool)
        ensures
            managed == old(self).config.accounts@.contains(address),
            final(self).config.accounts == old(self).config.accounts,
            final(self).config.active_address == if managed {
                Some(address)
            } else {
                old(self).config.active_address
            },
    {
        let mut i: usize = 0;
        while i < self.config.accounts.len()
            invariant
                *self == *old(self),
                i <= self.config.accounts@.len(),
                forall|j: int| 0 <= j < i ==> self.config.accounts@[j] != address,
            decreases self.config.accounts@.len() - i,
        {
            if self.config.accounts[i] == address {
                self.config.active_address = Some(address);
                return true;
            }
            i += 1;
        }
        false
    }

    /// The first of the gas objects, each given with its value, that holds at
    /// least the budget and is not forbidden.
    pub fn gas_for_owner_budget(
        &self,
        gas_objects: &Vec<(u64, ObjectID)>,
        budget: u64,
        forbidden_gas_objects: &Vec<ObjectID>,
    ) -> (r: Option<(u64, ObjectID)>)
        ensures
            match r {
                Some(found) => exists|i: int|
                    {
                        &&& #[trigger] can_pay(gas_objects@, budget, forbidden_gas_objects@, i)
                        &&& gas_objects@[i] == found
                        &&& forall|j: int|
                            0 <= j < i ==> !can_pay(gas_objects@, budget, forbidden_gas_objects@, j)
                    },
                None => forall|i: int| !can_pay(gas_objects@, budget, forbidden_gas_objects@, i),
            },
    {
        let mut i: usize = 0;
        while i < gas_objects.len()
            invariant
                i <= gas_objects@.len(),
                forall|j: int| 0 <= j < i ==> !can_pay(gas_objects@, budget, forbidden_gas_objects@, j),
            decreases gas_objects@.len() - i,
        {
            let o = gas_objects[i];
            if o.0 >= budget && !contains(forbidden_gas_objects, o.1) {
                assert(can_pay(gas_objects@, budget, forbidden_gas_objects@, i as int));
                return Some(o);
            }
            i += 1;
        }
        None
    }
}

fn contains(ids: &Vec<ObjectID>, id: ObjectID) -> (b: bool)
    ensures
        b == ids@.contains(id),
{
    let mut i: usize = 0;
    while i < ids.len()
        invariant
            i <= ids@.len(),
            forall|j: int| 0 <= j < i ==> ids@[j] != id,
        decreases ids@.len() - i,
    {
        if ids[i] == id {
            return true;
        }
        i += 1;
    }
    false
}

} // verus!
