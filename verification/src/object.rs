//! Objects and their owners.

use vstd::prelude::*;
use crate::base_types::{ObjectDigest, ObjectID, ObjectRef, SequenceNumber, SuiAddress, TransactionDigest};

verus! {

/// Who may use an object as a transaction input.
#[derive(Clone, Copy, Debug, PartialEq, Eq, Structural)]
pub enum Owner {
    /// Owned by one address: only that address may mutate it, under a lock of
    /// this authority.
    AddressOwner(SuiAddress),
    /// Shared: anyone may mutate it, in the order that consensus decides.
    Shared,
    /// Immutable: anyone may read it and nobody locks it.
    Immutable,
}

/// The latest state of one object.
#[derive(Clone, Copy, Debug, PartialEq, Eq, Structural)]
pub struct Object {
    /// The object's identifier.
    pub id: ObjectID,
    /// The current version.
    pub version: SequenceNumber,
    /// The digest of the current content.
    pub digest: ObjectDigest,
    /// The current owner.
    pub owner: Owner,
    /// The transaction that produced this version.
    pub previous_transaction: TransactionDigest,
    /// The coins that the object holds, from which gas can be paid.
    pub gas_balance: u64,
}

impl View for Object {
    type V = Object;

    open spec fn view(&self) -> Object {
        *self
    }
}

impl Object {
    /// The reference of the object's current version.
    pub open spec fn object_ref(&self) -> ObjectRef {
        (self.id, self.version, self.digest)
    }

    /// The reference of the object's current version.
    pub fn compute_object_reference(&self) -> (r: ObjectRef)
        ensures
            r == self.object_ref(),
    {
        (self.id, self.version, self.digest)
    }

    /// Whether nobody can mutate the object.
    pub fn is_immutable(&self) -> (b: bool)
        ensures
            b == (self.owner is Immutable),
    {
        match self.owner {
            Owner::Immutable => true,
            _ => false,
        }
    }

    /// Whether the object is shared.
    pub fn is_shared(&self) -> (b: bool)
        ensures
            b == (self.owner is Shared),
    {
        match self.owner {
            Owner::Shared => true,
            _ => false,
        }
    }

    /// Whether the object is owned by a single address.
    pub fn is_owned(&self) -> (b: bool)
        ensures
            b == (self.owner is AddressOwner),
    {
        match self.owner {
            Owner::AddressOwner(_) => true,
            _ => false,
        }
    }
}

} // verus!
