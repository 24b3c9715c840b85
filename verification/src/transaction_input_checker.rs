//! The check of a transaction's inputs against the store.
//!
//! Every declared input must be in the store in the declared form: a
//! package must be immutable, an owned or immutable object must be at the
//! declared version and digest and, where it is owned, belong to the
//! sender, and a shared object must be shared. The object that pays for gas
//! must hold the budget.

use vstd::prelude::*;
use crate::authority_store::{AuthorityStore, DatabaseView};
use crate::base_types::{ObjectID, ObjectRef, SuiAddress};
use crate::error::{SuiError, SuiErrorView};
use crate::messages::{InputObjectKind, SuiGasStatus, Transaction, TransactionView};
use crate::object::{Object, Owner};

verus! {

/// The check of one input: the stored object if the input is declared as
/// the store has it, else the reason why it is not.
pub open spec fn check_one_input(
    objects: Map<ObjectID, Object>,
    sender: SuiAddress,
    kind: InputObjectKind,
) -> Result<Object, SuiErrorView> {
    let id = kind.spec_object_id();
    if !objects.contains_key(id) {
        Err(SuiErrorView::ObjectNotFound { object_id: id })
    } else {
        let object = objects[id];
        match kind {
            InputObjectKind::MovePackage(_) => if object.owner is Immutable {
                Ok(object)
            } else {
                Err(SuiErrorView::MoveObjectAsPackage { object_id: id })
            },
            InputObjectKind::ImmOrOwnedMoveObject(r) => if object.version != r.1 {
                Err(
                    SuiErrorView::UnexpectedSequenceNumber {
                        object_id: id,
                        expected_sequence: object.version,
                        given_sequence: r.1,
                    },
                )
            } else if object.digest != r.2 {
                Err(SuiErrorView::InvalidObjectDigest { object_id: id, expected_digest: object.digest })
            } else {
                match object.owner {
                    Owner::Immutable => Ok(object),
                    Owner::AddressOwner(owner) => if owner == sender {
                        Ok(object)
                    } else {
                        Err(SuiErrorView::IncorrectSigner)
                    },
                    Owner::Shared => Err(SuiErrorView::NotSharedObjectError),
                }
            },
            InputObjectKind::SharedMoveObject(_) => if object.owner is Shared {
                Ok(object)
            } else {
                Err(SuiErrorView::NotSharedObjectError)
            },
        }
    }
}

/// The check of a list of inputs: each input with its stored object if all
/// pass, else the failure of the first that does not.
pub open spec fn check_inputs(
    objects: Map<ObjectID, Object>,
    sender: SuiAddress,
    inputs: Seq<InputObjectKind>,
) -> Result<Seq<(InputObjectKind, Object)>, SuiErrorView>
    decreases inputs.len(),
{
    if inputs.len() == 0 {
        Ok(Seq::empty())
    } else {
        match check_inputs(objects, sender, inputs.drop_last()) {
            Err(e) => Err(e),
            Ok(checked) => match check_one_input(objects, sender, inputs.last()) {
                Err(e) => Err(e),
                Ok(object) => Ok(checked.push((inputs.last(), object))),
            },
        }
    }
}

/// A failure among the first `k` inputs is the failure of the whole list.
pub proof fn lemma_check_inputs_prefix(
    objects: Map<ObjectID, Object>,
    sender: SuiAddress,
    inputs: Seq<InputObjectKind>,
    k: int,
)
    requires
        0 <= k <= inputs.len(),
        check_inputs(objects, sender, inputs.subrange(0, k)) is Err,
    ensures
        check_inputs(objects, sender, inputs) == check_inputs(objects, sender, inputs.subrange(0, k)),
    decreases inputs.len() - k,
{
    if k == inputs.len() {
        assert(inputs.subrange(0, k) == inputs);
    } else {
        assert(inputs.subrange(0, k + 1).drop_last() == inputs.subrange(0, k));
        lemma_check_inputs_prefix(objects, sender, inputs, k + 1);
    }
}

/// What the check of a transaction's inputs yields: the failure of the gas
/// check, else the failure of the first input that does not pass, else
/// every input with its stored object.
pub open spec fn check_transaction_input_spec(store: DatabaseView, transaction: TransactionView) -> Result<
    Seq<(InputObjectKind, Object)>,
    SuiErrorView,
> {
    let gas_id = transaction.gas_payment.0;
    if !store.objects.contains_key(gas_id) {
        Err(SuiErrorView::ObjectNotFound { object_id: gas_id })
    } else if store.objects[gas_id].gas_balance < transaction.gas_budget {
        Err(
            SuiErrorView::InsufficientGas {
                balance: store.objects[gas_id].gas_balance,
                budget: transaction.gas_budget,
            },
        )
    } else {
        check_inputs(store.objects, transaction.sender, transaction.input_objects())
    }
}

/// The references of the inputs that need a lock: those declared as owned or
/// immutable whose object can be mutated.
pub open spec fn owned_refs(all_objects: Seq<(InputObjectKind, Object)>) -> Seq<ObjectRef>
    decreases all_objects.len(),
{
    if all_objects.len() == 0 {
        Seq::empty()
    } else {
        let rest = owned_refs(all_objects.drop_last());
        match all_objects.last().0 {
            InputObjectKind::ImmOrOwnedMoveObject(r) => if all_objects.last().1.owner is Immutable {
                rest
            } else {
                rest.push(r)
            },
            _ => rest,
        }
    }
}

/// The references of the shared inputs, as the store has them.
pub open spec fn shared_refs(all_objects: Seq<(InputObjectKind, Object)>) -> Seq<ObjectRef>
    decreases all_objects.len(),
{
    if all_objects.len() == 0 {
        Seq::empty()
    } else {
        let rest = shared_refs(all_objects.drop_last());
        match all_objects.last().0 {
            InputObjectKind::SharedMoveObject(_) => rest.push(all_objects.last().1.object_ref()),
            _ => rest,
        }
    }
}

fn check_one_lock(store: &AuthorityStore, sender: SuiAddress, kind: InputObjectKind) -> (r: Result<
    Object,
    SuiError,
>)
    requires
        store.wf(),
    ensures
        match r {
            Ok(o) => check_one_input(store@.objects, sender, kind) == Ok::<Object, SuiErrorView>(o),
            Err(e) => check_one_input(store@.objects, sender, kind) == Err::<Object, SuiErrorView>(e@),
        },
{
    let id = kind.object_id();
    let object = match store.get_object(&id) {
        Some(o) => o,
        None => {
            return Err(SuiError::ObjectNotFound { object_id: id });
        },
    };
    match kind {
        InputObjectKind::MovePackage(_) => {
            if object.is_immutable() {
                Ok(object)
            } else {
                Err(SuiError::MoveObjectAsPackage { object_id: id })
            }
        },
        InputObjectKind::ImmOrOwnedMoveObject(r) => {
            if object.version != r.1 {
                return Err(
                    SuiError::UnexpectedSequenceNumber {
                        object_id: id,
                        expected_sequence: object.version,
                        given_sequence: r.1,
                    },
                );
            }
            if object.digest != r.2 {
                return Err(SuiError::InvalidObjectDigest { object_id: id, expected_digest: object.digest });
            }
            match object.owner {
                Owner::Immutable => Ok(object),
                Owner::AddressOwner(owner) => {
                    if owner == sender {
                        Ok(object)
                    } else {
                        Err(SuiError::IncorrectSigner)
                    }
                },
                Owner::Shared => Err(SuiError::NotSharedObjectError),
            }
        },
        InputObjectKind::SharedMoveObject(_) => {
            if object.is_shared() {
                Ok(object)
            } else {
                Err(SuiError::NotSharedObjectError)
            }
        },
    }
}

/// Checks the inputs of a transaction against the store, and returns the
/// gas that the transaction may use and every input with its stored object.
#[verifier::loop_isolation(false)]
pub fn check_transaction_input(store: &AuthorityStore, transaction: &Transaction) -> (r: Result<
    (SuiGasStatus, Vec<(InputObjectKind, Object)>),
    SuiError,
>)
    requires
        store.wf(),
    ensures
        match r {
            Ok((gas_status, all_objects)) => {
                &&& check_transaction_input_spec(store@, transaction@) == Ok::<
                    Seq<(InputObjectKind, Object)>,
                    SuiErrorView,
                >(all_objects@)
                &&& gas_status == (SuiGasStatus { gas_budget: transaction@.gas_budget })
            },
            Err(e) => check_transaction_input_spec(store@, transaction@) == Err::<
                Seq<(InputObjectKind, Object)>,
                SuiErrorView,
            >(e@),
        },
{
    let gas_id = transaction.gas_payment.0;
    let gas_object = match store.get_object(&gas_id) {
        Some(o) => o,
        None => {
            return Err(SuiError::ObjectNotFound { object_id: gas_id });
        },
    };
    if gas_object.gas_balance < transaction.gas_budget {
        return Err(
            SuiError::InsufficientGas { balance: gas_object.gas_balance, budget: transaction.gas_budget },
        );
    }
    let inputs = transaction.input_objects();
    let sender = transaction.sender;
    let mut all_objects: Vec<(InputObjectKind, Object)> = Vec::new();
    let mut i: usize = 0;
    while i < inputs.len()
        invariant
            store.wf(),
            i <= inputs@.len(),
            check_inputs(store@.objects, sender, inputs@.subrange(0, i as int)) == Ok::<
                Seq<(InputObjectKind, Object)>,
                SuiErrorView,
            >(all_objects@),
        decreases inputs@.len() - i,
    {
        assert(inputs@.subrange(0, i + 1).drop_last() == inputs@.subrange(0, i as int));
        match check_one_lock(store, sender, inputs[i]) {
            Ok(object) => {
                all_objects.push((inputs[i], object));
            },
            Err(e) => {
                proof {
                    lemma_check_inputs_prefix(store@.objects, sender, inputs@, i + 1);
                }
                return Err(e);
            },
        }
        i += 1;
    }
    assert(inputs@.subrange(0, i as int) == inputs@);
    Ok((SuiGasStatus { gas_budget: transaction.gas_budget }, all_objects))
}

/// The references of the inputs that need a lock: those declared as owned or
/// immutable whose object can be mutated.
pub fn filter_owned_objects(all_objects: &Vec<(InputObjectKind, Object)>) -> (r: Vec<ObjectRef>)
    ensures
        r@ == owned_refs(all_objects@),
{
    let mut r: Vec<ObjectRef> = Vec::new();
    let mut i: usize = 0;
    while i < all_objects.len()
        invariant
            i <= all_objects@.len(),
            r@ == owned_refs(all_objects@.subrange(0, i as int)),
        decreases all_objects@.len() - i,
    {
        assert(all_objects@.subrange(0, i + 1).drop_last() == all_objects@.subrange(0, i as int));
        match all_objects[i].0 {
            InputObjectKind::ImmOrOwnedMoveObject(object_ref) => {
                if !all_objects[i].1.is_immutable() {
                    r.push(object_ref);
                }
            },
            _ => {},
        }
        i += 1;
    }
    assert(all_objects@.subrange(0, i as int) == all_objects@);
    r
}

/// The references of the shared inputs, as the store has them.
pub fn filter_shared_objects(all_objects: &Vec<(InputObjectKind, Object)>) -> (r: Vec<ObjectRef>)
    ensures
        r@ == shared_refs(all_objects@),
{
    let mut r: Vec<ObjectRef> = Vec::new();
    let mut i: usize = 0;
    while i < all_objects.len()
        invariant
            i <= all_objects@.len(),
            r@ == shared_refs(all_objects@.subrange(0, i as int)),
        decreases all_objects@.len() - i,
    {
        assert(all_objects@.subrange(0, i + 1).drop_last() == all_objects@.subrange(0, i as int));
        match all_objects[i].0 {
            InputObjectKind::SharedMoveObject(_) => {
                r.push(all_objects[i].1.compute_object_reference());
            },
            _ => {},
        }
        i += 1;
    }
    assert(all_objects@.subrange(0, i as int) == all_objects@);
    r
}

} // verus!
