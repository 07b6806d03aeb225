use vstd::prelude::*;

verus! {

/// An account identity. The hosting ledger supplies account identities; this
/// library only ever compares them for equality, so a small opaque token is
/// enough to stand for one.
#[derive(Clone, Copy, PartialEq, Eq, Structural, Debug)]
pub struct AccountId {
    pub id: u64,
}

impl AccountId {
    pub fn new(id: u64) -> (r: AccountId)
        ensures
            r.id == id,
    {
        AccountId { id }
    }
}

impl DeepView for AccountId {
    type V = AccountId;

    open spec fn deep_view(&self) -> AccountId {
        *self
    }
}

} // verus!
