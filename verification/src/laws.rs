//! Registry-wide laws, stated over the views that the operation
//! contracts use and proved from the registry invariant.

use vstd::prelude::*;
use crate::model::{owner_rec_of, owns};
use crate::registry::Registry;
use crate::types::TokenId;

verus! {

/// Sequential allocation: the minted sequence reads 0, 1, 2, … — the
/// nth mint assigned id n, regardless of owner.
pub proof fn lemma_sequential_allocation(reg: &Registry)
    requires
        reg.wf(),
    ensures
        forall|n: int| 0 <= n < reg.minted().len() ==> (#[trigger] reg.minted()[n]).0 == n,
{
}

/// Single ownership: an id stands in an owner's sequence exactly when
/// that owner is recorded for it, so no two owners ever hold the same
/// id.
pub proof fn lemma_single_ownership(reg: &Registry, id: u128, a1: Seq<u8>, a2: Seq<u8>)
    requires
        reg.wf(),
    ensures
        reg.tokens(a1).contains(TokenId(id)) <==> reg.owner_rec(id) == Some(a1),
        (reg.tokens(a1).contains(TokenId(id)) && reg.tokens(a2).contains(TokenId(id))) ==> a1
            == a2,
{
    assert(owns(reg.contents(), a1, id) <==> owner_rec_of(reg.contents(), id) == Some(a1));
    assert(owns(reg.contents(), a2, id) <==> owner_rec_of(reg.contents(), id) == Some(a2));
}

/// Every minted id has a recorded owner, and only minted ids do.
pub proof fn lemma_minted_have_owners(reg: &Registry, id: u128)
    requires
        reg.wf(),
    ensures
        reg.owner_rec(id) is Some <==> (id as nat) < reg.minted().len(),
{
}

} // verus!
