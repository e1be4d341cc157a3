//! Registries of nodes: the oracle set and the subscriber set. Each is kept
//! in the order in which its members joined, and holds no node twice.

use vstd::prelude::*;
use crate::types::ChainId;

verus! {

/// The registry after `chain_id` has joined: unchanged where it was a member.
pub open spec fn with_chain(chains: Seq<ChainId>, chain_id: ChainId) -> Seq<ChainId> {
    if chains.contains(chain_id) {
        chains
    } else {
        chains.push(chain_id)
    }
}

/// Joining is idempotent, keeps the registry free of duplicates, and as a
/// set adds exactly the one node.
pub proof fn lemma_with_chain(chains: Seq<ChainId>, chain_id: ChainId)
    requires
        chains.no_duplicates(),
    ensures
        with_chain(chains, chain_id).no_duplicates(),
        with_chain(chains, chain_id).to_set() == chains.to_set().insert(chain_id),
        with_chain(with_chain(chains, chain_id), chain_id) == with_chain(chains, chain_id),
        with_chain(chains, chain_id).contains(chain_id),
        forall|other: ChainId| chains.contains(other) ==> with_chain(chains, chain_id).contains(other),
{
    let after = with_chain(chains, chain_id);
    if !chains.contains(chain_id) {
        assert(after[chains.len() as int] == chain_id);
        assert forall|i: int, j: int| 0 <= i < after.len() && 0 <= j < after.len() && i
            != j implies after[i] != after[j] by {
            if i == chains.len() {
                assert(chains[j] == after[j]);
            } else if j == chains.len() {
                assert(chains[i] == after[i]);
            } else {
                assert(chains[i] == after[i] && chains[j] == after[j]);
            }
        }
    }
    assert forall|other: ChainId| chains.contains(other) implies after.contains(other) by {
        let i = choose|i: int| 0 <= i < chains.len() && chains[i] == other;
        assert(after[i] == other);
    }
    assert forall|other: ChainId| after.to_set().contains(other) <==> chains.to_set().insert(
        chain_id,
    ).contains(other) by {
        if after.contains(other) && other != chain_id {
            let i = choose|i: int| 0 <= i < after.len() && after[i] == other;
            assert(chains[i] == other);
        }
    }
    assert(after.to_set() =~= chains.to_set().insert(chain_id));
}

/// Whether `chain_id` is a member of the registry.
pub fn contains_chain(chains: &Vec<ChainId>, chain_id: ChainId) -> (found: bool)
    ensures
        found == chains@.contains(chain_id),
{
    let mut i: usize = 0;
    while i < chains.len()
        invariant
            i <= chains.len(),
            forall|k: int| 0 <= k < i ==> chains@[k] != chain_id,
        decreases chains.len() - i,
    {
        if chains[i] == chain_id {
            return true;
        }
        i += 1;
    }
    false
}

/// Makes `chain_id` a member of the registry, if it is none yet.
pub fn insert_chain(chains: &mut Vec<ChainId>, chain_id: ChainId)
    requires
        old(chains)@.no_duplicates(),
    ensures
        final(chains)@ == with_chain(old(chains)@, chain_id),
        final(chains)@.no_duplicates(),
{
    proof {
        lemma_with_chain(chains@, chain_id);
    }
    if !contains_chain(chains, chain_id) {
        chains.push(chain_id);
    }
}

/// Whether the registry holds no node twice.
pub fn has_no_duplicates(chains: &Vec<ChainId>) -> (ok: bool)
    ensures
        ok == chains@.no_duplicates(),
{
    let mut i: usize = 0;
    while i < chains.len()
        invariant
            i <= chains.len(),
            forall|a: int, b: int| 0 <= a < b < chains.len() && a < i ==> chains@[a] != chains@[b],
        decreases chains.len() - i,
    {
        let mut j: usize = i + 1;
        while j < chains.len()
            invariant
                i < j <= chains.len(),
                forall|b: int| i < b < j ==> chains@[i as int] != chains@[b],
            decreases chains.len() - j,
        {
            if chains[i] == chains[j] {
                return false;
            }
            j += 1;
        }
        i += 1;
    }
    assert forall|a: int, b: int| 0 <= a < chains.len() && 0 <= b < chains.len() && a
        != b implies chains@[a] != chains@[b] by {
        if a < b {
            assert(chains@[a] != chains@[b]);
        } else {
            assert(chains@[b] != chains@[a]);
        }
    }
    true
}

} // verus!
