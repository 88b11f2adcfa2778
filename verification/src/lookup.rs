//! Latest-write lookups over a chain of executed blocks.
//!
//! Every point query of the dual ledger reads the latest ledger change of a
//! given kind along a chain: blocks are scanned from the most recent one
//! backwards, and within a block its changes from the last one backwards.
use vstd::prelude::*;
use crate::slot::Slot;
use crate::types::{BlockModel, ChangeModel, ExecutedBlock, StateChange};
use crate::types::{bytes_eq, lemma_bytes_deep_view};

verus! {

broadcast use lemma_bytes_deep_view;

/// Names the kind of ledger change a point query reads.
pub enum ChangeKey {
    /// The datastore entry `key` of `address`.
    DataEntry { address: u64, key: Vec<u8> },
    /// The sequential balance of `address`.
    SequentialBalance { address: u64 },
    /// The parallel balance of `address`.
    ParallelBalance { address: u64 },
    /// The roll count of `address`.
    RollCount { address: u64 },
    /// The future deferred credits of `address`.
    DeferredCredits { address: u64 },
    /// The active-roll distribution of `cycle`.
    CycleRolls { cycle: u64 },
}

/// Mathematical model of a [`ChangeKey`].
pub enum KeyModel {
    DataEntry { address: u64, key: Seq<u8> },
    SequentialBalance { address: u64 },
    ParallelBalance { address: u64 },
    RollCount { address: u64 },
    DeferredCredits { address: u64 },
    CycleRolls { cycle: u64 },
}

impl DeepView for ChangeKey {
    type V = KeyModel;

    open spec fn deep_view(&self) -> KeyModel {
        match self {
            ChangeKey::DataEntry { address, key } => KeyModel::DataEntry {
                address: *address,
                key: key.deep_view(),
            },
            ChangeKey::SequentialBalance { address } => KeyModel::SequentialBalance {
                address: *address,
            },
            ChangeKey::ParallelBalance { address } => KeyModel::ParallelBalance {
                address: *address,
            },
            ChangeKey::RollCount { address } => KeyModel::RollCount { address: *address },
            ChangeKey::DeferredCredits { address } => KeyModel::DeferredCredits {
                address: *address,
            },
            ChangeKey::CycleRolls { cycle } => KeyModel::CycleRolls { cycle: *cycle },
        }
    }
}

/// True iff the change is of the kind the key asks for.
pub open spec fn key_matches(k: KeyModel, c: ChangeModel) -> bool {
    match k {
        KeyModel::DataEntry { address, key } => c matches ChangeModel::SetDataEntry {
            address: a,
            key: kk,
            ..
        } && a == address && kk == key,
        KeyModel::SequentialBalance { address } => c matches ChangeModel::SetSequentialBalance {
            address: a,
            ..
        } && a == address,
        KeyModel::ParallelBalance { address } => c matches ChangeModel::SetParallelBalance {
            address: a,
            ..
        } && a == address,
        KeyModel::RollCount { address } => c matches ChangeModel::SetRollCount {
            address: a,
            ..
        } && a == address,
        KeyModel::DeferredCredits { address } => c matches ChangeModel::SetDeferredCredits {
            address: a,
            ..
        } && a == address,
        KeyModel::CycleRolls { cycle } => c matches ChangeModel::SetCycleRolls {
            cycle: cy,
            ..
        } && cy == cycle,
    }
}

/// The last change of a block's change list that the key asks for.
pub open spec fn find_in_changes(cs: Seq<ChangeModel>, k: KeyModel) -> Option<ChangeModel>
    decreases cs.len(),
{
    if cs.len() == 0 {
        None
    } else if key_matches(k, cs.last()) {
        Some(cs.last())
    } else {
        find_in_changes(cs.drop_last(), k)
    }
}

/// The latest change along the chain that the key asks for.
pub open spec fn find_in_chain(chain: Seq<BlockModel>, k: KeyModel) -> Option<ChangeModel>
    decreases chain.len(),
{
    if chain.len() == 0 {
        None
    } else {
        match find_in_changes(chain.last().payload.changes, k) {
            Some(c) => Some(c),
            None => find_in_chain(chain.drop_last(), k),
        }
    }
}

/// Looking one change further considers that change first.
pub proof fn lemma_find_in_changes_step(cs: Seq<ChangeModel>, j: int, k: KeyModel)
    requires
        0 <= j < cs.len(),
    ensures
        find_in_changes(cs.take(j + 1), k) == (if key_matches(k, cs[j]) {
            Some(cs[j])
        } else {
            find_in_changes(cs.take(j), k)
        }),
{
    assert(cs.take(j + 1).drop_last() =~= cs.take(j));
    assert(cs.take(j + 1).last() == cs[j]);
}

/// Looking one block further considers that block first.
pub proof fn lemma_find_in_chain_step(chain: Seq<BlockModel>, i: int, k: KeyModel)
    requires
        0 <= i < chain.len(),
    ensures
        find_in_chain(chain.take(i + 1), k) == (match find_in_changes(
            chain[i].payload.changes,
            k,
        ) {
            Some(c) => Some(c),
            None => find_in_chain(chain.take(i), k),
        }),
{
    assert(chain.take(i + 1).drop_last() =~= chain.take(i));
    assert(chain.take(i + 1).last() == chain[i]);
}

/// What a lookup finds always matches its key.
pub proof fn lemma_find_in_changes_matches(cs: Seq<ChangeModel>, k: KeyModel)
    ensures
        find_in_changes(cs, k) matches Some(c) ==> key_matches(k, c),
    decreases cs.len(),
{
    if cs.len() > 0 && !key_matches(k, cs.last()) {
        lemma_find_in_changes_matches(cs.drop_last(), k);
    }
}

/// What a chain lookup finds always matches its key.
pub proof fn lemma_find_matches(chain: Seq<BlockModel>, k: KeyModel)
    ensures
        find_in_chain(chain, k) matches Some(c) ==> key_matches(k, c),
    decreases chain.len(),
{
    if chain.len() > 0 {
        lemma_find_in_changes_matches(chain.last().payload.changes, k);
        lemma_find_matches(chain.drop_last(), k);
    }
}

/// A lookup over a concatenation reads the later part first.
pub proof fn lemma_find_concat(a: Seq<BlockModel>, b: Seq<BlockModel>, k: KeyModel)
    ensures
        find_in_chain(a + b, k) == (match find_in_chain(b, k) {
            Some(c) => Some(c),
            None => find_in_chain(a, k),
        }),
    decreases b.len(),
{
    if b.len() == 0 {
        assert(a + b =~= a);
    } else {
        assert((a + b).drop_last() =~= a + b.drop_last());
        assert((a + b).last() == b.last());
        lemma_find_concat(a, b.drop_last(), k);
    }
}

/// True iff the change is of the kind the key asks for.
pub fn change_matches(k: &ChangeKey, c: &StateChange) -> (r: bool)
    ensures
        r == key_matches(k.deep_view(), c.deep_view()),
{
    match (k, c) {
        (ChangeKey::DataEntry { address, key }, StateChange::SetDataEntry {
            address: a,
            key: kk,
            ..
        }) => *a == *address && bytes_eq(kk, key),
        (ChangeKey::SequentialBalance { address }, StateChange::SetSequentialBalance {
            address: a,
            ..
        }) => *a == *address,
        (ChangeKey::ParallelBalance { address }, StateChange::SetParallelBalance {
            address: a,
            ..
        }) => *a == *address,
        (ChangeKey::RollCount { address }, StateChange::SetRollCount { address: a, .. }) => *a
            == *address,
        (ChangeKey::DeferredCredits { address }, StateChange::SetDeferredCredits {
            address: a,
            ..
        }) => *a == *address,
        (ChangeKey::CycleRolls { cycle }, StateChange::SetCycleRolls { cycle: cy, .. }) => *cy
            == *cycle,
        _ => false,
    }
}

/// The last change of the block's change list that the key asks for.
pub fn find_in_block<'a>(changes: &'a Vec<StateChange>, k: &ChangeKey) -> (r: Option<
    &'a StateChange,
>)
    ensures
        (match r {
            Some(c) => find_in_changes(changes.deep_view(), k.deep_view()) == Some(c.deep_view()),
            None => find_in_changes(changes.deep_view(), k.deep_view()) is None,
        }),
{
    let ghost cs = changes.deep_view();
    let mut j: usize = changes.len();
    proof {
        assert(cs.take(changes@.len() as int) =~= cs);
    }
    while j > 0
        invariant
            j <= changes@.len(),
            cs == changes.deep_view(),
            changes@.len() == cs.len(),
            find_in_changes(cs, k.deep_view()) == find_in_changes(cs.take(j as int), k.deep_view()),
        decreases j,
    {
        let c = &changes[j - 1];
        proof {
            assert(cs.take(j as int).last() == cs[j - 1]);
            assert(cs.take(j as int).drop_last() =~= cs.take(j - 1));
            assert(cs[j - 1] == changes@[j - 1].deep_view());
        }
        if change_matches(k, c) {
            return Some(c);
        }
        j = j - 1;
    }
    proof {
        assert(cs.take(0) =~= Seq::<ChangeModel>::empty());
    }
    None
}

/// The latest change among the given blocks that the key asks for,
/// scanning the most recent block first.
pub fn find_in_blocks<'a>(blocks: &'a Vec<ExecutedBlock>, k: &ChangeKey) -> (r: Option<
    &'a StateChange,
>)
    ensures
        (match r {
            Some(c) => find_in_chain(blocks.deep_view(), k.deep_view()) == Some(c.deep_view()),
            None => find_in_chain(blocks.deep_view(), k.deep_view()) is None,
        }),
{
    let ghost chain = blocks.deep_view();
    let mut i: usize = blocks.len();
    proof {
        assert(chain.take(blocks@.len() as int) =~= chain);
    }
    while i > 0
        invariant
            i <= blocks@.len(),
            chain == blocks.deep_view(),
            blocks@.len() == chain.len(),
            find_in_chain(chain, k.deep_view()) == find_in_chain(chain.take(i as int), k.deep_view()),
        decreases i,
    {
        let b = &blocks[i - 1];
        proof {
            assert(chain.take(i as int).last() == chain[i - 1]);
            assert(chain.take(i as int).drop_last() =~= chain.take(i - 1));
            assert(chain[i - 1] == blocks@[i - 1].deep_view());
        }
        let found = find_in_block(&b.payload.changes, k);
        match found {
            Some(c) => {
                return Some(c);
            },
            None => {},
        }
        i = i - 1;
    }
    proof {
        assert(chain.take(0) =~= Seq::<BlockModel>::empty());
    }
    None
}

} // verus!
