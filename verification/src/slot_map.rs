//! Mapping from slots to blocks, kept in ascending slot order.
//!
//! The shared input batch carries two of these: the accumulated
//! finalized-blocks delta and the optional replacement blockclique. Keeping
//! the entries sorted lets the worker apply them in ascending slot order by
//! walking the entries once.
use vstd::prelude::*;
use crate::slot::{slot_lt, Slot};
use crate::types::{BlockModel, BlockPayload, ExecutedBlock};

verus! {

/// The entries stand in strictly ascending slot order.
pub open spec fn sorted_by_slot(s: Seq<BlockModel>) -> bool {
    forall|i: int, j: int| 0 <= i < j < s.len() ==> slot_lt(s[i].slot, s[j].slot)
}

/// Some entry stands at `slot`.
pub open spec fn has_slot(s: Seq<BlockModel>, slot: Slot) -> bool {
    exists|i: int| 0 <= i < s.len() && s[i].slot == slot
}

/// In a strictly sorted sequence, slots are distinct.
pub proof fn lemma_sorted_slots_distinct(s: Seq<BlockModel>)
    requires
        sorted_by_slot(s),
    ensures
        forall|i: int, j: int|
            0 <= i < s.len() && 0 <= j < s.len() && i != j ==> s[i].slot != s[j].slot,
{
    assert forall|i: int, j: int|
        0 <= i < s.len() && 0 <= j < s.len() && i != j implies s[i].slot != s[j].slot by {
        if i < j {
            assert(slot_lt(s[i].slot, s[j].slot));
        } else {
            assert(slot_lt(s[j].slot, s[i].slot));
        }
    }
}

/// A set of blocks indexed by slot, held in ascending slot order.
pub struct SlotMap {
    /// The entries, in strictly ascending slot order.
    pub items: Vec<ExecutedBlock>,
}

impl SlotMap {
    /// The entries in ascending slot order.
    pub open spec fn view(&self) -> Seq<BlockModel> {
        self.items.deep_view()
    }

    /// Internal invariant: strictly ascending slot order.
    pub open spec fn wf(&self) -> bool {
        sorted_by_slot(self@)
    }

    /// Builds an empty map.
    pub fn new() -> (r: SlotMap)
        ensures
            r.wf(),
            r@ =~= Seq::<BlockModel>::empty(),
    {
        SlotMap { items: Vec::new() }
    }

    /// Number of entries.
    pub fn len(&self) -> (r: usize)
        ensures
            r == self@.len(),
    {
        self.items.len()
    }

    /// True iff the map holds no entry.
    pub fn is_empty(&self) -> (r: bool)
        ensures
            r == (self@.len() == 0),
    {
        self.items.len() == 0
    }

    /// Puts a block at a slot, replacing whatever block stood there.
    pub fn insert(&mut self, slot: Slot, block_id: u64, payload: BlockPayload)
        requires
            old(self).wf(),
        ensures
            final(self).wf(),
            forall|b: BlockModel|
                #![trigger final(self)@.contains(b)]
                #![trigger old(self)@.contains(b)]
                final(self)@.contains(b) <==> (b == (BlockModel {
                    slot,
                    block_id,
                    payload: payload.deep_view(),
                }) || (old(self)@.contains(b) && b.slot != slot)),
            has_slot(final(self)@, slot),
            forall|s: Slot|
                #![trigger has_slot(final(self)@, s)]
                #![trigger has_slot(old(self)@, s)]
                has_slot(final(self)@, s) <==> (s == slot || has_slot(old(self)@, s)),
    {
        let ghost bm = BlockModel { slot, block_id, payload: payload.deep_view() };
        let block = ExecutedBlock { slot, block_id, payload };
        let mut idx: usize = 0;
        while idx < self.items.len() && self.items[idx].slot.precedes(&slot)
            invariant
                idx <= self.items.len(),
                forall|k: int| 0 <= k < idx ==> slot_lt(self@[k].slot, slot),
                *self == *old(self),
            decreases self.items.len() - idx,
        {
            idx = idx + 1;
        }
        proof {
            lemma_sorted_slots_distinct(self@);
            if idx < self@.len() {
                assert(!slot_lt(self@[idx as int].slot, slot));
            }
        }
        if idx < self.items.len() && self.items[idx].slot == slot {
            // Same slot: replace the entry in place.
            self.items[idx] = block;
            proof {
                let pre = old(self)@;
                let post = self@;
                assert(post =~= pre.update(idx as int, bm));
                assert forall|b: BlockModel|
                    post.contains(b) <==> (b == bm || (pre.contains(b) && b.slot != slot)) by {
                    if post.contains(b) {
                        let k = choose|k: int| 0 <= k < post.len() && post[k] == b;
                        if k != idx {
                            assert(pre[k] == b);
                            assert(slot_lt(pre[k].slot, pre[idx as int].slot) || slot_lt(
                                pre[idx as int].slot,
                                pre[k].slot,
                            ));
                        }
                    }
                    if b == bm {
                        assert(post[idx as int] == b);
                    }
                    if pre.contains(b) && b.slot != slot {
                        let k = choose|k: int| 0 <= k < pre.len() && pre[k] == b;
                        assert(k != idx);
                        assert(post[k] == b);
                    }
                }
                assert(post[idx as int].slot == slot);
                assert forall|s: Slot|
                    has_slot(post, s) <==> (s == slot || has_slot(pre, s)) by {
                    if has_slot(post, s) {
                        let k = choose|k: int| 0 <= k < post.len() && post[k].slot == s;
                        if k != idx {
                            assert(pre[k].slot == s);
                        }
                    }
                    if has_slot(pre, s) {
                        let k = choose|k: int| 0 <= k < pre.len() && pre[k].slot == s;
                        if k != idx {
                            assert(post[k].slot == s);
                        } else {
                            assert(post[idx as int].slot == slot);
                        }
                    }
                }
            }
        } else {
            proof {
                // Everything at or after the insertion point stands strictly
                // after the new slot.
                assert forall|k: int|
                    idx <= k < self@.len() implies slot_lt(slot, self@[k].slot) by {
                    assert(!slot_lt(self@[idx as int].slot, slot));
                    assert(self@[idx as int].slot != slot);
                    if k > idx {
                        assert(slot_lt(self@[idx as int].slot, self@[k].slot));
                    }
                }
            }
            self.items.insert(idx, block);
            proof {
                let pre = old(self)@;
                let post = self@;
                assert(post =~= pre.insert(idx as int, bm));
                assert(forall|k: int| 0 <= k < idx ==> post[k] == pre[k]);
                assert(post[idx as int] == bm);
                assert(forall|k: int| idx < k < post.len() ==> post[k] == pre[k - 1]);
                assert forall|b: BlockModel|
                    post.contains(b) <==> (b == bm || (pre.contains(b) && b.slot != slot)) by {
                    if post.contains(b) {
                        let k = choose|k: int| 0 <= k < post.len() && post[k] == b;
                        if k < idx {
                            assert(pre.contains(b));
                            assert(slot_lt(b.slot, slot));
                        } else if k > idx {
                            assert(pre[k - 1] == b);
                            assert(pre.contains(b));
                            assert(slot_lt(slot, b.slot));
                        }
                    }
                    if b == bm {
                        assert(post[idx as int] == b);
                    }
                    if pre.contains(b) && b.slot != slot {
                        let k = choose|k: int| 0 <= k < pre.len() && pre[k] == b;
                        if k < idx {
                            assert(post[k] == b);
                        } else {
                            assert(post[k + 1] == b);
                        }
                    }
                }
                assert forall|s: Slot|
                    has_slot(post, s) <==> (s == slot || has_slot(pre, s)) by {
                    if has_slot(post, s) {
                        let k = choose|k: int| 0 <= k < post.len() && post[k].slot == s;
                        if k < idx {
                            assert(pre[k].slot == s);
                        } else if k > idx {
                            assert(pre[k - 1].slot == s);
                        }
                    }
                    if has_slot(pre, s) {
                        let k = choose|k: int| 0 <= k < pre.len() && pre[k].slot == s;
                        if k < idx {
                            assert(post[k].slot == s);
                        } else {
                            assert(post[k + 1].slot == s);
                        }
                    }
                }
                assert forall|i: int, j: int|
                    0 <= i < j < post.len() implies slot_lt(post[i].slot, post[j].slot) by {
                    if j < idx {
                    } else if i > idx {
                    } else if i == idx {
                        assert(slot_lt(slot, pre[j - 1].slot));
                    } else if j == idx {
                        assert(slot_lt(pre[i].slot, slot));
                    } else {
                        assert(slot_lt(pre[i].slot, pre[j - 1].slot));
                    }
                }
            }
        }
    }

    /// Merges `other` into `self`; where both map a slot, `other` wins.
    ///
    /// This is how a freshly reported finalized delta lands in the pending
    /// batch: a slot still pending may be overwritten, accumulated slots
    /// are kept.
    pub fn extend(&mut self, other: SlotMap)
        requires
            old(self).wf(),
            other.wf(),
        ensures
            final(self).wf(),
            forall|b: BlockModel|
                #![trigger final(self)@.contains(b)]
                #![trigger other@.contains(b)]
                #![trigger old(self)@.contains(b)]
                final(self)@.contains(b) <==> (other@.contains(b) || (old(self)@.contains(b)
                    && !has_slot(other@, b.slot))),
            forall|s: Slot|
                #![trigger has_slot(final(self)@, s)]
                #![trigger has_slot(other@, s)]
                #![trigger has_slot(old(self)@, s)]
                has_slot(final(self)@, s) <==> (has_slot(old(self)@, s) || has_slot(other@, s)),
    {
        let mut rest = other;
        proof {
            lemma_sorted_slots_distinct(rest@);
        }
        while rest.items.len() > 0
            invariant
                self.wf(),
                sorted_by_slot(other@),
                sorted_by_slot(rest@),
                rest@.len() <= other@.len(),
                // entries still to merge are a prefix of the original
                rest@ =~= other@.take(rest@.len() as int),
                forall|b: BlockModel|
                    self@.contains(b) <==> (other@.skip(rest@.len() as int).contains(b) || (old(
                        self,
                    )@.contains(b) && !has_slot(other@.skip(rest@.len() as int), b.slot))),
                forall|s: Slot|
                    has_slot(self@, s) <==> (has_slot(old(self)@, s) || has_slot(
                        other@.skip(rest@.len() as int),
                        s,
                    )),
            decreases rest.items.len(),
        {
            let ghost pre_rest = rest@;
            let ghost pre_self = self@;
            let b = rest.items.pop().unwrap();
            let ghost bm = b.deep_view();
            proof {
                assert(rest@ =~= pre_rest.take(pre_rest.len() - 1));
                assert(bm == pre_rest[pre_rest.len() - 1]);
                assert(0 <= pre_rest.len() - 1 < other@.len());
                assert(bm == other@[pre_rest.len() - 1]);
                lemma_sorted_slots_distinct(other@);
            }
            let ExecutedBlock { slot, block_id, payload } = b;
            proof {
                assert(bm.slot == slot && bm.block_id == block_id && bm.payload
                    == payload.deep_view());
            }
            self.insert(slot, block_id, payload);
            proof {
                let done_pre = other@.skip(pre_rest.len() as int);
                let done_post = other@.skip(pre_rest.len() - 1);
                assert(done_post =~= seq![bm] + done_pre);
                // the slot just merged does not occur among the already
                // merged entries, which all stand later in `other`
                assert forall|x: BlockModel| done_post.contains(x) implies (x == bm
                    || done_pre.contains(x)) by {
                    let k = choose|k: int| 0 <= k < done_post.len() && done_post[k] == x;
                    if k > 0 {
                        assert(done_pre[k - 1] == x);
                    }
                }
                assert forall|s: Slot| has_slot(done_post, s) implies (s == slot || has_slot(
                    done_pre,
                    s,
                )) by {
                    let k = choose|k: int| 0 <= k < done_post.len() && done_post[k].slot == s;
                    if k > 0 {
                        assert(done_pre[k - 1].slot == s);
                    }
                }
                assert(done_post.contains(bm)) by {
                    assert(done_post[0] == bm);
                }
                assert(has_slot(done_post, slot)) by {
                    assert(done_post[0].slot == slot);
                }
                assert forall|x: BlockModel| done_pre.contains(x) implies (done_post.contains(x)
                    && x.slot != slot) by {
                    let k = choose|k: int| 0 <= k < done_pre.len() && done_pre[k] == x;
                    assert(done_post[k + 1] == x);
                    assert(other@[pre_rest.len() + k] == x);
                    assert(other@[pre_rest.len() - 1].slot != other@[pre_rest.len() + k].slot);
                }
                assert forall|s: Slot| has_slot(done_pre, s) implies has_slot(done_post, s) by {
                    let k = choose|k: int| 0 <= k < done_pre.len() && done_pre[k].slot == s;
                    assert(done_post[k + 1].slot == s);
                }
            }
        }
        proof {
            assert(other@.skip(0) =~= other@);
        }
    }
}

} // verus!
