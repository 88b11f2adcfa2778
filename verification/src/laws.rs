//! The laws the execution core obeys, stated and proved once for all
//! inputs. Each proof function here is part of the library's statement:
//! its hypotheses are what the operations' contracts hand every caller.
use vstd::prelude::*;
use crate::execution::{lemma_filter_elems_contained, unfinalized};
use crate::queries::{op_executed, unexecuted_among};
use crate::slot::Slot;
use crate::slot_map::has_slot;
use crate::types::{BlockModel, RequestModel};
use crate::worker::ReadOnlyReply;

verus! {

/// Finalization is monotonic: the finalized chain only ever grows by
/// appending, so every slot once finalized stays finalized, with the same
/// block.
pub proof fn lemma_finalization_monotonic(pre: Seq<BlockModel>, post: Seq<BlockModel>)
    requires
        pre.is_prefix_of(post),
    ensures
        forall|s: Slot| has_slot(pre, s) ==> has_slot(post, s),
        forall|b: BlockModel| pre.contains(b) ==> post.contains(b),
{
    assert forall|s: Slot| has_slot(pre, s) implies has_slot(post, s) by {
        let i = choose|i: int| 0 <= i < pre.len() && pre[i].slot == s;
        assert(post[i] == pre[i]);
    }
    assert forall|b: BlockModel| pre.contains(b) implies post.contains(b) by {
        let i = choose|i: int| 0 <= i < pre.len() && pre[i] == b;
        assert(post[i] == b);
    }
}

/// A fresh blockclique fully replaces the previous one: after the
/// candidate suffix is rebuilt from a supplied blockclique, a slot that
/// stands neither in that blockclique nor in the finalized chain
/// contributes nothing to the candidate chain — whatever any earlier
/// blockclique held there.
pub proof fn lemma_blockclique_replaced(fin: Seq<BlockModel>, bc: Seq<BlockModel>, s: Slot)
    requires
        !has_slot(bc, s),
        !has_slot(fin, s),
    ensures
        !has_slot(fin + unfinalized(fin, bc), s),
{
    let pred = |b: BlockModel| !has_slot(fin, b.slot);
    let chain = fin + unfinalized(fin, bc);
    if has_slot(chain, s) {
        let i = choose|i: int| 0 <= i < chain.len() && chain[i].slot == s;
        if i < fin.len() {
            assert(fin[i].slot == s);
        } else {
            let j = i - fin.len();
            assert(chain[i] == bc.filter(pred)[j]);
            lemma_filter_elems_contained(bc, pred);
            let k = choose|k: int| 0 <= k < bc.len() && bc[k] == bc.filter(pred)[j];
            assert(bc[k].slot == s);
        }
    }
}

/// Some reply carries the ticket `t`.
pub open spec fn replies_contain_ticket(replies: Seq<ReadOnlyReply>, t: u64) -> bool {
    exists|j: int| 0 <= j < replies.len() && (#[trigger] replies[j]).ticket == t
}

/// Every accepted read-only request is answered exactly once: when the
/// replies carry the queue's tickets in order and the queue's tickets are
/// distinct, each queued request has one reply and no ticket is answered
/// twice.
pub proof fn lemma_exactly_one_reply(queue: Seq<(u64, RequestModel)>, replies: Seq<ReadOnlyReply>)
    requires
        replies.len() == queue.len(),
        forall|i: int, j: int|
            0 <= i < queue.len() && 0 <= j < queue.len() && i != j ==> queue[i].0 != queue[j].0,
        forall|i: int| 0 <= i < replies.len() ==> (#[trigger] replies[i]).ticket == queue[i].0,
    ensures
        forall|i: int|
            #![trigger queue[i]]
            0 <= i < queue.len() ==> replies_contain_ticket(replies, queue[i].0),
        forall|j1: int, j2: int|
            0 <= j1 < replies.len() && 0 <= j2 < replies.len() && replies[j1].ticket
                == replies[j2].ticket ==> j1 == j2,
{
    assert forall|i: int| #![trigger queue[i]] 0 <= i < queue.len() implies replies_contain_ticket(
        replies,
        queue[i].0,
    ) by {
        assert(replies[i].ticket == queue[i].0);
    }
    assert forall|j1: int, j2: int|
        0 <= j1 < replies.len() && 0 <= j2 < replies.len() && replies[j1].ticket
            == replies[j2].ticket implies j1 == j2 by {
        if j1 != j2 {
            assert(queue[j1].0 != queue[j2].0);
        }
    }
}

/// What `unexecuted_ops_among` keeps is always a subset of its input, and
/// once every member of the input is settled on the thread, nothing is
/// kept.
pub proof fn lemma_unexecuted_ops(chain: Seq<BlockModel>, ops: Seq<u64>, thread: u8)
    ensures
        forall|j: int|
            0 <= j < unexecuted_among(chain, ops, thread).len() ==> ops.contains(
                #[trigger] unexecuted_among(chain, ops, thread)[j],
            ),
        (forall|k: int| 0 <= k < ops.len() ==> op_executed(chain, #[trigger] ops[k], thread))
            ==> unexecuted_among(chain, ops, thread).len() == 0,
{
    let pred = |op: u64| !op_executed(chain, op, thread);
    lemma_filter_elems_contained(ops, pred);
    if forall|k: int| 0 <= k < ops.len() ==> op_executed(chain, #[trigger] ops[k], thread) {
        if ops.filter(pred).len() > 0 {
            let e = ops.filter(pred)[0];
            ops.lemma_filter_pred(pred, 0);
            assert(ops.contains(e));
            let k = choose|k: int| 0 <= k < ops.len() && ops[k] == e;
            assert(op_executed(chain, ops[k], thread));
            assert(false);
        }
    }
}

} // verus!
