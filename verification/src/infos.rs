//! Aggregate per-address information: datastore keys, balances, rolls,
//! deferred credits and per-cycle roll counts, over both ledger views.
use vstd::prelude::*;
use crate::execution::ExecutionState;
use crate::lookup::{
    find_in_changes, find_in_chain, key_matches, lemma_find_concat, lemma_find_in_chain_step,
    lemma_find_in_changes_step, lemma_find_matches, ChangeKey, KeyModel,
};
use crate::queries::{
    cycle_rolls_of, data_entry_of, deferred_credits_of, parallel_balance_of, rolls_of,
    sequential_balance_of,
};
use crate::slot::Slot;
use crate::types::{
    bytes_eq, copy_bytes, lemma_bytes_deep_view, lemma_cycle_infos_deep_view,
    lemma_roll_pairs_deep_view, lemma_slot_amounts_deep_view, BlockModel, ChangeModel, ExecutedBlock, ExecutionAddressInfo,
    InfoModel, StateChange,
};

verus! {

broadcast use lemma_bytes_deep_view, lemma_cycle_infos_deep_view, lemma_slot_amounts_deep_view, lemma_roll_pairs_deep_view;

/// The elements of the list are pairwise distinct.
pub open spec fn distinct_seq<A>(s: Seq<A>) -> bool {
    forall|i: int, j: int| 0 <= i < j < s.len() ==> s[i] != s[j]
}

/// True iff the key list contains `key`.
fn keys_contain(acc: &Vec<Vec<u8>>, key: &Vec<u8>) -> (r: bool)
    ensures
        r == acc.deep_view().contains(key@),
{
    let mut i: usize = 0;
    while i < acc.len()
        invariant
            i <= acc@.len(),
            forall|k: int| 0 <= k < i ==> acc@[k]@ != key@,
        decreases acc@.len() - i,
    {
        if bytes_eq(&acc[i], key) {
            proof {
                assert(acc.deep_view()[i as int] == acc@[i as int]@);
            }
            return true;
        }
        i = i + 1;
    }
    proof {
        if acc.deep_view().contains(key@) {
            let k = choose|k: int| 0 <= k < acc.deep_view().len() && acc.deep_view()[k] == key@;
            assert(acc@[k]@ == key@);
        }
    }
    false
}

/// True iff the cycle list contains `cycle`.
fn cycles_contain(acc: &Vec<u64>, cycle: u64) -> (r: bool)
    ensures
        r == acc@.contains(cycle),
{
    let mut i: usize = 0;
    while i < acc.len()
        invariant
            i <= acc@.len(),
            forall|k: int| 0 <= k < i ==> acc@[k] != cycle,
        decreases acc@.len() - i,
    {
        if acc[i] == cycle {
            return true;
        }
        i = i + 1;
    }
    proof {
        if acc@.contains(cycle) {
            let k = choose|k: int| 0 <= k < acc@.len() && acc@[k] == cycle;
        }
    }
    false
}

/// Adds to `acc` every datastore key of `address` ever written by the
/// given blocks, without duplicates.
fn collect_keys_from(acc: &mut Vec<Vec<u8>>, blocks: &Vec<ExecutedBlock>, address: u64)
    requires
        distinct_seq(old(acc).deep_view()),
    ensures
        distinct_seq(final(acc).deep_view()),
        forall|kk: Seq<u8>|
            final(acc).deep_view().contains(kk) <==> (old(acc).deep_view().contains(kk)
                || find_in_chain(
                blocks.deep_view(),
                KeyModel::DataEntry { address, key: kk },
            ) is Some),
{
    let ghost chain = blocks.deep_view();
    let ghost acc0 = old(acc).deep_view();
    let mut i: usize = 0;
    proof {
        assert(chain.take(0) =~= Seq::<BlockModel>::empty());
        assert forall|kk: Seq<u8>| #![auto]
            find_in_chain(chain.take(0), KeyModel::DataEntry { address, key: kk }) is None by {
            assert(chain.take(0).len() == 0);
        }
    }
    while i < blocks.len()
        invariant
            chain == blocks.deep_view(),
            blocks@.len() == chain.len(),
            i <= chain.len(),
            acc@.len() == acc.deep_view().len(),
            distinct_seq(acc.deep_view()),
            forall|kk: Seq<u8>|
                #![trigger acc.deep_view().contains(kk)]
                acc.deep_view().contains(kk) <==> (acc0.contains(kk) || find_in_chain(
                    chain.take(i as int),
                    KeyModel::DataEntry { address, key: kk },
                ) is Some),
        decreases chain.len() - i,
    {
        let b = &blocks[i];
        let ghost bm = chain[i as int];
        proof {
            assert(bm == blocks@[i as int].deep_view());
        }
        let cs = &b.payload.changes;
        let ghost csm = bm.payload.changes;
        let mut j: usize = 0;
        proof {
            assert(csm.take(0) =~= Seq::<ChangeModel>::empty());
            assert forall|kk: Seq<u8>| #![auto]
                find_in_changes(csm.take(0), KeyModel::DataEntry { address, key: kk }) is None by {
                assert(csm.take(0).len() == 0);
            }
        }
        while j < cs.len()
            invariant
                csm == blocks@[i as int].payload.changes.deep_view(),
                cs == &blocks@[i as int].payload.changes,
                *b == blocks@[i as int],
                bm == blocks@[i as int].deep_view(),
                blocks@.len() == chain.len(),
                chain == blocks.deep_view(),
                i < chain.len(),
                cs@.len() == csm.len(),
                j <= csm.len(),
                acc@.len() == acc.deep_view().len(),
                distinct_seq(acc.deep_view()),
                forall|kk: Seq<u8>|
                    #![trigger acc.deep_view().contains(kk)]
                    acc.deep_view().contains(kk) <==> (acc0.contains(kk) || find_in_chain(
                        chain.take(i as int),
                        KeyModel::DataEntry { address, key: kk },
                    ) is Some || find_in_changes(
                        csm.take(j as int),
                        KeyModel::DataEntry { address, key: kk },
                    ) is Some),
            decreases csm.len() - j,
        {
            let c = &cs[j];
            let ghost cm = csm[j as int];
            proof {
                assert(cm == cs@[j as int].deep_view());
            }
            match c {
                StateChange::SetDataEntry { address: a, key, .. } => {
                    let ghost pre = acc.deep_view();
                    let relevant = *a == address;
                    let had = if relevant {
                        keys_contain(acc, key)
                    } else {
                        true
                    };
                    if relevant && !had {
                        acc.push(copy_bytes(key));
                    }
                    proof {
                        assert(cm is SetDataEntry);
                        assert(cm->SetDataEntry_address == *a);
                        assert(cm->SetDataEntry_key == key@);
                        if relevant && !had {
                            assert(acc.deep_view() =~= pre.push(key@));
                            assert forall|x: int, y: int|
                                0 <= x < y < acc.deep_view().len() implies acc.deep_view()[x]
                                != acc.deep_view()[y] by {
                                if y < pre.len() {
                                    assert(pre[x] != pre[y]);
                                } else {
                                    assert(acc.deep_view()[y] == key@);
                                    assert(acc.deep_view()[x] == pre[x]);
                                    if pre[x] == key@ {
                                        assert(pre.contains(key@));
                                    }
                                }
                            }
                        }
                        assert forall|kk: Seq<u8>| #![trigger acc.deep_view().contains(kk)]
                            acc.deep_view().contains(kk) <==> (acc0.contains(kk)
                                || find_in_chain(
                                chain.take(i as int),
                                KeyModel::DataEntry { address, key: kk },
                            ) is Some || find_in_changes(
                                csm.take(j as int + 1),
                                KeyModel::DataEntry { address, key: kk },
                            ) is Some) by {
                            let k = KeyModel::DataEntry { address, key: kk };
                            lemma_find_in_changes_step(csm, j as int, k);
                            assert(key_matches(k, cm) <==> (relevant && kk == key@));
                            assert(pre.contains(kk) <==> (acc0.contains(kk) || find_in_chain(
                                chain.take(i as int),
                                k,
                            ) is Some || find_in_changes(csm.take(j as int), k) is Some));
                            if relevant && !had {
                                if acc.deep_view().contains(kk) {
                                    let x = choose|x: int|
                                        0 <= x < acc.deep_view().len() && acc.deep_view()[x]
                                            == kk;
                                    if x < pre.len() {
                                        assert(pre[x] == kk);
                                        assert(pre.contains(kk));
                                    } else {
                                        assert(kk == key@);
                                    }
                                }
                                if pre.contains(kk) {
                                    let x = choose|x: int| 0 <= x < pre.len() && pre[x] == kk;
                                    assert(acc.deep_view()[x] == kk);
                                    assert(acc.deep_view().contains(kk));
                                }
                                if kk == key@ {
                                    assert(acc.deep_view()[pre.len() as int] == kk);
                                    assert(acc.deep_view().contains(kk));
                                }
                            } else {
                                assert(acc.deep_view() == pre);
                                if relevant && kk == key@ {
                                    assert(pre.contains(key@));
                                }
                            }
                        }
                    }
                },
                _ => {
                    proof {
                        assert forall|kk: Seq<u8>| #![trigger acc.deep_view().contains(kk)]
                            acc.deep_view().contains(kk) <==> (acc0.contains(kk)
                                || find_in_chain(
                                chain.take(i as int),
                                KeyModel::DataEntry { address, key: kk },
                            ) is Some || find_in_changes(
                                csm.take(j as int + 1),
                                KeyModel::DataEntry { address, key: kk },
                            ) is Some) by {
                            let k = KeyModel::DataEntry { address, key: kk };
                            lemma_find_in_changes_step(csm, j as int, k);
                            assert(!key_matches(k, cm));
                            assert(acc.deep_view().contains(kk) <==> (acc0.contains(kk)
                                || find_in_chain(chain.take(i as int), k) is Some
                                || find_in_changes(csm.take(j as int), k) is Some));
                        }
                    }
                },
            }
            j = j + 1;
        }
        proof {
            assert(csm.take(csm.len() as int) =~= csm);
            assert forall|kk: Seq<u8>| #![auto]
                acc.deep_view().contains(kk) <==> (acc0.contains(kk) || find_in_chain(
                    chain.take(i as int + 1),
                    KeyModel::DataEntry { address, key: kk },
                ) is Some) by {
                let k = KeyModel::DataEntry { address, key: kk };
                lemma_find_in_chain_step(chain, i as int, k);
            }
        }
        i = i + 1;
    }
    proof {
        assert(chain.take(chain.len() as int) =~= chain);
    }
}

/// Adds to `acc` every cycle for which the given blocks ever supplied an
/// active-roll distribution, without duplicates.
fn collect_cycles_from(acc: &mut Vec<u64>, blocks: &Vec<ExecutedBlock>)
    requires
        distinct_seq(old(acc)@),
    ensures
        distinct_seq(final(acc)@),
        forall|c: u64|
            final(acc)@.contains(c) <==> (old(acc)@.contains(c) || find_in_chain(
                blocks.deep_view(),
                KeyModel::CycleRolls { cycle: c },
            ) is Some),
{
    let ghost chain = blocks.deep_view();
    let ghost acc0 = old(acc)@;
    let mut i: usize = 0;
    proof {
        assert(chain.take(0) =~= Seq::<BlockModel>::empty());
        assert forall|c: u64| #![auto]
            find_in_chain(chain.take(0), KeyModel::CycleRolls { cycle: c }) is None by {
            assert(chain.take(0).len() == 0);
        }
    }
    while i < blocks.len()
        invariant
            chain == blocks.deep_view(),
            blocks@.len() == chain.len(),
            i <= chain.len(),
            distinct_seq(acc@),
            forall|c: u64|
                #![trigger acc@.contains(c)]
                acc@.contains(c) <==> (acc0.contains(c) || find_in_chain(
                    chain.take(i as int),
                    KeyModel::CycleRolls { cycle: c },
                ) is Some),
        decreases chain.len() - i,
    {
        let b = &blocks[i];
        let ghost bm = chain[i as int];
        proof {
            assert(bm == blocks@[i as int].deep_view());
        }
        let cs = &b.payload.changes;
        let ghost csm = bm.payload.changes;
        let mut j: usize = 0;
        proof {
            assert(csm.take(0) =~= Seq::<ChangeModel>::empty());
            assert forall|c: u64| #![auto]
                find_in_changes(csm.take(0), KeyModel::CycleRolls { cycle: c }) is None by {
                assert(csm.take(0).len() == 0);
            }
        }
        while j < cs.len()
            invariant
                csm == blocks@[i as int].payload.changes.deep_view(),
                cs == &blocks@[i as int].payload.changes,
                *b == blocks@[i as int],
                bm == blocks@[i as int].deep_view(),
                blocks@.len() == chain.len(),
                chain == blocks.deep_view(),
                i < chain.len(),
                cs@.len() == csm.len(),
                j <= csm.len(),
                distinct_seq(acc@),
                forall|c: u64|
                    #![trigger acc@.contains(c)]
                    acc@.contains(c) <==> (acc0.contains(c) || find_in_chain(
                        chain.take(i as int),
                        KeyModel::CycleRolls { cycle: c },
                    ) is Some || find_in_changes(
                        csm.take(j as int),
                        KeyModel::CycleRolls { cycle: c },
                    ) is Some),
            decreases csm.len() - j,
        {
            let c = &cs[j];
            let ghost cm = csm[j as int];
            proof {
                assert(cm == cs@[j as int].deep_view());
            }
            match c {
                StateChange::SetCycleRolls { cycle, .. } => {
                    let ghost pre = acc@;
                    let had = cycles_contain(acc, *cycle);
                    if !had {
                        acc.push(*cycle);
                    }
                    proof {
                        assert(cm is SetCycleRolls);
                        assert(cm->SetCycleRolls_cycle == *cycle);
                        if !had {
                            assert forall|x: int, y: int|
                                0 <= x < y < acc@.len() implies acc@[x] != acc@[y] by {
                                if y < pre.len() {
                                    assert(pre[x] != pre[y]);
                                } else {
                                    assert(acc@[y] == *cycle);
                                    assert(acc@[x] == pre[x]);
                                    if pre[x] == *cycle {
                                        assert(pre.contains(*cycle));
                                    }
                                }
                            }
                        }
                        assert forall|cc: u64| #![trigger acc@.contains(cc)]
                            acc@.contains(cc) <==> (acc0.contains(cc) || find_in_chain(
                                chain.take(i as int),
                                KeyModel::CycleRolls { cycle: cc },
                            ) is Some || find_in_changes(
                                csm.take(j as int + 1),
                                KeyModel::CycleRolls { cycle: cc },
                            ) is Some) by {
                            let k = KeyModel::CycleRolls { cycle: cc };
                            lemma_find_in_changes_step(csm, j as int, k);
                            assert(key_matches(k, cm) <==> cc == *cycle);
                            assert(pre.contains(cc) <==> (acc0.contains(cc) || find_in_chain(
                                chain.take(i as int),
                                k,
                            ) is Some || find_in_changes(csm.take(j as int), k) is Some));
                            if !had {
                                if acc@.contains(cc) {
                                    let x = choose|x: int| 0 <= x < acc@.len() && acc@[x] == cc;
                                    if x < pre.len() {
                                        assert(pre.contains(cc));
                                    } else {
                                        assert(cc == *cycle);
                                    }
                                }
                                if pre.contains(cc) {
                                    let x = choose|x: int| 0 <= x < pre.len() && pre[x] == cc;
                                    assert(acc@[x] == cc);
                                }
                                if cc == *cycle {
                                    assert(acc@[pre.len() as int] == cc);
                                }
                            } else {
                                assert(acc@ == pre);
                                if cc == *cycle {
                                    assert(pre.contains(*cycle));
                                }
                            }
                        }
                    }
                },
                _ => {
                    proof {
                        assert forall|cc: u64| #![trigger acc@.contains(cc)]
                            acc@.contains(cc) <==> (acc0.contains(cc) || find_in_chain(
                                chain.take(i as int),
                                KeyModel::CycleRolls { cycle: cc },
                            ) is Some || find_in_changes(
                                csm.take(j as int + 1),
                                KeyModel::CycleRolls { cycle: cc },
                            ) is Some) by {
                            let k = KeyModel::CycleRolls { cycle: cc };
                            lemma_find_in_changes_step(csm, j as int, k);
                            assert(!key_matches(k, cm));
                            assert(acc@.contains(cc) <==> (acc0.contains(cc) || find_in_chain(
                                chain.take(i as int),
                                k,
                            ) is Some || find_in_changes(csm.take(j as int), k) is Some));
                        }
                    }
                },
            }
            j = j + 1;
        }
        proof {
            assert(csm.take(csm.len() as int) =~= csm);
            assert forall|c: u64| #![auto]
                acc@.contains(c) <==> (acc0.contains(c) || find_in_chain(
                    chain.take(i as int + 1),
                    KeyModel::CycleRolls { cycle: c },
                ) is Some) by {
                let k = KeyModel::CycleRolls { cycle: c };
                lemma_find_in_chain_step(chain, i as int, k);
            }
        }
        i = i + 1;
    }
    proof {
        assert(chain.take(chain.len() as int) =~= chain);
    }
}

/// First roll count recorded for `address` in a distribution list.
pub open spec fn roll_in_list(rolls: Seq<(u64, u64)>, address: u64) -> Option<u64>
    decreases rolls.len(),
{
    if rolls.len() == 0 {
        None
    } else if rolls[0].0 == address {
        Some(rolls[0].1)
    } else {
        roll_in_list(rolls.skip(1), address)
    }
}

/// The roll count of `address` in the active-roll distribution of `cycle`
/// along the chain.
pub open spec fn cycle_roll_of(chain: Seq<BlockModel>, cycle: u64, address: u64) -> Option<u64> {
    match cycle_rolls_of(chain, cycle) {
        Some(rolls) => roll_in_list(rolls, address),
        None => None,
    }
}

/// First roll count recorded for `address` in a distribution list.
fn lookup_roll(rolls: &Vec<(u64, u64)>, address: u64) -> (r: Option<u64>)
    ensures
        r == roll_in_list(rolls@, address),
{
    let ghost full = rolls@;
    let mut i: usize = 0;
    proof {
        assert(full.skip(0) =~= full);
    }
    while i < rolls.len()
        invariant
            i <= full.len(),
            full == rolls@,
            roll_in_list(full, address) == roll_in_list(full.skip(i as int), address),
        decreases full.len() - i,
    {
        proof {
            assert(full.skip(i as int)[0] == full[i as int]);
            assert(full.skip(i as int).skip(1) =~= full.skip(i as int + 1));
        }
        let (a, count) = rolls[i];
        if a == address {
            return Some(count);
        }
        i = i + 1;
    }
    proof {
        assert(full.skip(full.len() as int) =~= Seq::<(u64, u64)>::empty());
    }
    None
}

impl ExecutionState {
    /// The datastore keys of `address` present in the final and candidate
    /// ledgers: each side lists, once and without order promised, exactly
    /// the keys some applied block wrote for the address.
    pub fn get_final_and_candidate_datastore_keys(&self, address: u64) -> (r: (
        Vec<Vec<u8>>,
        Vec<Vec<u8>>,
    ))
        ensures
            distinct_seq(r.0.deep_view()),
            distinct_seq(r.1.deep_view()),
            forall|kk: Seq<u8>|
                r.0.deep_view().contains(kk) <==> data_entry_of(
                    self.finalized(),
                    address,
                    kk,
                ) is Some,
            forall|kk: Seq<u8>|
                r.1.deep_view().contains(kk) <==> data_entry_of(
                    self.candidate_chain(),
                    address,
                    kk,
                ) is Some,
    {
        let mut fin: Vec<Vec<u8>> = Vec::new();
        proof {
            assert(fin.deep_view() =~= Seq::<Seq<u8>>::empty());
        }
        collect_keys_from(&mut fin, &self.final_blocks, address);
        let mut cand: Vec<Vec<u8>> = Vec::new();
        proof {
            assert(cand.deep_view() =~= Seq::<Seq<u8>>::empty());
        }
        collect_keys_from(&mut cand, &self.final_blocks, address);
        collect_keys_from(&mut cand, &self.candidate_suffix, address);
        proof {
            assert forall|kk: Seq<u8>|
                fin.deep_view().contains(kk) <==> data_entry_of(
                    self.finalized(),
                    address,
                    kk,
                ) is Some by {
                lemma_find_matches(self.finalized(), KeyModel::DataEntry { address, key: kk });
            }
            assert forall|kk: Seq<u8>|
                cand.deep_view().contains(kk) <==> data_entry_of(
                    self.candidate_chain(),
                    address,
                    kk,
                ) is Some by {
                lemma_find_concat(
                    self.finalized(),
                    self.suffix(),
                    KeyModel::DataEntry { address, key: kk },
                );
                lemma_find_matches(
                    self.candidate_chain(),
                    KeyModel::DataEntry { address, key: kk },
                );
            }
        }
        (fin, cand)
    }

    /// The per-cycle roll counts of `address` along the candidate chain:
    /// one entry per cycle that ever got an active-roll distribution, with
    /// the address's count in the latest distribution of that cycle.
    pub fn get_address_cycle_infos(&self, address: u64) -> (r: Vec<(u64, Option<u64>)>)
        ensures
            distinct_seq(r@.map_values(|p: (u64, Option<u64>)| p.0)),
            forall|c: u64|
                r@.map_values(|p: (u64, Option<u64>)| p.0).contains(c) <==> cycle_rolls_of(
                    self.candidate_chain(),
                    c,
                ) is Some,
            forall|i: int|
                0 <= i < r@.len() ==> (#[trigger] r@[i]).1 == cycle_roll_of(
                    self.candidate_chain(),
                    r@[i].0,
                    address,
                ),
    {
        let mut cycles: Vec<u64> = Vec::new();
        collect_cycles_from(&mut cycles, &self.final_blocks);
        collect_cycles_from(&mut cycles, &self.candidate_suffix);
        proof {
            assert forall|c: u64|
                cycles@.contains(c) <==> find_in_chain(
                    self.candidate_chain(),
                    KeyModel::CycleRolls { cycle: c },
                ) is Some by {
                lemma_find_concat(
                    self.finalized(),
                    self.suffix(),
                    KeyModel::CycleRolls { cycle: c },
                );
            }
            assert forall|c: u64|
                cycles@.contains(c) <==> cycle_rolls_of(self.candidate_chain(), c) is Some by {
                lemma_find_matches(self.candidate_chain(), KeyModel::CycleRolls { cycle: c });
            }
        }
        let mut r: Vec<(u64, Option<u64>)> = Vec::new();
        let mut i: usize = 0;
        while i < cycles.len()
            invariant
                i <= cycles@.len(),
                r@.len() == i,
                forall|j: int| 0 <= j < i ==> (#[trigger] r@[j]).0 == cycles@[j],
                forall|j: int|
                    0 <= j < i ==> (#[trigger] r@[j]).1 == cycle_roll_of(
                        self.candidate_chain(),
                        cycles@[j],
                        address,
                    ),
            decreases cycles@.len() - i,
        {
            let cycle = cycles[i];
            let k = ChangeKey::CycleRolls { cycle };
            let rolls = match self.lookup_latest(&k, true) {
                Some(StateChange::SetCycleRolls { rolls, .. }) => lookup_roll(rolls, address),
                _ => None,
            };
            r.push((cycle, rolls));
            i = i + 1;
        }
        proof {
            let firsts = r@.map_values(|p: (u64, Option<u64>)| p.0);
            assert(firsts =~= cycles@);
        }
        r
    }

    /// Everything the core knows about each address asked for, in order.
    pub fn get_addresses_infos(&self, addresses: &Vec<u64>) -> (r: Vec<ExecutionAddressInfo>)
        ensures
            r@.len() == addresses@.len(),
            forall|i: int|
                0 <= i < addresses@.len() ==> self.info_correct(
                    addresses@[i],
                    (#[trigger] r@[i]).deep_view(),
                ),
    {
        let mut r: Vec<ExecutionAddressInfo> = Vec::new();
        let mut i: usize = 0;
        while i < addresses.len()
            invariant
                i <= addresses@.len(),
                r@.len() == i,
                forall|j: int|
                    0 <= j < i ==> self.info_correct(addresses@[j], (#[trigger] r@[j]).deep_view()),
            decreases addresses@.len() - i,
        {
            r.push(self.get_address_info(addresses[i]));
            i = i + 1;
        }
        r
    }

    /// Everything the aggregate info of one address must say.
    pub open spec fn info_correct(&self, address: u64, info: InfoModel) -> bool {
        &&& distinct_seq(info.final_datastore_keys)
        &&& distinct_seq(info.candidate_datastore_keys)
        &&& forall|kk: Seq<u8>|
            info.final_datastore_keys.contains(kk) <==> data_entry_of(
                self.finalized(),
                address,
                kk,
            ) is Some
        &&& forall|kk: Seq<u8>|
            info.candidate_datastore_keys.contains(kk) <==> data_entry_of(
                self.candidate_chain(),
                address,
                kk,
            ) is Some
        &&& info.final_parallel_balance == (match parallel_balance_of(self.finalized(), address) {
            Some(v) => v,
            None => 0u64,
        })
        &&& info.candidate_parallel_balance == (match parallel_balance_of(
            self.candidate_chain(),
            address,
        ) {
            Some(v) => v,
            None => 0u64,
        })
        &&& info.final_sequential_balance == (match sequential_balance_of(
            self.finalized(),
            address,
        ) {
            Some(v) => v,
            None => 0u64,
        })
        &&& info.candidate_sequential_balance == (match sequential_balance_of(
            self.candidate_chain(),
            address,
        ) {
            Some(v) => v,
            None => 0u64,
        })
        &&& info.final_roll_count == (match rolls_of(self.finalized(), address) {
            Some(v) => v,
            None => 0u64,
        })
        &&& info.candidate_roll_count == (match rolls_of(self.candidate_chain(), address) {
            Some(v) => v,
            None => 0u64,
        })
        &&& info.future_deferred_credits == deferred_credits_of(self.candidate_chain(), address)
        &&& distinct_seq(info.cycle_infos.map_values(|p: (u64, Option<u64>)| p.0))
        &&& forall|c: u64|
            info.cycle_infos.map_values(|p: (u64, Option<u64>)| p.0).contains(c)
                <==> cycle_rolls_of(self.candidate_chain(), c) is Some
        &&& forall|i: int|
            0 <= i < info.cycle_infos.len() ==> (#[trigger] info.cycle_infos[i]).1
                == cycle_roll_of(self.candidate_chain(), info.cycle_infos[i].0, address)
    }

    /// Everything the core knows about one address.
    pub fn get_address_info(&self, address: u64) -> (r: ExecutionAddressInfo)
        ensures
            self.info_correct(address, r.deep_view()),
    {
        let (final_datastore_keys, candidate_datastore_keys) =
            self.get_final_and_candidate_datastore_keys(address);
        let (fpb, cpb) = self.get_final_and_candidate_parallel_balance(address);
        let (fsb, csb) = self.get_final_and_candidate_sequential_balance(address);
        let (frc, crc) = self.get_final_and_candidate_rolls(address);
        let future_deferred_credits = self.get_address_future_deferred_credits(address);
        let cycle_infos = self.get_address_cycle_infos(address);
        ExecutionAddressInfo {
            final_datastore_keys,
            candidate_datastore_keys,
            final_parallel_balance: match fpb {
                Some(v) => v,
                None => 0,
            },
            candidate_parallel_balance: match cpb {
                Some(v) => v,
                None => 0,
            },
            final_sequential_balance: match fsb {
                Some(v) => v,
                None => 0,
            },
            candidate_sequential_balance: match csb {
                Some(v) => v,
                None => 0,
            },
            final_roll_count: match frc {
                Some(v) => v,
                None => 0,
            },
            candidate_roll_count: match crc {
                Some(v) => v,
                None => 0,
            },
            future_deferred_credits,
            cycle_infos,
        }
    }
}

} // verus!
