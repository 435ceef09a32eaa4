use vstd::prelude::*;

use crate::address::P2PKHAddress;
use crate::block::{body_size, spent_outpoints, Block};
use crate::blockchain::BlockChain;
use crate::hash::bytes32_eq;
use crate::ledger::{
    block_check, body_tx_check, coinbase_keys_below, first_tx_failure, total_fees, tx_check, COINBASE_TXID,
};
use crate::utxo::{outpoint, CoinbaseTransaction, Input, Transaction, UTXO};
use crate::utxo_set::has_key;

verus! {

/// Where every transaction from `t` on passes, none fails.
pub proof fn lemma_all_pass(s: Set<UTXO>, txs: Seq<Transaction>, t: int, params: crate::parameters::Parameters)
    requires
        0 <= t,
        forall|j: int| t <= j < txs.len() ==> body_tx_check(s, txs, j, params) is Ok,
    ensures
        first_tx_failure(s, txs, t, params) is None,
    decreases txs.len() - t,
{
    if t < txs.len() {
        lemma_all_pass(s, txs, t + 1, params);
    }
}

/// Whether none of the outputs in `ops` is spent by an input of `tx`, and
/// `tx` spends none twice.
fn spends_fresh(ops: &Vec<([u8; 32], usize)>, tx: &Transaction) -> (r: bool)
    ensures
        r == (forall|k: int, m: int|
            0 <= k < tx.input_list@.len() && 0 <= m < ops@.len() ==> outpoint(
                #[trigger] tx.input_list@[k],
            ) != #[trigger] ops@[m]),
{
    let mut k: usize = 0;
    while k < tx.input_list.len()
        invariant
            k <= tx.input_list@.len(),
            forall|a: int, m: int|
                0 <= a < k && 0 <= m < ops@.len() ==> outpoint(#[trigger] tx.input_list@[a]) != #[trigger] ops@[m],
        decreases tx.input_list@.len() - k,
    {
        let mut m: usize = 0;
        while m < ops.len()
            invariant
                k < tx.input_list@.len(),
                m <= ops@.len(),
                forall|a: int, b: int|
                    0 <= a < k && 0 <= b < ops@.len() ==> outpoint(#[trigger] tx.input_list@[a]) != #[trigger] ops@[b],
                forall|b: int| 0 <= b < m ==> outpoint(tx.input_list@[k as int]) != #[trigger] ops@[b],
            decreases ops@.len() - m,
        {
            if tx.input_list[k].output_index == ops[m].1 && bytes32_eq(&tx.input_list[k].prev_txid, &ops[m].0) {
                assert(tx.input_list@[k as int].prev_txid =~= ops@[m as int].0);
                assert(outpoint(tx.input_list@[k as int]) == ops@[m as int]);
                return false;
            }
            m = m + 1;
        }
        k = k + 1;
    }
    true
}

/// No input of `t` spends an output in `ops`.
pub open spec fn spends_disjoint(ops: Seq<([u8; 32], usize)>, t: Transaction) -> bool {
    forall|k: int, m: int|
        0 <= k < t.input_list@.len() && 0 <= m < ops.len() ==> outpoint(#[trigger] t.input_list@[k]) != #[trigger] ops[m]
}

/// The transactions the forger takes from `cands`, from index `i` on, given
/// those already taken: in order, it skips one that fails its check, repeats
/// an id taken or spends an output already spent, or whose fee would carry
/// the coinbase past the largest amount; it stops at the first that would
/// make the body outgrow its limit.
pub open spec fn selection(
    s: Set<UTXO>,
    p: crate::parameters::Parameters,
    cands: Seq<Transaction>,
    i: int,
    chosen: Seq<Transaction>,
) -> Seq<Transaction>
    decreases cands.len() - i,
{
    if i < 0 || i >= cands.len() {
        chosen
    } else {
        let t = cands[i];
        if !(tx_check(s, t, p) is Ok) || (exists|j: int| 0 <= j < chosen.len() && #[trigger] chosen[j].id == t.id)
            || !spends_disjoint(spent_outpoints(chosen), t) {
            selection(s, p, cands, i + 1, chosen)
        } else if body_size(chosen) + t.size() > p.network_parameters.max_block_body_size {
            chosen
        } else if total_fees(s, chosen) + crate::ledger::tx_fee(s, t) + p.economic_parameters.block_reward
            > u64::MAX {
            selection(s, p, cands, i + 1, chosen)
        } else {
            selection(s, p, cands, i + 1, chosen.push(t))
        }
    }
}

impl BlockChain {
    /// Forges the next block from `candidates`, the pending transactions in
    /// the order they were admitted: it takes them as `selection` says, and
    /// the coinbase pays the reward and the fees to `reward_address`. The
    /// block passes its check against the current tip, given a winning
    /// lottery. `None` where the chain has no room for another height.
    pub fn forge_block(
        &self,
        candidates: Vec<Transaction>,
        slot: u64,
        reward_address: P2PKHAddress,
        vrf_value: [u8; 32],
        vrf_proof: [u8; 96],
        forger_vrf_pk: [u8; 32],
    ) -> (r: Option<Block>)
        requires
            self.wf(),
        ensures
            r is Some <==> self@.blocks.last().header.height < usize::MAX - 2,
            r is Some ==> block_check(self@.utxos, self@.blocks.last(), r->0, self@.params, true) is Ok,
            r is Some ==> {
                let b = r->0;
                &&& b.transactions@ == selection(self@.utxos, self@.params, candidates@, 0, Seq::empty())
                &&& b.header.slot == slot
                &&& b.header.height == self@.blocks.len()
                &&& b.header.previous_hash == self@.blocks.last().header.hash
                &&& b.header.forger_address == reward_address
                &&& b.header.coinbase.output.address == reward_address
                &&& b.header.coinbase.output.amount == self@.params.economic_parameters.block_reward + total_fees(
                    self@.utxos,
                    b.transactions@,
                )
                &&& b.header.vrf_value == vrf_value
                &&& b.header.vrf_proof == vrf_proof
                &&& b.header.forger_vrf_pk == forger_vrf_pk
            },
    {
        proof {
            self.lemma_valid();
        }
        let tip = self.get_last_block();
        if tip.header.height >= usize::MAX - 2 {
            return None;
        }
        let ghost s = self@.utxos;
        let ghost p = self@.params;
        let ghost cands = candidates@;
        let params = self.get_parameters();
        let reward = params.economic_parameters.block_reward;
        let max_body = params.network_parameters.max_block_body_size;
        let mut pool = candidates;
        let mut selected: Vec<Transaction> = Vec::new();
        let mut ops: Vec<([u8; 32], usize)> = Vec::new();
        let mut body: usize = 0;
        let mut fees: u64 = 0;
        let mut i: usize = 0;
        let mut stopped = false;
        proof {
            assert(spent_outpoints(Seq::<Transaction>::empty()) =~= Seq::empty());
        }
        while i < pool.len() && !stopped
            invariant
                stopped ==> selection(s, p, cands, i as int, selected@) == selected@,
                self.wf(),
                s == self@.utxos,
                p == self@.params,
                params == p,
                reward == p.economic_parameters.block_reward,
                max_body == p.network_parameters.max_block_body_size,
                pool@.len() == cands.len(),
                forall|j: int| i <= j < cands.len() ==> #[trigger] pool@[j] == cands[j],
                i <= pool@.len(),
                selection(s, p, cands, 0, Seq::empty()) == selection(s, p, cands, i as int, selected@),
                forall|j: int| 0 <= j < selected@.len() ==> body_tx_check(s, selected@, j, p) is Ok,
                ops@ == spent_outpoints(selected@),
                ops@.no_duplicates(),
                body == body_size(selected@),
                body <= max_body,
                fees == total_fees(s, selected@),
                fees + reward <= u64::MAX,
            decreases pool@.len() - i + (if stopped { 0int } else { 1int }),
        {
            let ghost t = cands[i as int];
            let fee = match self.check_transaction_fee(&pool[i]) {
                Err(_) => {
                    i = i + 1;
                    continue;
                },
                Ok(fee) => fee,
            };
            let mut known = false;
            let mut j: usize = 0;
            while j < selected.len()
                invariant
                    j <= selected@.len(),
                    i < pool@.len(),
                    !known ==> forall|a: int| 0 <= a < j ==> #[trigger] selected@[a].id != pool@[i as int].id,
                    known ==> exists|a: int| 0 <= a < selected@.len() && #[trigger] selected@[a].id == pool@[i as int].id,
                decreases selected@.len() - j,
            {
                if bytes32_eq(&selected[j].id, &pool[i].id) {
                    assert(selected@[j as int].id =~= pool@[i as int].id);
                    known = true;
                } else {
                    assert(selected@[j as int].id != pool@[i as int].id) by {
                        if selected@[j as int].id == pool@[i as int].id {
                            assert(selected@[j as int].id@ == pool@[i as int].id@);
                        }
                    }
                }
                j = j + 1;
            }
            if known || !spends_fresh(&ops, &pool[i]) {
                i = i + 1;
                continue;
            }
            let size = match pool[i].size_within(max_body - body) {
                None => {
                    assert(!(exists|a: int| 0 <= a < selected@.len() && #[trigger] selected@[a].id == t.id));
                    stopped = true;
                    continue;
                },
                Some(size) => size,
            };
            if fee > (u64::MAX - reward - fees) as u128 {
                i = i + 1;
                continue;
            }
            let mut cand = Transaction::create_transaction(Vec::new(), Vec::new(), 0);
            std::mem::swap(&mut pool[i], &mut cand);
            assert(cand == t);
            let ghost old_sel = selected@;
            let ghost own = cand.input_list@.map_values(|x: Input| outpoint(x));
            let mut k: usize = 0;
            while k < cand.input_list.len()
                invariant
                    k <= cand.input_list@.len(),
                    own == cand.input_list@.map_values(|x: Input| outpoint(x)),
                    ops@ == spent_outpoints(old_sel) + own.subrange(0, k as int),
                decreases cand.input_list@.len() - k,
            {
                ops.push((cand.input_list[k].prev_txid, cand.input_list[k].output_index));
                assert(own.subrange(0, k + 1) =~= own.subrange(0, k as int).push(own[k as int]));
                k = k + 1;
            }
            proof {
                assert(own.subrange(0, k as int) =~= own);
                assert(tx_check(s, cand, p) is Ok);
                assert(cand.inputs_unique());
                let new_sel = old_sel.push(cand);
                assert(new_sel.drop_last() =~= old_sel);
                assert(new_sel.last() == cand);
                assert(spent_outpoints(new_sel) == spent_outpoints(old_sel) + own);
                assert(ops@.no_duplicates()) by {
                    let base = spent_outpoints(old_sel);
                    assert forall|x: int, y: int| 0 <= x < ops@.len() && 0 <= y < ops@.len() && x != y implies ops@[x]
                        != ops@[y] by {
                        if x >= base.len() && y >= base.len() {
                            assert(ops@[x] == outpoint(cand.input_list@[x - base.len()]));
                            assert(ops@[y] == outpoint(cand.input_list@[y - base.len()]));
                            if x < y {
                                assert(outpoint(cand.input_list@[x - base.len()]) != outpoint(cand.input_list@[y - base.len()]));
                            } else {
                                assert(outpoint(cand.input_list@[y - base.len()]) != outpoint(cand.input_list@[x - base.len()]));
                            }
                        } else if x >= base.len() {
                            assert(ops@[x] == outpoint(cand.input_list@[x - base.len()]));
                            assert(ops@[y] == base[y]);
                        } else if y >= base.len() {
                            assert(ops@[y] == outpoint(cand.input_list@[y - base.len()]));
                            assert(ops@[x] == base[x]);
                        }
                    }
                }
                assert(body_tx_check(s, new_sel, old_sel.len() as int, p) is Ok) by {
                    assert forall|a: int| 0 <= a < old_sel.len() implies #[trigger] new_sel[a].id != new_sel[old_sel.len() as int].id by {
                        assert(new_sel[a] == old_sel[a]);
                    }
                }
                assert forall|j: int| 0 <= j < old_sel.len() implies body_tx_check(s, new_sel, j, p) is Ok by {
                    assert(body_tx_check(s, old_sel, j, p) is Ok);
                    assert(new_sel[j] == old_sel[j]);
                    assert forall|a: int| 0 <= a < j implies #[trigger] new_sel[a] == old_sel[a] by {}
                    assert(body_tx_check(s, new_sel, j, p) == body_tx_check(s, old_sel, j, p));
                }
                assert(body_size(new_sel) == body_size(old_sel) + cand.size());
                assert(total_fees(s, new_sel) == total_fees(s, old_sel) + crate::ledger::tx_fee(s, cand));
            }
            selected.push(cand);
            body = body + size;
            fees = fees + fee as u64;
            i = i + 1;
        }
        proof {
            lemma_all_pass(s, selected@, 0, p);
            assert(selection(s, p, cands, 0, Seq::empty()) == selected@);
        }
        let coinbase = CoinbaseTransaction::create(reward_address, reward + fees);
        let height = tip.header.height + 1;
        let mut block = Block::new(height, selected, tip.header.hash, coinbase, slot, reward_address);
        block.header.vrf_value = vrf_value;
        block.header.vrf_proof = vrf_proof;
        block.header.forger_vrf_pk = forger_vrf_pk;
        proof {
            assert(!has_key(s, (COINBASE_TXID, height))) by {
                if has_key(s, (COINBASE_TXID, height)) {
                    let u = choose|u: UTXO| s.contains(u) && crate::utxo::key_of(u) == (COINBASE_TXID, height);
                    assert(coinbase_keys_below(s, self@.blocks.len() as int));
                }
            }
        }
        Some(block)
    }

    /// Applies a block received or forged for a slot: its lottery check is
    /// made against the epoch hash and the forger's threshold, then the block
    /// check with that outcome.
    pub fn apply_block(&mut self, block: Block, last_epoch_hash: &[u8; 32], threshold: &[u8; 32]) -> (r:
        Result<(), crate::ledger::InvalidityReason>)
        requires
            old(self).wf(),
        ensures
            final(self).wf(),
            r == block_check(
                old(self)@.utxos,
                old(self)@.blocks.last(),
                block,
                old(self)@.params,
                crate::lottery::lottery_ok(block, last_epoch_hash@, threshold@),
            ),
            r is Ok ==> crate::blockchain::applied(old(self)@, block, final(self)@),
            r is Ok ==> final(self)@.blocks.len() == old(self)@.blocks.len() + 1,
            r is Err ==> final(self)@ == old(self)@,
    {
        let vrf_ok = crate::lottery::Lottery::check_block_lottery(&block, last_epoch_hash, threshold);
        self.add_block(block, vrf_ok)
    }
}

} // verus!
