use vstd::prelude::*;

use crate::block::{spent_outpoints, Block};
use crate::blockchain::{applied, chain_valid, undone, BlockChain, ChainView};
use crate::ledger::{
    apply_utxos, block_check, consumed_utxos, fee_floor, lemma_check_applicable,
    lemma_lookup_has_key, lemma_undo_apply, spent_total, tx_check, tx_fee,
};
use crate::parameters::Parameters;
use crate::utxo::{key_of, outputs_total, Transaction, UTXO};
use crate::utxo_set::{has_key, keys_unique};

verus! {

/// Applying a block and then rolling it back leaves the same blocks, the
/// same journal, the same unspent set and the same metadata as before.
pub proof fn law_undo_round_trip(v: ChainView, b: Block, w: ChainView, x: ChainView)
    requires
        chain_valid(v),
        applied(v, b, w),
        undone(w, x),
    ensures
        x.utxos == v.utxos,
        x.metadata == v.metadata,
        x.blocks == v.blocks,
        x.undo == v.undo,
{
    lemma_undo_apply(v.utxos, b);
    assert(w.blocks.last() == b);
    assert(x.blocks =~= v.blocks);
    assert(x.undo =~= v.undo);
}

/// A transaction that passes its check has at least one input, spends exactly what its outputs pay
/// plus its fee, and the fee is at least the least fee.
pub proof fn law_conservation(s: Set<UTXO>, tx: Transaction, params: Parameters)
    requires
        tx_check(s, tx, params) is Ok,
    ensures
        tx.input_list@.len() > 0,
        spent_total(s, tx.input_list@) == outputs_total(tx.output_list@) + tx_fee(s, tx),
        tx_fee(s, tx) >= fee_floor(params, tx),
{
}

/// Within a block that passes its check no output is spent twice.
pub proof fn law_no_double_spend_in_block(
    s: Set<UTXO>,
    tip: Block,
    b: Block,
    params: Parameters,
    vrf_ok: bool,
)
    requires
        block_check(s, tip, b, params, vrf_ok) is Ok,
    ensures
        spent_outpoints(b.transactions@).no_duplicates(),
{
}

/// An output that a block spends is no longer unspent once the block is
/// applied, so no later input can spend it unless it is created anew.
pub proof fn law_spent_outputs_leave(s: Set<UTXO>, tip: Block, b: Block, params: Parameters)
    requires
        keys_unique(s),
        block_check(s, tip, b, params, true) is Ok,
    ensures
        forall|u: UTXO| consumed_utxos(s, b).contains(u) ==> !apply_utxos(s, b).contains(u),
{
    lemma_check_applicable(s, tip, b, params);
    let cr = crate::ledger::created_utxos(b);
    assert forall|u: UTXO| consumed_utxos(s, b).contains(u) implies !apply_utxos(s, b).contains(u) by {
        assert(consumed_utxos(s, b).to_set().contains(u));
        if cr.to_set().contains(u) {
            let a = choose|a: int| 0 <= a < cr.len() && cr[a] == u;
            let m = choose|m: int| 0 <= m < consumed_utxos(s, b).len() && consumed_utxos(s, b)[m] == u;
            let ops = spent_outpoints(b.transactions@);
            assert(has_key(s, ops[m]));
            lemma_lookup_has_key(s, ops[m]);
            assert(!has_key(s, key_of(cr[a])));
        }
    }
}

/// Every block of a chain hashes to its header hash and commits to its body
/// by its Merkle root.
pub proof fn law_persisted_blocks(chain: &BlockChain)
    requires
        chain.wf(),
    ensures
        forall|i: int|
            0 <= i < chain@.blocks.len() ==> (#[trigger] chain@.blocks[i]).header.hash@
                == chain@.blocks[i].header.computed_hash() && chain@.blocks[i].header.merkle_root@
                == chain@.blocks[i].body_root(),
{
    chain.lemma_valid();
}

/// The mempool of a chain never holds more than its capacity.
pub proof fn law_mempool_bound(chain: &BlockChain)
    requires
        chain.wf(),
    ensures
        chain@.mempool.len() <= chain.mempool_capacity(),
{
    chain.lemma_valid();
}

} // verus!
