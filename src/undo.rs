use vstd::prelude::*;

use crate::block::Block;
use crate::utxo::UTXO;

verus! {

/// The outputs that one transaction of a block spent, each with its txid.
#[derive(Clone, Debug, PartialEq, Eq, Hash)]
pub struct UndoTransaction {
    pub original_tx_id: [u8; 32],
    pub removed_utxos: Vec<([u8; 32], UTXO)>,
}

/// The journal entry that lets an applied block be rolled back.
#[derive(Clone, Debug, PartialEq, Eq)]
pub struct UndoBlock {
    pub height: usize,
    pub original_hash: [u8; 32],
    pub undo_transactions: Vec<UndoTransaction>,
}

/// The outputs that a list of journal records restores, in order.
pub open spec fn restored_of(s: Seq<UndoTransaction>) -> Seq<UTXO>
    decreases s.len(),
{
    if s.len() == 0 {
        Seq::empty()
    } else {
        restored_of(s.drop_last()) + s.last().removed_utxos@.map_values(|p: ([u8; 32], UTXO)| p.1)
    }
}

impl UndoBlock {
    /// The outputs that rolling the block back restores, in order.
    pub open spec fn restored(self) -> Seq<UTXO> {
        restored_of(self.undo_transactions@)
    }

    /// The journal entry of the genesis block: it spent nothing.
    pub fn genesis() -> (r: Self)
        ensures
            r.height == 0,
            r.original_hash@ == Block::spec_genesis_hash(),
            r.undo_transactions@.len() == 0,
    {
        UndoBlock { height: 0, original_hash: Block::genesis().header.hash, undo_transactions: Vec::new() }
    }
}

/// The outputs that two lists of journal records restore, one after the other.
pub proof fn lemma_restored_concat(a: Seq<UndoTransaction>, b: Seq<UndoTransaction>)
    ensures
        restored_of(a + b) == restored_of(a) + restored_of(b),
    decreases b.len(),
{
    if b.len() == 0 {
        assert(a + b =~= a);
        assert(restored_of(a) + restored_of(b) =~= restored_of(a));
    } else {
        lemma_restored_concat(a, b.drop_last());
        assert((a + b).drop_last() =~= a + b.drop_last());
        assert((a + b).last() == b.last());
        assert(restored_of(a + b) =~= restored_of(a) + restored_of(b));
    }
}

/// The outputs that one journal record restores.
pub proof fn lemma_restored_single(u: UndoTransaction)
    ensures
        restored_of(seq![u]) == u.removed_utxos@.map_values(|p: ([u8; 32], UTXO)| p.1),
{
    assert(seq![u].drop_last() =~= Seq::<UndoTransaction>::empty());
    assert(seq![u].last() == u);
    assert(restored_of(Seq::<UndoTransaction>::empty()) =~= Seq::empty());
    assert(restored_of(seq![u]) =~= u.removed_utxos@.map_values(|p: ([u8; 32], UTXO)| p.1));
}

} // verus!
