use vstd::prelude::*;

use crate::block::{spent_outpoints, Block};
use crate::hash::bytes32_eq;
use crate::ledger::{
    applicable, apply_utxos, block_check, body_tx_check, coinbase_utxo, consumed_utxos, created_of,
    created_utxos, first_tx_failure, inputs_exist, inputs_owned, outputs_as_utxos, spent_total,
    total_fees, tx_check, tx_fee, undo_utxos, InvalidityReason, COINBASE_TXID, lemma_spent_concat,
    lemma_spent_single, lemma_created_concat, lemma_created_single, lemma_lookup_has_key,
    lemma_check_applicable, lemma_apply_keys_unique, lemma_undo_apply, coinbase_keys_below, lemma_apply_coinbase_keys,
};
use crate::mempool::{ids_unique, Mempool};
use crate::parameters::Parameters;
use crate::undo::{lemma_restored_concat, lemma_restored_single, restored_of, UndoBlock, UndoTransaction};
use crate::utxo::{key_of, outpoint, outputs_total, Input, Transaction, TxInvalidity, UTXO};
use crate::utxo_set::{has_key, keys_unique, lookup, UTXOSet};

verus! {

/// The chain's metadata: how many blocks it holds and the hash of the last.
#[derive(Clone, Copy, Debug, PartialEq, Eq)]
pub struct ChainMetadata {
    pub length: usize,
    pub best_block: [u8; 32],
}

impl ChainMetadata {
    /// Metadata for a chain of `length` blocks ending in `best_block`.
    pub fn new(length: usize, best_block: [u8; 32]) -> (r: Self)
        ensures
            r.length == length,
            r.best_block == best_block,
    {
        ChainMetadata { length, best_block }
    }

    /// The number of blocks.
    pub fn get_len(&self) -> (r: usize)
        ensures
            r == self.length,
    {
        self.length
    }

    /// Records the hash of the last block.
    pub fn set_best_block(&mut self, best_block: [u8; 32])
        ensures
            final(self).best_block == best_block,
            final(self).length == old(self).length,
    {
        self.best_block = best_block;
    }

    /// The hash of the last block.
    pub fn get_best_block(&self) -> (r: [u8; 32])
        ensures
            r == self.best_block,
    {
        self.best_block
    }
}

/// What a chain holds, as values: the blocks by height, the undo journal by
/// height, the unspent set, the mempool, the metadata and the parameters.
pub struct ChainView {
    pub blocks: Seq<Block>,
    pub undo: Seq<UndoBlock>,
    pub utxos: Set<UTXO>,
    pub mempool: Seq<Transaction>,
    pub metadata: ChainMetadata,
    pub params: Parameters,
}

/// What holds of every chain: blocks numbered by height and linked by hash,
/// each header hashing to its hash and committing to its body by its Merkle root,
/// one journal entry per block, metadata that names the last block, and an
/// unspent set and a mempool with unique keys.
pub open spec fn chain_valid(v: ChainView) -> bool {
    &&& v.blocks.len() >= 1
    &&& v.blocks.len() < usize::MAX
    &&& forall|i: int| 0 <= i < v.blocks.len() ==> (#[trigger] v.blocks[i]).header.height == i
    &&& forall|i: int|
        1 <= i < v.blocks.len() ==> (#[trigger] v.blocks[i]).header.previous_hash == v.blocks[i
            - 1].header.hash
    &&& forall|i: int|
        0 <= i < v.blocks.len() ==> (#[trigger] v.blocks[i]).header.hash@ == v.blocks[i].header.computed_hash()
            && v.blocks[i].header.merkle_root@ == v.blocks[i].body_root()
    &&& v.undo.len() == v.blocks.len()
    &&& forall|i: int|
        0 <= i < v.undo.len() ==> (#[trigger] v.undo[i]).original_hash == v.blocks[i].header.hash
            && v.undo[i].height == i
    &&& v.metadata.length == v.blocks.len()
    &&& v.metadata.best_block == v.blocks.last().header.hash
    &&& keys_unique(v.utxos)
    &&& ids_unique(v.mempool)
}

/// Whether the transaction with `id` is in the body of `b`.
pub open spec fn in_body(b: Block, id: [u8; 32]) -> bool {
    exists|t: int| 0 <= t < b.transactions@.len() && #[trigger] b.transactions@[t].id == id
}

/// `w` is `v` with the block `b` applied: the block appended with its
/// journal entry, its spends removed and its outputs added, its transactions
/// out of the mempool, and the metadata naming it.
pub open spec fn applied(v: ChainView, b: Block, w: ChainView) -> bool {
    &&& applicable(v.utxos, b)
    &&& w.blocks == v.blocks.push(b)
    &&& w.undo.len() == v.undo.len() + 1
    &&& w.undo.drop_last() == v.undo
    &&& w.undo.last().restored() == consumed_utxos(v.utxos, b)
    &&& w.undo.last().height == b.header.height
    &&& w.undo.last().original_hash == b.header.hash
    &&& w.utxos == apply_utxos(v.utxos, b)
    &&& forall|x: Transaction| #[trigger]
        w.mempool.contains(x) <==> v.mempool.contains(x) && !in_body(b, x.id)
    &&& w.metadata == ChainMetadata { length: (v.metadata.length + 1) as usize, best_block: b.header.hash }
    &&& w.params == v.params
}

/// `w` is `v` with its last block rolled back: the block and its journal
/// entry dropped, its outputs removed and the outputs it spent restored.
pub open spec fn undone(v: ChainView, w: ChainView) -> bool {
    &&& w.blocks == v.blocks.drop_last()
    &&& w.undo == v.undo.drop_last()
    &&& w.utxos == undo_utxos(v.utxos, v.blocks.last(), v.undo.last().restored())
    &&& w.mempool == v.mempool
    &&& w.metadata == ChainMetadata {
        length: (v.metadata.length - 1) as usize,
        best_block: w.blocks.last().header.hash,
    }
    &&& w.params == v.params
}

/// Why a transaction was not admitted to the mempool.
#[derive(Clone, Copy, Debug, PartialEq, Eq, Structural)]
pub enum AdmissionError {
    /// The transaction fails its check.
    InvalidTransaction(TxInvalidity),
    /// The mempool is full.
    MempoolFull,
    /// A transaction with the same id is pending.
    AlreadyKnown,
}

/// Why a block cannot be rolled back.
#[derive(Clone, Copy, Debug, PartialEq, Eq, Structural)]
pub enum UndoError {
    /// The hash is not the tip's, or the tip is the genesis block.
    NotTip,
}

/// The chain engine: it owns the blocks, the undo journal, the unspent set
/// and the mempool.
pub struct BlockChain {
    chain: Vec<Block>,
    undo_blocks: Vec<UndoBlock>,
    utxo_set: UTXOSet,
    mempool: Mempool,
    metadata: ChainMetadata,
    parameters: Parameters,
    history: Ghost<Seq<Set<UTXO>>>,
}

impl View for BlockChain {
    type V = ChainView;

    closed spec fn view(&self) -> ChainView {
        ChainView {
            blocks: self.chain@,
            undo: self.undo_blocks@,
            utxos: self.utxo_set@,
            mempool: self.mempool@,
            metadata: self.metadata,
            params: self.parameters,
        }
    }
}

impl BlockChain {
    /// The chain is valid, and each applied block, with its journal entry,
    /// is what applying it to the unspent set before it gave.
    pub closed spec fn wf(&self) -> bool {
        &&& chain_valid(self@)
        &&& self.utxo_set.wf()
        &&& self.mempool.wf()
        &&& self.history@.len() == self.chain@.len()
        &&& self.history@.last() == self.utxo_set@
        &&& forall|i: int| 0 <= i < self.history@.len() ==> keys_unique(#[trigger] self.history@[i])
        &&& forall|i: int|
            0 <= i < self.history@.len() ==> coinbase_keys_below(#[trigger] self.history@[i], i + 1)
        &&& forall|i: int|
            1 <= i < self.chain@.len() ==> {
                &&& applicable(self.history@[i - 1], #[trigger] self.chain@[i])
                &&& self.history@[i] == apply_utxos(self.history@[i - 1], self.chain@[i])
                &&& self.undo_blocks@[i].restored() == consumed_utxos(
                    self.history@[i - 1],
                    self.chain@[i],
                )
            }
    }

    /// The capacity of the mempool.
    pub closed spec fn mempool_capacity(&self) -> nat {
        self.mempool.capacity()
    }

    /// A chain of the genesis block alone, with an empty unspent set and an
    /// empty mempool for `max_mempool_size_mb` megabytes.
    pub fn init(parameters: Parameters, max_mempool_size_mb: usize) -> (r: Self)
        requires
            parameters.network_parameters.max_tx_size > 0,
        ensures
            r.wf(),
            r@.blocks.len() == 1,
            r@.blocks[0].header.hash@ == Block::spec_genesis_hash(),
            r@.blocks[0].header.height == 0,
            crate::block::is_genesis(r@.blocks[0]),
            r@.utxos == Set::<UTXO>::empty(),
            r@.mempool.len() == 0,
            r@.params == parameters,
            r.mempool_capacity() == crate::mempool::mempool_capacity(
                max_mempool_size_mb,
                parameters.network_parameters.max_tx_size,
            ),
    {
        let genesis = Block::genesis();
        let undo = UndoBlock::genesis();
        let metadata = ChainMetadata { length: 1, best_block: genesis.header.hash };
        let mut chain = Vec::new();
        chain.push(genesis);
        let mut undo_blocks = Vec::new();
        undo_blocks.push(undo);
        let utxo_set = UTXOSet::genesis();
        proof {
            utxo_set.lemma_keys_unique();
        }
        let ghost hist = seq![Set::<UTXO>::empty()];
        let r = BlockChain {
            chain,
            undo_blocks,
            utxo_set,
            mempool: Mempool::new(max_mempool_size_mb, parameters.network_parameters.max_tx_size),
            metadata,
            parameters,
            history: Ghost(hist),
        };
        assert(r.undo_blocks@[0].original_hash@ == r.chain@[0].header.hash@);
        assert(r.undo_blocks@[0].original_hash =~= r.chain@[0].header.hash);
        r
    }

    /// The validity facts that callers may rely on.
    pub proof fn lemma_valid(&self)
        requires
            self.wf(),
        ensures
            chain_valid(self@),
            self@.mempool.len() <= self.mempool_capacity(),
            coinbase_keys_below(self@.utxos, self@.blocks.len() as int),
    {
        assert(self.history@[self.history@.len() - 1] == self.utxo_set@);
    }

    /// The height of the last block.
    pub fn get_height(&self) -> (r: usize)
        requires
            self.wf(),
        ensures
            r == self@.blocks.len() - 1,
    {
        self.chain.len() - 1
    }

    /// The last block.
    pub fn get_last_block(&self) -> (r: &Block)
        requires
            self.wf(),
        ensures
            *r == self@.blocks.last(),
    {
        &self.chain[self.chain.len() - 1]
    }

    /// The block at `height`, if the chain is that long.
    pub fn get_block_at(&self, height: usize) -> (r: Option<&Block>)
        ensures
            r is Some <==> height < self@.blocks.len(),
            r is Some ==> *r->0 == self@.blocks[height as int],
    {
        if height < self.chain.len() {
            Some(&self.chain[height])
        } else {
            None
        }
    }

    /// The height of the block with `hash`, if the chain holds it.
    pub fn height_of(&self, hash: &[u8; 32]) -> (r: Option<usize>)
        ensures
            match r {
                Some(h) => h < self@.blocks.len() && self@.blocks[h as int].header.hash == *hash
                    && forall|j: int| 0 <= j < h ==> self@.blocks[j].header.hash != *hash,
                None => forall|j: int|
                    0 <= j < self@.blocks.len() ==> self@.blocks[j].header.hash != *hash,
            },
    {
        let mut i: usize = 0;
        while i < self.chain.len()
            invariant
                i <= self.chain@.len(),
                forall|j: int| 0 <= j < i ==> self.chain@[j].header.hash != *hash,
            decreases self.chain@.len() - i,
        {
            if bytes32_eq(&self.chain[i].header.hash, hash) {
                assert(self.chain@[i as int].header.hash =~= *hash);
                return Some(i);
            }
            i = i + 1;
        }
        None
    }

    /// The block with `hash`, if the chain holds it.
    pub fn get_block_by(&self, hash: &[u8; 32]) -> (r: Option<&Block>)
        ensures
            r is Some <==> exists|j: int|
                0 <= j < self@.blocks.len() && #[trigger] self@.blocks[j].header.hash == *hash,
            r is Some ==> r->0.header.hash == *hash && self@.blocks.contains(*r->0),
    {
        match self.height_of(hash) {
            Some(h) => {
                assert(self@.blocks[h as int].header.hash == *hash);
                Some(&self.chain[h])
            },
            None => None,
        }
    }

    /// The unspent outputs of the transaction `txid`.
    pub fn get_utxo_list(&self, txid: &[u8; 32]) -> (r: Vec<UTXO>)
        ensures
            r@.to_set() == self@.utxos.filter(|u: UTXO| u.txid == *txid),
    {
        self.utxo_set.get_utxo_list(txid)
    }

    /// The unspent output with key (`txid`, `index`), if there is one.
    pub fn get_utxo(&self, txid: &[u8; 32], index: usize) -> (r: Option<UTXO>)
        requires
            self.wf(),
        ensures
            r is Some <==> has_key(self@.utxos, (*txid, index)),
            r is Some ==> r->0 == lookup(self@.utxos, (*txid, index)),
    {
        self.utxo_set.get(txid, index)
    }

    /// The unspent outputs paid to `address`.
    pub fn utxos_by_address(&self, address: &[u8; 32]) -> (r: Vec<UTXO>)
        requires
            self.wf(),
        ensures
            r@.to_set() == self@.utxos.filter(|u: UTXO| u.recipient_address.address == *address),
            r@.no_duplicates(),
    {
        self.utxo_set.utxos_by_address(address)
    }

    /// The balance of `address`: the summed amounts of the unspent outputs
    /// paid to it, each counted once.
    pub fn get_balance(&self, address: &[u8; 32]) -> (r: u128)
        requires
            self.wf(),
        ensures
            exists|list: Seq<UTXO>|
                list.to_set() == self@.utxos.filter(|u: UTXO| u.recipient_address.address == *address)
                    && list.no_duplicates() && r == #[trigger] crate::utxo_set::amounts(list),
    {
        let list = self.utxo_set.utxos_by_address(address);
        let r = crate::utxo_set::sum_amounts(&list);
        assert(list@.to_set() == self@.utxos.filter(|u: UTXO| u.recipient_address.address == *address)
            && list@.no_duplicates() && r == crate::utxo_set::amounts(list@));
        r
    }

    /// The number of pending transactions.
    pub fn mempool_size(&self) -> (r: usize)
        ensures
            r == self@.mempool.len(),
    {
        self.mempool.len()
    }

    /// The pending transactions, in the order they were admitted.
    pub fn mempool_transactions(&self) -> (r: &Vec<Transaction>)
        ensures
            r@ == self@.mempool,
    {
        self.mempool.get_map()
    }

    /// The chain's metadata.
    pub fn get_metadata(&self) -> (r: ChainMetadata)
        ensures
            r == self@.metadata,
    {
        self.metadata
    }

    /// The chain's parameters.
    pub fn get_parameters(&self) -> (r: Parameters)
        ensures
            r == self@.params,
    {
        self.parameters
    }

    /// Checks a transaction against the unspent set; on success returns the
    /// fee it pays.
    pub fn check_transaction_fee(&self, tx: &Transaction) -> (r: Result<u128, TxInvalidity>)
        requires
            self.wf(),
        ensures
            match (r, tx_check(self@.utxos, *tx, self@.params)) {
                (Ok(f), Ok(())) => f as int == tx_fee(self@.utxos, *tx),
                (Err(e), Err(g)) => e == g,
                _ => false,
            },
            r is Ok ==> r->Ok_0 <= 128 * 0xffff_ffff_ffff_ffffu128,
    {
        let ghost s = self@.utxos;
        proof {
            self.utxo_set.lemma_keys_unique();
        }
        match tx.check_heuristic(self.parameters.network_parameters.max_tx_size) {
            Err(e) => {
                return Err(e);
            },
            Ok(()) => {},
        }
        let n = tx.input_list.len();
        let mut k: usize = 0;
        while k < n
            invariant
                n == tx.input_list@.len(),
                k <= n,
                s == self@.utxos,
                self.wf(),
                tx.heuristic_check(self@.params.network_parameters.max_tx_size) is Ok,
                forall|j: int| 0 <= j < k ==> has_key(s, outpoint(#[trigger] tx.input_list@[j])),
            decreases n - k,
        {
            let input = &tx.input_list[k];
            if self.utxo_set.get(&input.prev_txid, input.output_index).is_none() {
                assert(!has_key(s, outpoint(tx.input_list@[k as int])));
                assert(!inputs_exist(s, *tx));
                return Err(TxInvalidity::MissingUtxo);
            }
            k = k + 1;
        }
        assert(inputs_exist(s, *tx));
        let mut total: u128 = 0;
        let mut k: usize = 0;
        while k < n
            invariant
                n == tx.input_list@.len(),
                n <= crate::utxo::MAX_TX_ENTRIES,
                k <= n,
                s == self@.utxos,
                self.wf(),
                tx.heuristic_check(self@.params.network_parameters.max_tx_size) is Ok,
                inputs_exist(s, *tx),
                forall|j: int|
                    0 <= j < k ==> lookup(s, outpoint(#[trigger] tx.input_list@[j])).recipient_address.address@
                        == crate::address::address_of(tx.input_list@[j].public_key@),
                total == spent_total(s, tx.input_list@.subrange(0, k as int)),
                total <= k * 0xffff_ffff_ffff_ffffu128,
            decreases n - k,
        {
            let input = &tx.input_list[k];
            assert(has_key(s, outpoint(tx.input_list@[k as int])));
            let u = match self.utxo_set.get(&input.prev_txid, input.output_index) {
                Some(u) => u,
                None => {
                    return Err(TxInvalidity::MissingUtxo);
                },
            };
            let owner = crate::address::P2PKHAddress::from(input.public_key.as_slice());
            if !bytes32_eq(&u.recipient_address.address, &owner.address) {
                assert(lookup(s, outpoint(tx.input_list@[k as int])).recipient_address.address@
                    != crate::address::address_of(tx.input_list@[k as int].public_key@));
                assert(!inputs_owned(s, *tx));
                return Err(TxInvalidity::WrongOwner);
            }
            assert(tx.input_list@.subrange(0, k + 1).drop_last() =~= tx.input_list@.subrange(
                0,
                k as int,
            ));
            total = total + u.amount as u128;
            k = k + 1;
        }
        assert(tx.input_list@.subrange(0, n as int) =~= tx.input_list@);
        assert(inputs_owned(s, *tx));
        let m = tx.output_list.len();
        let mut paid: u128 = 0;
        let mut j: usize = 0;
        while j < m
            invariant
                m == tx.output_list@.len(),
                m <= crate::utxo::MAX_TX_ENTRIES,
                j <= m,
                paid == outputs_total(tx.output_list@.subrange(0, j as int)),
                paid <= j * 0xffff_ffff_ffff_ffffu128,
            decreases m - j,
        {
            assert(tx.output_list@.subrange(0, j + 1).drop_last() =~= tx.output_list@.subrange(
                0,
                j as int,
            ));
            paid = paid + tx.output_list[j].amount as u128;
            j = j + 1;
        }
        assert(tx.output_list@.subrange(0, m as int) =~= tx.output_list@);
        let size = match tx.size_within(self.parameters.network_parameters.max_tx_size) {
            Some(size) => size,
            None => {
                return Err(TxInvalidity::TooLarge);
            },
        };
        let per_byte = self.parameters.economic_parameters.fee_per_tx_byte as u128;
        let size_wide = size as u128;
        assert(per_byte * size_wide <= 0xffff_ffffu128 * 0xffff_ffff_ffff_ffffu128) by (nonlinear_arith)
            requires
                per_byte <= 0xffff_ffffu128,
                size_wide <= 0xffff_ffff_ffff_ffffu128,
        ;
        assert(paid <= 128 * 0xffff_ffff_ffff_ffffu128) by (nonlinear_arith)
            requires
                paid <= m * 0xffff_ffff_ffff_ffffu128,
                m <= 128,
        ;
        assert(total <= 128 * 0xffff_ffff_ffff_ffffu128) by (nonlinear_arith)
            requires
                total <= n * 0xffff_ffff_ffff_ffffu128,
                n <= 128,
        ;
        let floor: u128 = per_byte * size_wide;
        if total < paid + floor {
            return Err(TxInvalidity::InsufficientFee);
        }
        if bytes32_eq(&tx.id, &COINBASE_TXID) || self.utxo_set.contains_txid(&tx.id) {
            proof {
                if tx.id@ == COINBASE_TXID@ {
                    assert(tx.id =~= COINBASE_TXID);
                }
            }
            return Err(TxInvalidity::IdInUse);
        }
        proof {
            assert(tx.id != COINBASE_TXID) by {
                if tx.id == COINBASE_TXID {
                    assert(tx.id@ == COINBASE_TXID@);
                }
            }
        }
        Ok(total - paid)
    }

    /// Checks a transaction against the unspent set.
    pub fn check_transaction(&self, tx: &Transaction) -> (r: Result<(), TxInvalidity>)
        requires
            self.wf(),
        ensures
            r == tx_check(self@.utxos, *tx, self@.params),
    {
        match self.check_transaction_fee(tx) {
            Ok(_) => Ok(()),
            Err(e) => Err(e),
        }
    }

    /// Checks a block against the tip and the unspent set; `vrf_ok` is the
    /// outcome of the lottery check.
    pub fn check_block(&self, block: &Block, vrf_ok: bool) -> (r: Result<(), InvalidityReason>)
        requires
            self.wf(),
        ensures
            r == block_check(self@.utxos, self@.blocks.last(), *block, self@.params, vrf_ok),
    {
        let ghost s = self@.utxos;
        let ghost p = self@.params;
        let tip = self.get_last_block();
        if !bytes32_eq(&block.header.previous_hash, &tip.header.hash) {
            return Err(InvalidityReason::WrongContext);
        }
        assert(block.header.previous_hash =~= tip.header.hash);
        if block.header.height != tip.header.height + 1 || block.header.height >= usize::MAX - 1 {
            return Err(InvalidityReason::InvalidHeight);
        }
        let root = block.calculate_merkle_tree();
        if !bytes32_eq(&root, &block.header.merkle_root) {
            return Err(InvalidityReason::InvalidMerkle);
        }
        let h = block.calculate_hash();
        if !bytes32_eq(&h, &block.header.hash) {
            return Err(InvalidityReason::InvalidHash);
        }
        if !vrf_ok {
            return Err(InvalidityReason::InvalidVRF);
        }
        if !block.has_unique_spends() {
            return Err(InvalidityReason::DoubleSpendWithinBlock);
        }
        let txs = &block.transactions;
        let mut t: usize = 0;
        let mut fees: u128 = 0;
        let mut big = false;
        while t < txs.len()
            invariant
                self.wf(),
                s == self@.utxos,
                p == self@.params,
                txs == block.transactions,
                block.header.previous_hash == self@.blocks.last().header.hash,
                block.header.height == self@.blocks.last().header.height + 1,
                block.header.height < usize::MAX - 1,
                block.header.merkle_root@ == block.body_root(),
                block.header.hash@ == block.header.computed_hash(),
                vrf_ok,
                spent_outpoints(block.transactions@).no_duplicates(),
                t <= txs@.len(),
                first_tx_failure(s, txs@, 0, p) == first_tx_failure(s, txs@, t as int, p),
                forall|j: int| 0 <= j < t ==> body_tx_check(s, txs@, j, p) is Ok,
                !big ==> fees == total_fees(s, txs@.subrange(0, t as int)) && fees
                    <= 0xffff_ffff_ffff_ffffu128,
                big ==> total_fees(s, txs@.subrange(0, t as int)) > 0xffff_ffff_ffff_ffffu128,
            decreases txs@.len() - t,
        {
            let fee = match self.check_transaction_fee(&txs[t]) {
                Err(e) => {
                    assert(body_tx_check(s, txs@, t as int, p) == Err::<(), TxInvalidity>(e));
                    return Err(InvalidityReason::InvalidTransaction(txs[t].id, e));
                },
                Ok(fee) => fee,
            };
            let mut j: usize = 0;
            while j < t
                invariant
                    txs == block.transactions,
                    self.wf(),
                    s == self@.utxos,
                    p == self@.params,
                    tx_check(s, txs@[t as int], p) is Ok,
                    block.header.previous_hash == self@.blocks.last().header.hash,
                    block.header.height == self@.blocks.last().header.height + 1,
                block.header.height < usize::MAX - 1,
                    block.header.merkle_root@ == block.body_root(),
                    block.header.hash@ == block.header.computed_hash(),
                    vrf_ok,
                    spent_outpoints(block.transactions@).no_duplicates(),
                    first_tx_failure(s, txs@, 0, p) == first_tx_failure(s, txs@, t as int, p),
                    j <= t < txs@.len(),
                    forall|i: int| 0 <= i < j ==> #[trigger] txs@[i].id != txs@[t as int].id,
                decreases t - j,
            {
                if bytes32_eq(&txs[j].id, &txs[t].id) {
                    assert(txs@[j as int].id =~= txs@[t as int].id);
                    assert(body_tx_check(s, txs@, t as int, p) == Err::<(), TxInvalidity>(
                        TxInvalidity::IdInUse,
                    ));
                    return Err(InvalidityReason::InvalidTransaction(txs[t].id, TxInvalidity::IdInUse));
                }
                j = j + 1;
            }
            assert(body_tx_check(s, txs@, t as int, p) is Ok);
            assert(txs@.subrange(0, t + 1).drop_last() =~= txs@.subrange(0, t as int));
            assert(txs@.subrange(0, t + 1).last() == txs@[t as int]);
            if !big {
                fees = fees + fee;
                if fees > 0xffff_ffff_ffff_ffffu128 {
                    big = true;
                }
            }
            t = t + 1;
        }
        proof {
            assert(first_tx_failure(s, txs@, t as int, p) is None);
            assert(txs@.subrange(0, t as int) =~= txs@);
            assert forall|i: int| 0 <= i < txs@.len() implies (#[trigger] txs@[i]).output_list@.len()
                <= crate::utxo::MAX_TX_ENTRIES by {
                assert(body_tx_check(s, txs@, i, p) is Ok);
            }
        }
        if !block.fits_body_size(self.parameters.network_parameters.max_block_body_size) {
            return Err(InvalidityReason::TooLarge);
        }
        let cb = block.header.coinbase.calculate_hash();
        if !bytes32_eq(&cb, &block.header.coinbase.id) {
            return Err(InvalidityReason::InvalidCoinbase);
        }
        if big || block.header.coinbase.output.amount as u128 != self.parameters.economic_parameters.block_reward as u128
            + fees {
            return Err(InvalidityReason::InvalidCoinbase);
        }
        if self.utxo_set.get(&COINBASE_TXID, block.header.height).is_some() {
            return Err(InvalidityReason::InvalidCoinbase);
        }
        Ok(())
    }
}

impl BlockChain {
    /// Applies a block: it must pass its check, with `vrf_ok` the outcome of
    /// the lottery check. On success the block is the new tip, its spends are
    /// journaled and removed, its outputs added, its transactions dropped from
    /// the mempool, and the height is one more; on failure nothing changes.
    #[verifier::rlimit(100)]
    #[verifier::spinoff_prover]
    pub fn add_block(&mut self, block: Block, vrf_ok: bool) -> (r: Result<(), InvalidityReason>)
        requires
            old(self).wf(),
        ensures
            final(self).wf(),
            r == block_check(
                old(self)@.utxos,
                old(self)@.blocks.last(),
                block,
                old(self)@.params,
                vrf_ok,
            ),
            r is Ok ==> applied(old(self)@, block, final(self)@),
            r is Ok ==> final(self)@.blocks.len() == old(self)@.blocks.len() + 1,
            r is Err ==> final(self)@ == old(self)@,
            final(self).mempool_capacity() == old(self).mempool_capacity(),
    {
        let c = self.check_block(&block, vrf_ok);
        if c.is_err() {
            return c;
        }
        let ghost s = self@.utxos;
        let ghost hist = self.history@;
        proof {
            assert(keys_unique(hist[hist.len() - 1]));
            lemma_check_applicable(s, self@.blocks.last(), block, self@.params);
            lemma_apply_keys_unique(s, block);
            assert(coinbase_keys_below(hist[hist.len() - 1], hist.len() as int));
            lemma_apply_coinbase_keys(s, self@.blocks.last(), block, self@.params, hist.len() as int);
        }
        remove_body_from_mempool(&mut self.mempool, &block);
        let undo_transactions = consume_inputs(&mut self.utxo_set, &block);
        create_outputs(&mut self.utxo_set, &block, Ghost(s));
        let undo = UndoBlock {
            height: block.header.height,
            original_hash: block.header.hash,
            undo_transactions,
        };
        self.metadata = ChainMetadata { length: self.metadata.length + 1, best_block: block.header.hash };
        self.undo_blocks.push(undo);
        self.chain.push(block);
        proof {
            self.history@ = hist.push(self.utxo_set@);
            let v = old(self)@;
            let w = self@;
            assert(w.blocks == v.blocks.push(block));
            assert(w.undo.drop_last() =~= v.undo);
            assert forall|i: int| 0 <= i < w.blocks.len() implies (#[trigger] w.blocks[i]).header.height == i
                && w.blocks[i].header.hash@ == w.blocks[i].header.computed_hash()
                && w.blocks[i].header.merkle_root@ == w.blocks[i].body_root() by {
                if i < v.blocks.len() {
                    assert(w.blocks[i] == v.blocks[i]);
                }
            }
            assert forall|i: int| 1 <= i < w.blocks.len() implies (#[trigger] w.blocks[i]).header.previous_hash
                == w.blocks[i - 1].header.hash by {
                if i < v.blocks.len() {
                    assert(w.blocks[i] == v.blocks[i]);
                }
            }
            assert forall|i: int| 0 <= i < w.undo.len() implies (#[trigger] w.undo[i]).original_hash
                == w.blocks[i].header.hash && w.undo[i].height == i by {
                if i < v.undo.len() {
                    assert(w.undo[i] == v.undo[i]);
                    assert(w.blocks[i] == v.blocks[i]);
                }
            }
            assert(ids_unique(w.mempool));
            assert forall|i: int| 0 <= i < self.history@.len() implies keys_unique(#[trigger] self.history@[i])
                && coinbase_keys_below(self.history@[i], i + 1) by {
                if i < hist.len() {
                    assert(self.history@[i] == hist[i]);
                }
            }
            assert forall|i: int| 1 <= i < self.chain@.len() implies {
                &&& applicable(self.history@[i - 1], #[trigger] self.chain@[i])
                &&& self.history@[i] == apply_utxos(self.history@[i - 1], self.chain@[i])
                &&& self.undo_blocks@[i].restored() == consumed_utxos(
                    self.history@[i - 1],
                    self.chain@[i],
                )
            } by {
                if i < hist.len() {
                    assert(self.history@[i] == hist[i]);
                    assert(self.history@[i - 1] == hist[i - 1]);
                    assert(self.chain@[i] == old(self).chain@[i]);
                    assert(self.undo_blocks@[i] == old(self).undo_blocks@[i]);
                } else {
                    assert(self.history@[i - 1] == hist[hist.len() - 1]);
                }
            }
        }
        Ok(())
    }
}

impl BlockChain {
    /// Rolls back the tip, whose hash must be `block_hash`; the genesis block
    /// cannot be rolled back. On success the outputs the tip created are
    /// removed, those it spent restored, and the tip and its journal entry
    /// dropped; on failure nothing changes.
    proof fn lemma_tip_facts(a: &BlockChain)
        requires
            a.wf(),
            a.chain@.len() >= 2,
        ensures
            ({
                let n = a.chain@.len() as int;
                let s0 = a.history@[n - 2];
                let b = a.chain@[n - 1];
                &&& applicable(s0, b)
                &&& a.utxo_set@ == apply_utxos(s0, b)
                &&& a.undo_blocks@[n - 1].restored() == consumed_utxos(s0, b)
                &&& a.history@.len() == n
            }),
    {
        let n = a.chain@.len() as int;
        assert(a.utxo_set@ == a.history@[n - 1]);
    }

    proof fn lemma_wf_after_pop(a: &BlockChain, b: &BlockChain)
        requires
            a.wf(),
            a.chain@.len() >= 2,
            b.chain@ == a.chain@.drop_last(),
            b.undo_blocks@ == a.undo_blocks@.drop_last(),
            b.history@ == a.history@.drop_last(),
            b.utxo_set.wf(),
            b.utxo_set@ == a.history@[a.history@.len() - 2],
            b.mempool == a.mempool,
            b.parameters == a.parameters,
            b.metadata == (ChainMetadata {
                length: (a.metadata.length - 1) as usize,
                best_block: b.chain@.last().header.hash,
            }),
        ensures
            b.wf(),
            undone(a@, b@),
    {
        let v = a@;
        let w = b@;
        let hist = a.history@;
        assert(w.blocks =~= v.blocks.drop_last());
        assert(w.undo =~= v.undo.drop_last());
        assert forall|i: int| 0 <= i < w.blocks.len() implies (#[trigger] w.blocks[i]).header.height == i
            && w.blocks[i].header.hash@ == w.blocks[i].header.computed_hash()
            && w.blocks[i].header.merkle_root@ == w.blocks[i].body_root() by {
            assert(w.blocks[i] == v.blocks[i]);
        }
        assert forall|i: int| 1 <= i < w.blocks.len() implies (#[trigger] w.blocks[i]).header.previous_hash
            == w.blocks[i - 1].header.hash by {
            assert(w.blocks[i] == v.blocks[i]);
            assert(w.blocks[i - 1] == v.blocks[i - 1]);
        }
        assert forall|i: int| 0 <= i < w.undo.len() implies (#[trigger] w.undo[i]).original_hash
            == w.blocks[i].header.hash && w.undo[i].height == i by {
            assert(w.undo[i] == v.undo[i]);
            assert(w.blocks[i] == v.blocks[i]);
        }
        assert forall|i: int| 0 <= i < b.history@.len() implies keys_unique(#[trigger] b.history@[i])
            && coinbase_keys_below(b.history@[i], i + 1) by {
            assert(b.history@[i] == hist[i]);
        }
        assert forall|i: int| 1 <= i < b.chain@.len() implies {
            &&& applicable(b.history@[i - 1], #[trigger] b.chain@[i])
            &&& b.history@[i] == apply_utxos(b.history@[i - 1], b.chain@[i])
            &&& b.undo_blocks@[i].restored() == consumed_utxos(b.history@[i - 1], b.chain@[i])
        } by {
            assert(b.history@[i] == hist[i]);
            assert(b.history@[i - 1] == hist[i - 1]);
            assert(b.chain@[i] == v.blocks[i]);
            assert(b.undo_blocks@[i] == v.undo[i]);
        }
        assert(b.utxo_set@ == b.history@.last());
        let n = hist.len() as int;
        assert(applicable(hist[n - 2], a.chain@[n - 1]));
        assert(hist[n - 1] == apply_utxos(hist[n - 2], a.chain@[n - 1]));
        assert(a.utxo_set@ == hist[n - 1]);
        lemma_undo_apply(hist[n - 2], a.chain@[n - 1]);
    }

    #[verifier::rlimit(100)]
    #[verifier::spinoff_prover]
    pub fn undo_block(&mut self, block_hash: &[u8; 32]) -> (r: Result<(), UndoError>)
        requires
            old(self).wf(),
        ensures
            final(self).wf(),
            r is Ok <==> old(self)@.blocks.len() >= 2 && old(self)@.blocks.last().header.hash
                == *block_hash,
            r is Ok ==> undone(old(self)@, final(self)@),
            r is Err ==> final(self)@ == old(self)@,
            final(self).mempool_capacity() == old(self).mempool_capacity(),
    {
        let n = self.chain.len();
        if n < 2 || !bytes32_eq(&self.chain[n - 1].header.hash, block_hash) {
            return Err(UndoError::NotTip);
        }
        assert(self.chain@[n - 1].header.hash =~= *block_hash);
        let ghost hist = self.history@;
        let ghost s0 = hist[n - 2];
        let ghost v = self@;
        proof {
            Self::lemma_tip_facts(&*self);
        }
        let block = self.chain.pop().unwrap();
        let ub = self.undo_blocks.pop().unwrap();
        remove_created(&mut self.utxo_set, &block, Ghost(s0));
        restore_consumed(&mut self.utxo_set, &ub, &block, Ghost(s0));
        self.metadata = ChainMetadata {
            length: self.metadata.length - 1,
            best_block: self.chain[n - 2].header.hash,
        };
        proof {
            self.history@ = hist.drop_last();
            Self::lemma_wf_after_pop(&*old(self), &*self);
        }
        Ok(())
    }
}

/// The most block hashes that one request for blocks returns.
pub const MAX_BLOCKS: usize = 512;

/// The most headers that one request for headers returns.
pub const MAX_HEADERS: usize = 2048;

/// The first height from `j` on whose block has hash `h`, or -1.
pub open spec fn find_hash(blocks: Seq<Block>, h: [u8; 32], j: int) -> int
    decreases blocks.len() - j,
{
    if j < 0 || j >= blocks.len() {
        -1
    } else if blocks[j].header.hash == h {
        j
    } else {
        find_hash(blocks, h, j + 1)
    }
}

/// The common point of a peer's locator: the height of the first entry from
/// `i` on that the chain holds, or the genesis height where there is none.
pub open spec fn locator_point(blocks: Seq<Block>, loc: Seq<[u8; 32]>, i: int) -> int
    decreases loc.len() - i,
{
    if i < 0 || i >= loc.len() {
        0
    } else if find_hash(blocks, loc[i], 0) >= 0 {
        find_hash(blocks, loc[i], 0)
    } else {
        locator_point(blocks, loc, i + 1)
    }
}

/// A found height is a height of the chain with that hash.
pub proof fn lemma_find_hash(blocks: Seq<Block>, h: [u8; 32], j: int)
    requires
        0 <= j,
    ensures
        find_hash(blocks, h, j) >= 0 ==> j <= find_hash(blocks, h, j) < blocks.len()
            && blocks[find_hash(blocks, h, j)].header.hash == h,
        find_hash(blocks, h, j) < 0 ==> forall|k: int| j <= k < blocks.len() ==> blocks[k].header.hash != h,
    decreases blocks.len() - j,
{
    if j < blocks.len() && blocks[j].header.hash != h {
        lemma_find_hash(blocks, h, j + 1);
    }
}

/// The common point of a locator is a height of the chain.
pub proof fn lemma_locator_point(blocks: Seq<Block>, loc: Seq<[u8; 32]>, i: int)
    requires
        0 <= i,
        blocks.len() >= 1,
    ensures
        0 <= locator_point(blocks, loc, i) < blocks.len(),
    decreases loc.len() - i,
{
    if i < loc.len() {
        lemma_find_hash(blocks, loc[i], 0);
        if find_hash(blocks, loc[i], 0) < 0 {
            lemma_locator_point(blocks, loc, i + 1);
        }
    }
}

/// `hs` are the heights of the locator `r` in the chain: the tip, then the
/// tip less 1, 2, 4, 8, ..., and at the end the genesis block; strictly descending.
pub open spec fn locator_heights(blocks: Seq<Block>, r: Seq<[u8; 32]>, hs: Seq<int>) -> bool {
    &&& hs.len() == r.len()
    &&& forall|i: int|
        0 <= i < hs.len() ==> 0 <= #[trigger] hs[i] < blocks.len() && r[i] == blocks[hs[i]].header.hash
    &&& forall|i: int, j: int| 0 <= i < j < hs.len() ==> hs[i] > hs[j]
    &&& hs[0] == blocks.len() - 1
    &&& forall|k: int|
        1 <= k < hs.len() ==> #[trigger] hs[k] == blocks.len() - 1 - vstd::arithmetic::power2::pow2((k - 1) as nat)
            || (k == hs.len() - 1 && hs[k] == 0)
}

/// The hashes that follow height `c`, at most `max` of them.
pub open spec fn hashes_after(blocks: Seq<Block>, c: int, max: int) -> Seq<[u8; 32]> {
    let k = if blocks.len() - 1 - c < max {
        blocks.len() - 1 - c
    } else {
        max
    };
    Seq::new(k as nat, |i: int| blocks[c + 1 + i].header.hash)
}

/// The headers that follow height `c`, at most `max` of them.
pub open spec fn headers_after(blocks: Seq<Block>, c: int, max: int) -> Seq<crate::block::BlockHeader> {
    let k = if blocks.len() - 1 - c < max {
        blocks.len() - 1 - c
    } else {
        max
    };
    Seq::new(k as nat, |i: int| blocks[c + 1 + i].header)
}

impl BlockChain {
    /// Validates a transaction against the current state and admits it to
    /// the mempool if there is room and its id is not pending.
    pub fn add_transaction_to_mempool(&mut self, tx: Transaction) -> (r: Result<(), AdmissionError>)
        requires
            old(self).wf(),
        ensures
            final(self).wf(),
            final(self).mempool_capacity() == old(self).mempool_capacity(),
            final(self)@.blocks == old(self)@.blocks,
            final(self)@.undo == old(self)@.undo,
            final(self)@.utxos == old(self)@.utxos,
            final(self)@.metadata == old(self)@.metadata,
            final(self)@.params == old(self)@.params,
            match tx_check(old(self)@.utxos, tx, old(self)@.params) {
                Err(e) => r == Err::<(), AdmissionError>(AdmissionError::InvalidTransaction(e)),
                Ok(()) => if old(self)@.mempool.len() >= old(self).mempool_capacity() {
                    r == Err::<(), AdmissionError>(AdmissionError::MempoolFull)
                } else if exists|i: int|
                    0 <= i < old(self)@.mempool.len() && #[trigger] old(self)@.mempool[i].id == tx.id {
                    r == Err::<(), AdmissionError>(AdmissionError::AlreadyKnown)
                } else {
                    r is Ok
                },
            },
            r is Ok ==> final(self)@.mempool == old(self)@.mempool.push(tx),
            r is Err ==> final(self)@.mempool == old(self)@.mempool,
    {
        match self.check_transaction(&tx) {
            Err(e) => {
                return Err(AdmissionError::InvalidTransaction(e));
            },
            Ok(()) => {},
        }
        match self.mempool.insert(tx) {
            Err(_) => Err(AdmissionError::MempoolFull),
            Ok(true) => Ok(()),
            Ok(false) => Err(AdmissionError::AlreadyKnown),
        }
    }

    /// The journal entry of the block at `height`, if the chain is that long.
    pub fn get_undo_block(&self, height: usize) -> (r: Option<&UndoBlock>)
        ensures
            r is Some <==> height < self@.undo.len(),
            r is Some ==> *r->0 == self@.undo[height as int],
    {
        if height < self.undo_blocks.len() {
            Some(&self.undo_blocks[height])
        } else {
            None
        }
    }

    /// The height of the first block with `hash`, if the chain holds one.
    pub fn find_height(&self, hash: &[u8; 32]) -> (r: Option<usize>)
        ensures
            match r {
                Some(h) => h == find_hash(self@.blocks, *hash, 0),
                None => find_hash(self@.blocks, *hash, 0) < 0,
            },
    {
        let mut i: usize = 0;
        while i < self.chain.len()
            invariant
                i <= self.chain@.len(),
                find_hash(self@.blocks, *hash, 0) == find_hash(self@.blocks, *hash, i as int),
            decreases self.chain@.len() - i,
        {
            if bytes32_eq(&self.chain[i].header.hash, hash) {
                assert(self.chain@[i as int].header.hash =~= *hash);
                return Some(i);
            }
            i = i + 1;
        }
        None
    }

    /// The height of the first locator entry that the chain holds, or zero.
    pub fn locator_find_common(&self, others: &Vec<[u8; 32]>) -> (r: usize)
        requires
            self.wf(),
        ensures
            r == locator_point(self@.blocks, others@, 0),
            r < self@.blocks.len(),
    {
        proof {
            lemma_locator_point(self@.blocks, others@, 0);
        }
        let mut i: usize = 0;
        while i < others.len()
            invariant
                self.wf(),
                i <= others@.len(),
                locator_point(self@.blocks, others@, 0) == locator_point(self@.blocks, others@, i as int),
            decreases others@.len() - i,
        {
            match self.find_height(&others[i]) {
                Some(h) => {
                    proof {
                        lemma_find_hash(self@.blocks, others@[i as int], 0);
                    }
                    return h;
                },
                None => {},
            }
            i = i + 1;
        }
        0
    }

    /// The hashes of up to 512 blocks that follow the common point of the
    /// peer's locator, in height order.
    pub fn get_blocks(&self, others: &Vec<[u8; 32]>) -> (r: Vec<[u8; 32]>)
        requires
            self.wf(),
        ensures
            r@ == hashes_after(self@.blocks, locator_point(self@.blocks, others@, 0), MAX_BLOCKS as int),
            r@.len() <= MAX_BLOCKS,
    {
        let c = self.locator_find_common(others);
        self.hashes_from(c)
    }

    fn hashes_from(&self, c: usize) -> (r: Vec<[u8; 32]>)
        requires
            c < self@.blocks.len(),
        ensures
            r@ == hashes_after(self@.blocks, c as int, MAX_BLOCKS as int),
            r@.len() <= MAX_BLOCKS,
    {
        let n = self.chain.len();
        let mut result: Vec<[u8; 32]> = Vec::new();
        let mut i: usize = c + 1;
        while i < self.chain.len() && result.len() < MAX_BLOCKS
            invariant
                c < self.chain@.len(),
                c + 1 <= i <= self.chain@.len(),
                result@.len() == i - c - 1,
                result@.len() <= MAX_BLOCKS,
                forall|k: int| 0 <= k < result@.len() ==> #[trigger] result@[k] == self.chain@[c + 1 + k].header.hash,
            decreases self.chain@.len() - i,
        {
            result.push(self.chain[i].header.hash);
            i = i + 1;
        }
        assert(result@ =~= hashes_after(self@.blocks, c as int, MAX_BLOCKS as int));
        result
    }

    /// The headers of up to 2048 blocks that follow the common point of the
    /// peer's locator, in height order.
    pub fn get_headers(&self, others: &Vec<[u8; 32]>) -> (r: Vec<crate::block::BlockHeader>)
        requires
            self.wf(),
        ensures
            r@ == headers_after(self@.blocks, locator_point(self@.blocks, others@, 0), MAX_HEADERS as int),
            r@.len() <= MAX_HEADERS,
    {
        let c = self.locator_find_common(others);
        self.headers_from(c)
    }

    fn headers_from(&self, c: usize) -> (r: Vec<crate::block::BlockHeader>)
        requires
            c < self@.blocks.len(),
        ensures
            r@ == headers_after(self@.blocks, c as int, MAX_HEADERS as int),
            r@.len() <= MAX_HEADERS,
    {
        let n = self.chain.len();
        let mut result: Vec<crate::block::BlockHeader> = Vec::new();
        let mut i: usize = c + 1;
        while i < self.chain.len() && result.len() < MAX_HEADERS
            invariant
                c < self.chain@.len(),
                c + 1 <= i <= self.chain@.len(),
                result@.len() == i - c - 1,
                result@.len() <= MAX_HEADERS,
                forall|k: int| 0 <= k < result@.len() ==> #[trigger] result@[k] == self.chain@[c + 1 + k].header,
            decreases self.chain@.len() - i,
        {
            result.push(self.chain[i].header);
            i = i + 1;
        }
        assert(result@ =~= headers_after(self@.blocks, c as int, MAX_HEADERS as int));
        result
    }

    /// For each requested hash, the height of the block with it, if any.
    pub fn get_data(&self, hashes: &Vec<[u8; 32]>) -> (r: Vec<Option<usize>>)
        ensures
            r@.len() == hashes@.len(),
            forall|i: int|
                0 <= i < hashes@.len() ==> match #[trigger] r@[i] {
                    Some(h) => h == find_hash(self@.blocks, hashes@[i], 0),
                    None => find_hash(self@.blocks, hashes@[i], 0) < 0,
                },
    {
        let mut r: Vec<Option<usize>> = Vec::new();
        let mut i: usize = 0;
        while i < hashes.len()
            invariant
                i <= hashes@.len(),
                r@.len() == i,
                forall|k: int|
                    0 <= k < i ==> match #[trigger] r@[k] {
                        Some(h) => h == find_hash(self@.blocks, hashes@[k], 0),
                        None => find_hash(self@.blocks, hashes@[k], 0) < 0,
                    },
            decreases hashes@.len() - i,
        {
            r.push(self.find_height(&hashes[i]));
            i = i + 1;
        }
        r
    }

    /// A locator for this chain: the tip, then the blocks 1, 2, 4, 8, ...
    /// below it, then the genesis block; heights strictly descend.
    pub fn build_locator(&self) -> (r: Vec<[u8; 32]>)
        requires
            self.wf(),
        ensures
            r@.len() >= 1,
            r@[0] == self@.blocks.last().header.hash,
            r@.last() == self@.blocks[0].header.hash,
            exists|hs: Seq<int>| #[trigger] locator_heights(self@.blocks, r@, hs),
    {
        let tip = self.chain.len() - 1;
        let mut r: Vec<[u8; 32]> = Vec::new();
        r.push(self.chain[tip].header.hash);
        let ghost mut hs: Seq<int> = seq![tip as int];
        let mut step: usize = 1;
        let mut last: usize = tip;
        proof {
            vstd::arithmetic::power2::lemma2_to64();
        }
        while step < tip
            invariant
                tip == self.chain@.len() - 1,
                1 <= step,
                last <= tip,
                step < tip ==> last > tip - step,
                hs.len() == r@.len(),
                hs.len() >= 1,
                r@[0] == self.chain@[tip as int].header.hash,
                hs.last() == last,
                forall|i: int|
                    0 <= i < hs.len() ==> 0 <= #[trigger] hs[i] < self.chain@.len() && r@[i]
                        == self.chain@[hs[i]].header.hash,
                forall|i: int, j: int| 0 <= i < j < hs.len() ==> hs[i] > hs[j],
                hs[0] == tip,
                step < tip ==> step == vstd::arithmetic::power2::pow2((hs.len() - 1) as nat),
                forall|k: int|
                    1 <= k < hs.len() ==> #[trigger] hs[k] == tip - vstd::arithmetic::power2::pow2((k - 1) as nat),
            decreases last,
        {
            let h = tip - step;
            r.push(self.chain[h].header.hash);
            proof {
                hs = hs.push(h as int);
            }
            last = h;
            proof {
                vstd::arithmetic::power2::lemma_pow2_unfold((hs.len() - 1) as nat);
            }
            step = if step > usize::MAX / 2 {
                tip
            } else {
                step * 2
            };
        }
        if last > 0 {
            r.push(self.chain[0].header.hash);
            proof {
                hs = hs.push(0);
            }
        }
        proof {
            assert(last == 0 ==> hs.last() == 0);
            assert(r@.last() == self.chain@[hs.last()].header.hash);
            assert(locator_heights(self@.blocks, r@, hs));
        }
        r
    }
}

impl Transaction {
    /// Whether the transaction passes its full check against the chain.
    pub fn is_valid(&self, blockchain: &BlockChain) -> (r: bool)
        requires
            blockchain.wf(),
        ensures
            r == (tx_check(blockchain@.utxos, *self, blockchain@.params) is Ok),
    {
        blockchain.check_transaction(self).is_ok()
    }
}

impl BlockChain {
    /// Whether a block passes its check against the tip, given the outcome
    /// `vrf_ok` of its lottery check.
    pub fn is_block_valid(&self, block: &Block, vrf_ok: bool) -> (r: bool)
        requires
            self.wf(),
        ensures
            r == (block_check(self@.utxos, self@.blocks.last(), *block, self@.params, vrf_ok) is Ok),
    {
        self.check_block(block, vrf_ok).is_ok()
    }
}

/// Removes from `set` the outputs that the body of `b` spends, and returns
/// them as journal records, one per transaction.
fn consume_inputs(set: &mut UTXOSet, b: &Block) -> (r: Vec<UndoTransaction>)
    requires
        old(set).wf(),
        applicable(old(set)@, *b),
    ensures
        final(set).wf(),
        final(set)@ == old(set)@.difference(consumed_utxos(old(set)@, *b).to_set()),
        restored_of(r@) == consumed_utxos(old(set)@, *b),
{
    let ghost s = old(set)@;
    let ghost txs = b.transactions@;
    let ghost ops = spent_outpoints(txs);
    let ghost cons = consumed_utxos(s, *b);
    let mut undo: Vec<UndoTransaction> = Vec::new();
    let n = b.transactions.len();
    let mut t: usize = 0;
    proof {
        assert(txs.subrange(0, 0) =~= Seq::<Transaction>::empty());
        assert(spent_outpoints(Seq::<Transaction>::empty()) =~= Seq::empty());
        assert(cons.subrange(0, 0).to_set() =~= Set::<UTXO>::empty());
        assert(s.difference(Set::<UTXO>::empty()) =~= s);
        assert(restored_of(undo@) =~= cons.subrange(0, 0));
    }
    while t < n
        invariant
            n == txs.len(),
            txs == b.transactions@,
            s == old(set)@,
            ops == spent_outpoints(txs),
            cons == consumed_utxos(s, *b),
            applicable(s, *b),
            t <= n,
            set.wf(),
            spent_outpoints(txs.subrange(0, t as int)).len() <= ops.len(),
            ops.subrange(0, spent_outpoints(txs.subrange(0, t as int)).len() as int) == spent_outpoints(
                txs.subrange(0, t as int),
            ),
            set@ == s.difference(
                cons.subrange(0, spent_outpoints(txs.subrange(0, t as int)).len() as int).to_set(),
            ),
            restored_of(undo@) == cons.subrange(
                0,
                spent_outpoints(txs.subrange(0, t as int)).len() as int,
            ),
        decreases n - t,
    {
        let tx = &b.transactions[t];
        let ghost base = spent_outpoints(txs.subrange(0, t as int)).len() as int;
        let ghost own = tx.input_list@.map_values(|i: Input| outpoint(i));
        proof {
            assert(txs.subrange(0, t + 1) =~= txs.subrange(0, t as int) + seq![txs[t as int]]);
            lemma_spent_concat(txs.subrange(0, t as int), seq![txs[t as int]]);
            lemma_spent_single(txs[t as int]);
            assert(txs =~= txs.subrange(0, t + 1) + txs.subrange(t + 1, n as int));
            lemma_spent_concat(txs.subrange(0, t + 1), txs.subrange(t + 1, n as int));
            assert(spent_outpoints(txs.subrange(0, t + 1)) =~= spent_outpoints(txs.subrange(0, t as int)) + own);
        }
        let mut current: Vec<([u8; 32], UTXO)> = Vec::new();
        let m = tx.input_list.len();
        let mut k: usize = 0;
        proof {
            assert(restored_of(undo@) + current@.map_values(|p: ([u8; 32], UTXO)| p.1) =~= cons.subrange(0, base));
        }
        while k < m
            invariant
                n == txs.len(),
                txs == b.transactions@,
                tx == b.transactions@[t as int],
                t < n,
                m == tx.input_list@.len(),
                s == old(set)@,
                ops == spent_outpoints(txs),
                cons == consumed_utxos(s, *b),
                applicable(s, *b),
                k <= m,
                set.wf(),
                own == tx.input_list@.map_values(|i: Input| outpoint(i)),
                base == spent_outpoints(txs.subrange(0, t as int)).len(),
                base + m <= ops.len(),
                ops.subrange(0, base + m) == spent_outpoints(txs.subrange(0, t as int)) + own,
                set@ == s.difference(cons.subrange(0, base + k).to_set()),
                restored_of(undo@) + current@.map_values(|p: ([u8; 32], UTXO)| p.1) == cons.subrange(
                    0,
                    base + k,
                ),
            decreases m - k,
        {
            let input = &tx.input_list[k];
            let ghost q = base + k;
            let ghost op = ops[q];
            proof {
                assert(ops.subrange(0, base + m)[q] == own[k as int]);
                assert(op == outpoint(tx.input_list@[k as int]));
                assert(has_key(s, ops[q]));
                lemma_lookup_has_key(s, op);
                let v = lookup(s, op);
                assert(!cons.subrange(0, q).to_set().contains(v)) by {
                    if cons.subrange(0, q).to_set().contains(v) {
                        let mm = choose|mm: int| 0 <= mm < q && cons.subrange(0, q)[mm] == v;
                        assert(cons[mm] == lookup(s, ops[mm]));
                        lemma_lookup_has_key(s, ops[mm]);
                        assert(ops[mm] == ops[q]);
                    }
                }
                assert(set@.contains(v));
            }
            let removed = set.remove_utxo(&input.prev_txid, input.output_index);
            let u = match removed {
                Some(u) => u,
                None => {
                    proof {
                        assert(set@.contains(lookup(s, op)) && key_of(lookup(s, op)) == op);
                    }
                    return undo;
                },
            };
            proof {
                let v = lookup(s, op);
                assert(u == v) by {
                    assert(s.contains(u));
                    assert(key_of(u) == key_of(v));
                }
                assert(cons[q] == v);
                assert(cons.subrange(0, q + 1).to_set() =~= cons.subrange(0, q).to_set().insert(v)) by {
                    assert(cons.subrange(0, q + 1) =~= cons.subrange(0, q).push(v));
                    cons.subrange(0, q).lemma_push_to_set_commute(v);
                }
                assert(set@ =~= s.difference(cons.subrange(0, q + 1).to_set()));
            }
            let ghost prev_current = current@;
            current.push((input.prev_txid, u));
            proof {
                assert(current@.map_values(|p: ([u8; 32], UTXO)| p.1) =~= prev_current.map_values(
                    |p: ([u8; 32], UTXO)| p.1,
                ).push(u));
                assert(cons.subrange(0, q + 1) =~= cons.subrange(0, q).push(cons[q]));
            }
            k = k + 1;
        }
        let ghost prev_undo = undo@;
        undo.push(UndoTransaction { original_tx_id: tx.id, removed_utxos: current });
        proof {
            assert(undo@.drop_last() =~= prev_undo);
            assert(restored_of(undo@) =~= restored_of(prev_undo) + undo@.last().removed_utxos@.map_values(
                |p: ([u8; 32], UTXO)| p.1,
            ));
            assert(spent_outpoints(txs.subrange(0, t + 1)).len() == base + m);
            assert(ops.subrange(0, base + m) =~= spent_outpoints(txs.subrange(0, t + 1)));
        }
        t = t + 1;
    }
    proof {
        assert(txs.subrange(0, n as int) =~= txs);
        assert(cons.len() == ops.len());
        assert(cons.subrange(0, ops.len() as int) =~= cons);
    }
    undo
}

/// Adds to `set` the outputs that `b` creates: those of its body, then its
/// coinbase output.
fn create_outputs(set: &mut UTXOSet, b: &Block, Ghost(s0): Ghost<Set<UTXO>>)
    requires
        old(set).wf(),
        applicable(s0, *b),
        old(set)@ == s0.difference(consumed_utxos(s0, *b).to_set()),
    ensures
        final(set).wf(),
        final(set)@ == apply_utxos(s0, *b),
{
    let ghost txs = b.transactions@;
    let ghost cr = created_of(txs);
    let ghost all = created_utxos(*b);
    let ghost base = old(set)@;
    let n = b.transactions.len();
    let mut t: usize = 0;
    proof {
        assert(txs.subrange(0, 0) =~= Seq::<Transaction>::empty());
        assert(created_of(Seq::<Transaction>::empty()) =~= Seq::empty());
        assert(cr.subrange(0, 0).to_set() =~= Set::<UTXO>::empty());
        assert(base.union(Set::<UTXO>::empty()) =~= base);
        assert(all == cr.push(coinbase_utxo(*b)));
    }
    while t < n
        invariant
            n == txs.len(),
            txs == b.transactions@,
            cr == created_of(txs),
            all == created_utxos(*b),
            all == cr.push(coinbase_utxo(*b)),
            base == s0.difference(consumed_utxos(s0, *b).to_set()),
            applicable(s0, *b),
            t <= n,
            set.wf(),
            created_of(txs.subrange(0, t as int)).len() <= cr.len(),
            cr.subrange(0, created_of(txs.subrange(0, t as int)).len() as int) == created_of(
                txs.subrange(0, t as int),
            ),
            set@ == base.union(cr.subrange(0, created_of(txs.subrange(0, t as int)).len() as int).to_set()),
        decreases n - t,
    {
        let tx = &b.transactions[t];
        let ghost start = created_of(txs.subrange(0, t as int)).len() as int;
        let ghost own = outputs_as_utxos(txs[t as int]);
        proof {
            assert(txs.subrange(0, t + 1) =~= txs.subrange(0, t as int) + seq![txs[t as int]]);
            lemma_created_concat(txs.subrange(0, t as int), seq![txs[t as int]]);
            lemma_created_single(txs[t as int]);
            assert(txs =~= txs.subrange(0, t + 1) + txs.subrange(t + 1, n as int));
            lemma_created_concat(txs.subrange(0, t + 1), txs.subrange(t + 1, n as int));
        }
        let m = tx.output_list.len();
        let mut i: usize = 0;
        while i < m
            invariant
                n == txs.len(),
                txs == b.transactions@,
                tx == b.transactions@[t as int],
                t < n,
                m == tx.output_list@.len(),
                cr == created_of(txs),
                all == created_utxos(*b),
                all == cr.push(coinbase_utxo(*b)),
                base == s0.difference(consumed_utxos(s0, *b).to_set()),
                applicable(s0, *b),
                own == outputs_as_utxos(txs[t as int]),
                start == created_of(txs.subrange(0, t as int)).len(),
                start + m <= cr.len(),
                cr.subrange(0, start + m) == created_of(txs.subrange(0, t as int)) + own,
                i <= m,
                set.wf(),
                set@ == base.union(cr.subrange(0, start + i).to_set()),
            decreases m - i,
        {
            let out = tx.output_list[i];
            let u = UTXO {
                txid: tx.id,
                output_index: i,
                amount: out.amount,
                recipient_address: out.address,
            };
            let ghost q = start + i;
            proof {
                assert(cr.subrange(0, start + m)[q] == own[i as int]);
                assert(cr[q] == u);
                assert(all[q] == u);
                assert(!has_key(s0, key_of(all[q])));
                assert(!has_key(set@, key_of(u))) by {
                    if has_key(set@, key_of(u)) {
                        let w = choose|w: UTXO| set@.contains(w) && key_of(w) == key_of(u);
                        if base.contains(w) {
                            assert(s0.contains(w));
                        } else {
                            let a = choose|a: int| 0 <= a < q && cr.subrange(0, q)[a] == w;
                            assert(all[a] == w);
                            assert(key_of(all[a]) != key_of(all[q]));
                        }
                    }
                }
            }
            set.insert(u);
            proof {
                assert(cr.subrange(0, q + 1) =~= cr.subrange(0, q).push(u));
                cr.subrange(0, q).lemma_push_to_set_commute(u);
                assert(set@ =~= base.union(cr.subrange(0, q + 1).to_set()));
            }
            i = i + 1;
        }
        proof {
            assert(created_of(txs.subrange(0, t + 1)).len() == start + m);
            assert(cr.subrange(0, start + m) =~= created_of(txs.subrange(0, t + 1)));
        }
        t = t + 1;
    }
    let cb = UTXO {
        txid: COINBASE_TXID,
        output_index: b.header.height,
        amount: b.header.coinbase.output.amount,
        recipient_address: b.header.coinbase.output.address,
    };
    proof {
        assert(txs.subrange(0, n as int) =~= txs);
        assert(cr.subrange(0, cr.len() as int) =~= cr);
        let q = cr.len() as int;
        assert(all[q] == cb);
        assert(!has_key(s0, key_of(all[q])));
        assert(!has_key(set@, key_of(cb))) by {
            if has_key(set@, key_of(cb)) {
                let w = choose|w: UTXO| set@.contains(w) && key_of(w) == key_of(cb);
                if base.contains(w) {
                    assert(s0.contains(w));
                } else {
                    let a = choose|a: int| 0 <= a < q && cr[a] == w;
                    assert(all[a] == w);
                    assert(key_of(all[a]) != key_of(all[q]));
                }
            }
        }
    }
    set.insert(cb);
    proof {
        cr.lemma_push_to_set_commute(cb);
        assert(set@ =~= apply_utxos(s0, *b));
    }
}

/// Drops from the mempool every transaction whose id is in the body of `b`.
fn remove_body_from_mempool(pool: &mut Mempool, b: &Block)
    requires
        old(pool).wf(),
    ensures
        final(pool).wf(),
        final(pool).capacity() == old(pool).capacity(),
        forall|x: Transaction| #[trigger]
            final(pool)@.contains(x) <==> old(pool)@.contains(x) && !in_body(*b, x.id),
{
    let n = b.transactions.len();
    let mut t: usize = 0;
    while t < n
        invariant
            n == b.transactions@.len(),
            t <= n,
            pool.wf(),
            pool.capacity() == old(pool).capacity(),
            forall|x: Transaction|
                #[trigger] pool@.contains(x) <==> old(pool)@.contains(x) && !(exists|j: int|
                    0 <= j < t && #[trigger] b.transactions@[j].id == x.id),
        decreases n - t,
    {
        let ghost before = pool@;
        let id = b.transactions[t].id;
        pool.remove(&id);
        proof {
            assert forall|x: Transaction|
                #[trigger] pool@.contains(x) <==> old(pool)@.contains(x) && !(exists|j: int|
                    0 <= j < t + 1 && #[trigger] b.transactions@[j].id == x.id) by {
                if exists|i: int| 0 <= i < before.len() && #[trigger] before[i].id == id {
                    let i = choose|i: int| 0 <= i < before.len() && #[trigger] before[i].id == id;
                    assert(pool@ == before.remove(i));
                    if pool@.contains(x) {
                        let k = choose|k: int| 0 <= k < pool@.len() && pool@[k] == x;
                        let ok = if k < i { k } else { k + 1 };
                        assert(before[ok] == x);
                        assert(x.id != id) by {
                            if ok < i {
                                assert(before[ok].id != before[i].id);
                            } else {
                                assert(before[i].id != before[ok].id);
                            }
                        }
                        assert(before.contains(x));
                    }
                    if before.contains(x) && x.id != id {
                        let k = choose|k: int| 0 <= k < before.len() && before[k] == x;
                        assert(k != i);
                        if k < i {
                            assert(pool@[k] == x);
                        } else {
                            assert(pool@[k - 1] == x);
                        }
                    }
                } else {
                    assert(pool@ == before);
                    if before.contains(x) {
                        let k = choose|k: int| 0 <= k < before.len() && before[k] == x;
                        assert(before[k].id != id);
                    }
                }
                if exists|j: int| 0 <= j < t + 1 && #[trigger] b.transactions@[j].id == x.id {
                    let j = choose|j: int| 0 <= j < t + 1 && #[trigger] b.transactions@[j].id == x.id;
                    if j < t {
                        assert(exists|j: int| 0 <= j < t && #[trigger] b.transactions@[j].id == x.id);
                    }
                }
            }
        }
        t = t + 1;
    }
}

/// Removes from `set` the outputs that applying `b` to `s0` created.
fn remove_created(set: &mut UTXOSet, b: &Block, Ghost(s0): Ghost<Set<UTXO>>)
    requires
        old(set).wf(),
        applicable(s0, *b),
        old(set)@ == apply_utxos(s0, *b),
    ensures
        final(set).wf(),
        final(set)@ == s0.difference(consumed_utxos(s0, *b).to_set()),
{
    let ghost txs = b.transactions@;
    let ghost cr = created_of(txs);
    let ghost all = created_utxos(*b);
    let ghost top = old(set)@;
    proof {
        lemma_apply_keys_unique(s0, *b);
        assert(all == cr.push(coinbase_utxo(*b)));
        assert(txs.subrange(0, 0) =~= Seq::<Transaction>::empty());
        assert(created_of(Seq::<Transaction>::empty()) =~= Seq::empty());
        assert(cr.subrange(0, 0).to_set() =~= Set::<UTXO>::empty());
        assert(top.difference(Set::<UTXO>::empty()) =~= top);
    }
    let n = b.transactions.len();
    let mut t: usize = 0;
    while t < n
        invariant
            n == txs.len(),
            txs == b.transactions@,
            cr == created_of(txs),
            all == created_utxos(*b),
            all == cr.push(coinbase_utxo(*b)),
            top == apply_utxos(s0, *b),
            keys_unique(top),
            applicable(s0, *b),
            t <= n,
            set.wf(),
            created_of(txs.subrange(0, t as int)).len() <= cr.len(),
            cr.subrange(0, created_of(txs.subrange(0, t as int)).len() as int) == created_of(
                txs.subrange(0, t as int),
            ),
            set@ == top.difference(
                cr.subrange(0, created_of(txs.subrange(0, t as int)).len() as int).to_set(),
            ),
        decreases n - t,
    {
        let tx = &b.transactions[t];
        let ghost start = created_of(txs.subrange(0, t as int)).len() as int;
        let ghost own = outputs_as_utxos(txs[t as int]);
        proof {
            assert(txs.subrange(0, t + 1) =~= txs.subrange(0, t as int) + seq![txs[t as int]]);
            lemma_created_concat(txs.subrange(0, t as int), seq![txs[t as int]]);
            lemma_created_single(txs[t as int]);
            assert(txs =~= txs.subrange(0, t + 1) + txs.subrange(t + 1, n as int));
            lemma_created_concat(txs.subrange(0, t + 1), txs.subrange(t + 1, n as int));
        }
        let m = tx.output_list.len();
        let mut i: usize = 0;
        while i < m
            invariant
                n == txs.len(),
                txs == b.transactions@,
                tx == b.transactions@[t as int],
                t < n,
                m == tx.output_list@.len(),
                cr == created_of(txs),
                all == created_utxos(*b),
                all == cr.push(coinbase_utxo(*b)),
                top == apply_utxos(s0, *b),
                keys_unique(top),
                applicable(s0, *b),
                own == outputs_as_utxos(txs[t as int]),
                start == created_of(txs.subrange(0, t as int)).len(),
                start + m <= cr.len(),
                cr.subrange(0, start + m) == created_of(txs.subrange(0, t as int)) + own,
                i <= m,
                set.wf(),
                set@ == top.difference(cr.subrange(0, start + i).to_set()),
            decreases m - i,
        {
            let ghost q = start + i;
            let ghost c = cr[q];
            proof {
                assert(cr.subrange(0, start + m)[q] == own[i as int]);
                assert(all[q] == c);
                assert(all.to_set().contains(c));
                assert(top.contains(c));
                assert(!cr.subrange(0, q).to_set().contains(c)) by {
                    if cr.subrange(0, q).to_set().contains(c) {
                        let a = choose|a: int| 0 <= a < q && cr.subrange(0, q)[a] == c;
                        assert(all[a] == c);
                        assert(key_of(all[a]) != key_of(all[q]));
                    }
                }
                assert(set@.contains(c));
            }
            let removed = set.remove_utxo(&tx.id, i);
            proof {
                assert(removed is Some);
                let u = removed->0;
                assert(u == c) by {
                    assert(top.contains(u));
                }
                assert(cr.subrange(0, q + 1) =~= cr.subrange(0, q).push(c));
                cr.subrange(0, q).lemma_push_to_set_commute(c);
                assert(set@ =~= top.difference(cr.subrange(0, q + 1).to_set()));
            }
            i = i + 1;
        }
        proof {
            assert(created_of(txs.subrange(0, t + 1)).len() == start + m);
            assert(cr.subrange(0, start + m) =~= created_of(txs.subrange(0, t + 1)));
        }
        t = t + 1;
    }
    let ghost cb = coinbase_utxo(*b);
    proof {
        assert(txs.subrange(0, n as int) =~= txs);
        assert(cr.subrange(0, cr.len() as int) =~= cr);
        let q = cr.len() as int;
        assert(all[q] == cb);
        assert(all.to_set().contains(cb));
        assert(!cr.to_set().contains(cb)) by {
            if cr.to_set().contains(cb) {
                let a = choose|a: int| 0 <= a < q && cr[a] == cb;
                assert(all[a] == cb);
                assert(key_of(all[a]) != key_of(all[q]));
            }
        }
        assert(set@.contains(cb));
    }
    let removed = set.remove_utxo(&COINBASE_TXID, b.header.height);
    proof {
        let u = removed->0;
        assert(u == cb) by {
            assert(top.contains(u));
        }
        cr.lemma_push_to_set_commute(cb);
        let c = consumed_utxos(s0, *b).to_set();
        assert forall|x: UTXO| all.to_set().contains(x) implies !s0.contains(x) by {
            let a = choose|a: int| 0 <= a < all.len() && all[a] == x;
            assert(!has_key(s0, key_of(all[a])));
        }
        assert(set@ =~= s0.difference(c));
    }
}

/// Puts back into `set` the outputs that the journal entry `ub` of `b` restores.
fn restore_consumed(set: &mut UTXOSet, ub: &UndoBlock, b: &Block, Ghost(s0): Ghost<Set<UTXO>>)
    requires
        old(set).wf(),
        applicable(s0, *b),
        ub.restored() == consumed_utxos(s0, *b),
        old(set)@ == s0.difference(consumed_utxos(s0, *b).to_set()),
    ensures
        final(set).wf(),
        final(set)@ == s0,
{
    let ghost uts = ub.undo_transactions@;
    let ghost rs = ub.restored();
    let ghost ops = spent_outpoints(b.transactions@);
    let ghost base = old(set)@;
    proof {
        assert(uts.subrange(0, 0) =~= Seq::<UndoTransaction>::empty());
        assert(restored_of(Seq::<UndoTransaction>::empty()) =~= Seq::empty());
        assert(rs.subrange(0, 0).to_set() =~= Set::<UTXO>::empty());
        assert(base.union(Set::<UTXO>::empty()) =~= base);
    }
    let n = ub.undo_transactions.len();
    let mut t: usize = 0;
    while t < n
        invariant
            n == uts.len(),
            uts == ub.undo_transactions@,
            rs == ub.restored(),
            rs == restored_of(uts),
            rs == consumed_utxos(s0, *b),
            ops == spent_outpoints(b.transactions@),
            base == s0.difference(consumed_utxos(s0, *b).to_set()),
            applicable(s0, *b),
            t <= n,
            set.wf(),
            restored_of(uts.subrange(0, t as int)).len() <= rs.len(),
            rs.subrange(0, restored_of(uts.subrange(0, t as int)).len() as int) == restored_of(
                uts.subrange(0, t as int),
            ),
            set@ == base.union(rs.subrange(0, restored_of(uts.subrange(0, t as int)).len() as int).to_set()),
        decreases n - t,
    {
        let ut = &ub.undo_transactions[t];
        let ghost start = restored_of(uts.subrange(0, t as int)).len() as int;
        let ghost own = ut.removed_utxos@.map_values(|p: ([u8; 32], UTXO)| p.1);
        proof {
            assert(uts.subrange(0, t + 1) =~= uts.subrange(0, t as int) + seq![uts[t as int]]);
            lemma_restored_concat(uts.subrange(0, t as int), seq![uts[t as int]]);
            lemma_restored_single(uts[t as int]);
            assert(uts =~= uts.subrange(0, t + 1) + uts.subrange(t + 1, n as int));
            lemma_restored_concat(uts.subrange(0, t + 1), uts.subrange(t + 1, n as int));
        }
        let m = ut.removed_utxos.len();
        let mut i: usize = 0;
        while i < m
            invariant
                n == uts.len(),
                uts == ub.undo_transactions@,
                ut == ub.undo_transactions@[t as int],
                t < n,
                m == ut.removed_utxos@.len(),
                rs == consumed_utxos(s0, *b),
                ops == spent_outpoints(b.transactions@),
                base == s0.difference(consumed_utxos(s0, *b).to_set()),
                applicable(s0, *b),
                own == ut.removed_utxos@.map_values(|p: ([u8; 32], UTXO)| p.1),
                start == restored_of(uts.subrange(0, t as int)).len(),
                start + m <= rs.len(),
                rs.subrange(0, start + m) == restored_of(uts.subrange(0, t as int)) + own,
                i <= m,
                set.wf(),
                set@ == base.union(rs.subrange(0, start + i).to_set()),
            decreases m - i,
        {
            let u = ut.removed_utxos[i].1;
            let ghost q = start + i;
            proof {
                assert(rs.subrange(0, start + m)[q] == own[i as int]);
                assert(rs[q] == u);
                assert(u == lookup(s0, ops[q]));
                assert(has_key(s0, ops[q]));
                lemma_lookup_has_key(s0, ops[q]);
                assert(!has_key(set@, key_of(u))) by {
                    if has_key(set@, key_of(u)) {
                        let w = choose|w: UTXO| set@.contains(w) && key_of(w) == key_of(u);
                        if base.contains(w) {
                            assert(s0.contains(w));
                            assert(w == u);
                            assert(rs.to_set().contains(u));
                        } else {
                            let a = choose|a: int| 0 <= a < q && rs.subrange(0, q)[a] == w;
                            assert(rs[a] == lookup(s0, ops[a]));
                            lemma_lookup_has_key(s0, ops[a]);
                            assert(ops[a] == ops[q]);
                        }
                    }
                }
            }
            set.insert(u);
            proof {
                assert(rs.subrange(0, q + 1) =~= rs.subrange(0, q).push(u));
                rs.subrange(0, q).lemma_push_to_set_commute(u);
                assert(set@ =~= base.union(rs.subrange(0, q + 1).to_set()));
            }
            i = i + 1;
        }
        proof {
            assert(restored_of(uts.subrange(0, t + 1)).len() == start + m);
            assert(rs.subrange(0, start + m) =~= restored_of(uts.subrange(0, t + 1)));
        }
        t = t + 1;
    }
    proof {
        assert(uts.subrange(0, n as int) =~= uts);
        assert(rs.subrange(0, rs.len() as int) =~= rs);
        assert forall|x: UTXO| rs.to_set().contains(x) implies s0.contains(x) by {
            let a = choose|a: int| 0 <= a < rs.len() && rs[a] == x;
            assert(has_key(s0, ops[a]));
            lemma_lookup_has_key(s0, ops[a]);
        }
        assert(set@ =~= s0);
    }
}

} // verus!
