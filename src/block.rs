use vstd::prelude::*;

use crate::address::P2PKHAddress;
use crate::encoding::{decimal, decimal_of, dot, hex_encode, hex_of, push_all, push_dot};
use crate::hash::{blake3_of, bytes32_eq, hash};
use crate::merkle::{calculate_merkle_root, leaves, merkle_root};
use crate::utxo::{outpoint, CoinbaseTransaction, Transaction};

verus! {

/// The fixed entropy that the genesis block names as its predecessor.
pub const EXTRA_ENTROPY: [u8; 32] = [
    60, 92, 162, 110, 82, 120, 10, 250, 102, 233, 226, 182, 114, 155, 80, 178,
    35, 57, 107, 9, 122, 187, 253, 38, 160, 225, 171, 15, 110, 230, 47, 21,
];

/// The header of a block: its place in the chain, the commitment to its
/// body, the forger's lottery proof and the coinbase.
#[derive(Clone, Copy, Debug, PartialEq, Eq)]
pub struct BlockHeader {
    pub hash: [u8; 32],
    pub height: usize,
    pub previous_hash: [u8; 32],
    pub slot: u64,
    pub merkle_root: [u8; 32],
    pub vrf_value: [u8; 32],
    pub vrf_proof: [u8; 96],
    pub forger_vrf_pk: [u8; 32],
    pub forger_address: P2PKHAddress,
    pub coinbase: CoinbaseTransaction,
}

impl BlockHeader {
    /// What the header hash is the digest of:
    /// `hex(previous).hex(merkle_root).slot.height.hex(coinbase id)`.
    pub open spec fn preimage(self) -> Seq<u8> {
        hex_of(self.previous_hash@) + dot() + hex_of(self.merkle_root@) + dot() + decimal_of(
            self.slot as nat,
        ) + dot() + decimal_of(self.height as nat) + dot() + hex_of(self.coinbase.id@)
    }

    /// The hash that the header's fields give.
    pub open spec fn computed_hash(self) -> Seq<u8> {
        blake3_of(self.preimage())
    }

    /// The hash that the header's fields give.
    pub fn calculate_hash(&self) -> (r: [u8; 32])
        ensures
            r@ == self.computed_hash(),
    {
        let mut buf = hex_encode(&self.previous_hash);
        push_dot(&mut buf);
        push_all(&mut buf, hex_encode(&self.merkle_root));
        push_dot(&mut buf);
        push_all(&mut buf, decimal(self.slot as u128));
        push_dot(&mut buf);
        push_all(&mut buf, decimal(self.height as u128));
        push_dot(&mut buf);
        push_all(&mut buf, hex_encode(&self.coinbase.id));
        assert(buf@ =~= self.preimage());
        hash(buf.as_slice())
    }
}

/// The body of a block.
pub type BlockContent = Vec<Transaction>;

/// A header and the ordered transactions it commits to.
#[derive(Clone, Debug, PartialEq, Eq)]
pub struct Block {
    pub header: BlockHeader,
    pub transactions: BlockContent,
}

/// The ids of a list of transactions, in order.
pub open spec fn tx_ids(txs: Seq<Transaction>) -> Seq<Seq<u8>> {
    Seq::new(txs.len(), |i: int| txs[i].id@)
}

/// The outputs that a list of transactions spends, in order.
pub open spec fn spent_outpoints(txs: Seq<Transaction>) -> Seq<([u8; 32], usize)>
    decreases txs.len(),
{
    if txs.len() == 0 {
        Seq::empty()
    } else {
        spent_outpoints(txs.drop_last()) + txs.last().input_list@.map_values(|i| outpoint(i))
    }
}

/// The summed encoded size of a list of transactions.
pub open spec fn body_size(txs: Seq<Transaction>) -> nat
    decreases txs.len(),
{
    if txs.len() == 0 {
        0
    } else {
        body_size(txs.drop_last()) + txs.last().size()
    }
}

/// The spent outputs of a prefix, one transaction longer.
pub proof fn lemma_spent_outpoints_step(txs: Seq<Transaction>, t: int)
    requires
        0 <= t < txs.len(),
    ensures
        spent_outpoints(txs.subrange(0, t + 1)) == spent_outpoints(txs.subrange(0, t))
            + txs[t].input_list@.map_values(|i| outpoint(i)),
{
    assert(txs.subrange(0, t + 1).drop_last() =~= txs.subrange(0, t));
}

/// The header of the genesis block, but for its hash.
pub open spec fn genesis_preimage() -> Seq<u8> {
    hex_of(EXTRA_ENTROPY@) + dot() + hex_of(crate::merkle::empty_root()) + dot() + decimal_of(0) + dot()
        + decimal_of(0) + dot() + hex_of(Seq::new(32, |i: int| 0u8))
}

/// `n` zero bytes.
pub open spec fn zeros(n: nat) -> Seq<u8> {
    Seq::new(n, |i: int| 0u8)
}

/// The genesis block: height zero, the fixed entropy as predecessor, an empty
/// body, the genesis coinbase, the null forger and no lottery proof.
pub open spec fn is_genesis(b: Block) -> bool {
    &&& b.header.height == 0
    &&& b.header.previous_hash == EXTRA_ENTROPY
    &&& b.transactions@.len() == 0
    &&& b.header.slot == 0
    &&& b.header.merkle_root@ == crate::merkle::empty_root()
    &&& b.header.hash@ == Block::spec_genesis_hash()
    &&& b.header.forger_address.address@ == zeros(32)
    &&& b.header.coinbase.id@ == zeros(32)
    &&& b.header.coinbase.output.amount == 10
    &&& b.header.coinbase.output.address.address@ == zeros(32)
    &&& b.header.coinbase.time == 0
    &&& b.header.vrf_value@ == zeros(32)
    &&& b.header.vrf_proof@ == zeros(96)
    &&& b.header.forger_vrf_pk@ == zeros(32)
}

impl Block {
    /// The hash of the genesis block.
    pub open spec fn spec_genesis_hash() -> Seq<u8> {
        blake3_of(genesis_preimage())
    }

    /// The Merkle root of the body: the root over the transaction ids.
    pub open spec fn body_root(self) -> Seq<u8> {
        merkle_root(tx_ids(self.transactions@))
    }

    /// A block at `height` after `previous_hash`, its Merkle root and hash
    /// computed; the lottery fields are zero until the forger fills them.
    pub fn new(
        height: usize,
        transactions: Vec<Transaction>,
        previous_hash: [u8; 32],
        coinbase: CoinbaseTransaction,
        slot: u64,
        forger_address: P2PKHAddress,
    ) -> (r: Self)
        ensures
            r.header.height == height,
            r.header.previous_hash == previous_hash,
            r.header.coinbase == coinbase,
            r.header.slot == slot,
            r.header.forger_address == forger_address,
            r.transactions@ == transactions@,
            r.header.merkle_root@ == r.body_root(),
            r.header.hash@ == r.header.computed_hash(),
            r.header.vrf_value@ == zeros(32),
            r.header.vrf_proof@ == zeros(96),
            r.header.forger_vrf_pk@ == zeros(32),
    {
        let header = BlockHeader {
            hash: [0u8; 32],
            height,
            previous_hash,
            slot,
            merkle_root: [0u8; 32],
            vrf_value: [0u8; 32],
            vrf_proof: [0u8; 96],
            forger_vrf_pk: [0u8; 32],
            forger_address,
            coinbase,
        };
        assert(header.vrf_value@ =~= zeros(32));
        assert(header.vrf_proof@ =~= zeros(96));
        assert(header.forger_vrf_pk@ =~= zeros(32));
        let mut block = Block { header, transactions };
        block.update_hash();
        block
    }

    /// The first block: height zero, the fixed entropy as predecessor, an
    /// empty body and the genesis coinbase.
    pub fn genesis() -> (r: Self)
        ensures
            r.header.height == 0,
            r.header.previous_hash == EXTRA_ENTROPY,
            r.transactions@.len() == 0,
            r.header.coinbase.id@ == Seq::new(32, |i: int| 0u8),
            r.header.coinbase.output.amount == 10,
            r.header.coinbase.output.address.address@ == Seq::new(32, |i: int| 0u8),
            r.header.coinbase.time == 0,
            r.header.slot == 0,
            r.header.merkle_root@ == r.body_root(),
            r.header.hash@ == r.header.computed_hash(),
            r.header.hash@ == Block::spec_genesis_hash(),
            is_genesis(r),
    {
        let r = Block::new(0, Vec::new(), EXTRA_ENTROPY, CoinbaseTransaction::genesis(), 0, P2PKHAddress::null());
        assert(tx_ids(r.transactions@) =~= Seq::<Seq<u8>>::empty());
        assert(r.header.preimage() =~= genesis_preimage());
        assert(r.header.merkle_root@ == crate::merkle::empty_root());
        r
    }

    /// The Merkle root over the ids of the body.
    pub fn calculate_merkle_tree(&self) -> (r: [u8; 32])
        ensures
            r@ == self.body_root(),
    {
        let mut hashes: Vec<[u8; 32]> = Vec::new();
        let mut i: usize = 0;
        while i < self.transactions.len()
            invariant
                i <= self.transactions@.len(),
                hashes@.len() == i,
                forall|k: int| 0 <= k < i ==> #[trigger] hashes@[k] == self.transactions@[k].id,
            decreases self.transactions@.len() - i,
        {
            hashes.push(self.transactions[i].id);
            i = i + 1;
        }
        assert(leaves(hashes@) =~= tx_ids(self.transactions@));
        calculate_merkle_root(hashes)
    }

    /// The hash that the header's fields give.
    pub fn calculate_hash(&self) -> (r: [u8; 32])
        ensures
            r@ == self.header.computed_hash(),
    {
        self.header.calculate_hash()
    }

    /// Sets the Merkle root from the body, then the hash from the header.
    pub fn update_hash(&mut self)
        ensures
            final(self).transactions == old(self).transactions,
            final(self).header == (BlockHeader {
                hash: final(self).header.hash,
                merkle_root: final(self).header.merkle_root,
                ..old(self).header
            }),
            final(self).header.merkle_root@ == final(self).body_root(),
            final(self).header.hash@ == final(self).header.computed_hash(),
    {
        self.header.merkle_root = self.calculate_merkle_tree();
        self.header.hash = self.calculate_hash();
    }

    /// The outputs that the body spends, in order.
    pub fn spent_outpoints(&self) -> (r: Vec<([u8; 32], usize)>)
        ensures
            r@ == spent_outpoints(self.transactions@),
    {
        let mut r: Vec<([u8; 32], usize)> = Vec::new();
        let mut t: usize = 0;
        while t < self.transactions.len()
            invariant
                t <= self.transactions@.len(),
                r@ == spent_outpoints(self.transactions@.subrange(0, t as int)),
            decreases self.transactions@.len() - t,
        {
            let tx = &self.transactions[t];
            let ghost base = r@;
            let mut k: usize = 0;
            while k < tx.input_list.len()
                invariant
                    tx == self.transactions@[t as int],
                    k <= tx.input_list@.len(),
                    r@ == base + tx.input_list@.subrange(0, k as int).map_values(|i| outpoint(i)),
                decreases tx.input_list@.len() - k,
            {
                r.push((tx.input_list[k].prev_txid, tx.input_list[k].output_index));
                assert(tx.input_list@.subrange(0, k + 1).map_values(|i| outpoint(i))
                    =~= tx.input_list@.subrange(0, k as int).map_values(|i| outpoint(i)).push(
                    outpoint(tx.input_list@[k as int]),
                ));
                k = k + 1;
            }
            proof {
                assert(tx.input_list@.subrange(0, k as int) =~= tx.input_list@);
                lemma_spent_outpoints_step(self.transactions@, t as int);
            }
            t = t + 1;
        }
        assert(self.transactions@.subrange(0, t as int) =~= self.transactions@);
        r
    }

    /// Whether no output is spent twice within the body.
    pub fn has_unique_spends(&self) -> (r: bool)
        ensures
            r == spent_outpoints(self.transactions@).no_duplicates(),
    {
        let ops = self.spent_outpoints();
        let n = ops.len();
        let mut b: usize = 0;
        while b < n
            invariant
                n == ops@.len(),
                ops@ == spent_outpoints(self.transactions@),
                b <= n,
                forall|x: int, y: int| 0 <= x < y < b ==> ops@[x] != ops@[y],
            decreases n - b,
        {
            let mut a: usize = 0;
            while a < b
                invariant
                    n == ops@.len(),
                    ops@ == spent_outpoints(self.transactions@),
                    a <= b < n,
                    forall|x: int, y: int| 0 <= x < y < b ==> ops@[x] != ops@[y],
                    forall|x: int| 0 <= x < a ==> ops@[x] != ops@[b as int],
                decreases b - a,
            {
                if ops[a].1 == ops[b].1 && bytes32_eq(&ops[a].0, &ops[b].0) {
                    assert(ops@[a as int].0 =~= ops@[b as int].0);
                    assert(ops@[a as int] == ops@[b as int]);
                    assert(!ops@.no_duplicates());
                    return false;
                }
                a = a + 1;
            }
            b = b + 1;
        }
        true
    }

    /// Whether the summed size of the body is within `max`.
    pub fn fits_body_size(&self, max: usize) -> (r: bool)
        requires
            forall|i: int|
                0 <= i < self.transactions@.len() ==> (#[trigger] self.transactions@[i]).output_list@.len()
                    <= crate::utxo::MAX_TX_ENTRIES,
        ensures
            r == (body_size(self.transactions@) <= max),
    {
        let mut acc: usize = 0;
        let mut t: usize = 0;
        while t < self.transactions.len()
            invariant
                t <= self.transactions@.len(),
                forall|i: int|
                    0 <= i < self.transactions@.len() ==> (#[trigger] self.transactions@[i]).output_list@.len()
                        <= crate::utxo::MAX_TX_ENTRIES,
                acc == body_size(self.transactions@.subrange(0, t as int)),
                acc <= max,
            decreases self.transactions@.len() - t,
        {
            proof {
                assert(self.transactions@.subrange(0, t + 1).drop_last() =~= self.transactions@.subrange(0, t as int));
            }
            match self.transactions[t].size_within(max - acc) {
                None => {
                    proof {
                        lemma_body_size_prefix(self.transactions@, t + 1);
                    }
                    return false;
                },
                Some(size) => {
                    acc = acc + size;
                },
            }
            t = t + 1;
        }
        assert(self.transactions@.subrange(0, t as int) =~= self.transactions@);
        true
    }
}

/// A sum of sizes only grows along a list.
pub proof fn lemma_body_size_prefix(s: Seq<Transaction>, i: int)
    requires
        0 <= i <= s.len(),
    ensures
        body_size(s.subrange(0, i)) <= body_size(s),
    decreases s.len() - i,
{
    if i < s.len() {
        lemma_body_size_prefix(s, i + 1);
        assert(s.subrange(0, i + 1).drop_last() =~= s.subrange(0, i));
    } else {
        assert(s.subrange(0, i) =~= s);
    }
}

/// What a block check found.
#[derive(Clone, Copy, Debug, PartialEq, Eq, Structural)]
pub enum BlockValidity {
    /// The block is not valid.
    NotValid,
    /// The block beats the current tip and should replace it.
    BetterThanLastBlock,
    /// The block is valid.
    Valid,
}

/// The checks of a block that need no chain state: the hash and the Merkle
/// root match, no output is spent twice, and every transaction passes its
/// own checks.
pub open spec fn block_correct(b: Block, max_tx_size: usize) -> bool {
    &&& b.header.hash@ == b.header.computed_hash()
    &&& b.header.merkle_root@ == b.body_root()
    &&& spent_outpoints(b.transactions@).no_duplicates()
    &&& forall|i: int|
        0 <= i < b.transactions@.len() ==> (#[trigger] b.transactions@[i]).heuristic_check(max_tx_size) is Ok
}

impl Block {
    /// Whether the block has no inconsistency of its own.
    pub fn is_correct(&self, max_tx_size: usize) -> (r: bool)
        ensures
            r == block_correct(*self, max_tx_size),
    {
        if !bytes32_eq(&self.calculate_hash(), &self.header.hash) {
            return false;
        }
        if !bytes32_eq(&self.calculate_merkle_tree(), &self.header.merkle_root) {
            return false;
        }
        if !self.has_unique_spends() {
            return false;
        }
        let mut i: usize = 0;
        while i < self.transactions.len()
            invariant
                i <= self.transactions@.len(),
                forall|j: int| 0 <= j < i ==> (#[trigger] self.transactions@[j]).heuristic_check(max_tx_size) is Ok,
            decreases self.transactions@.len() - i,
        {
            if !self.transactions[i].is_valid_heuristic(max_tx_size) {
                return false;
            }
            i = i + 1;
        }
        true
    }
}

} // verus!
