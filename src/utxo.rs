use vstd::prelude::*;

use crate::address::P2PKHAddress;
use crate::encoding::{decimal, decimal_of, dot, hex_encode, hex_of, push_all, push_dot};
use crate::hash::{blake3_of, bytes32_eq, hash};
use crate::merkle::{calculate_merkle_root, merkle_root};
use crate::public_key::{ecdsa_accepts, ecdsa_signature_of, PublicKeyAlgorithm, PublicKeyError};

verus! {

/// The most inputs, and the most outputs, that a transaction may have.
pub const MAX_TX_ENTRIES: usize = 128;

/// A reference to an output of an earlier transaction, with the key that
/// may spend it and the signature of the spending transaction's id.
#[derive(Clone, Debug, PartialEq, Eq, Hash)]
pub struct Input {
    pub prev_txid: [u8; 32],
    pub output_index: usize,
    pub signature: Vec<u8>,
    pub public_key: Vec<u8>,
}

/// An amount paid to an address.
#[derive(Clone, Copy, Debug, PartialEq, Eq, Hash)]
pub struct Output {
    pub amount: u64,
    pub address: P2PKHAddress,
}

/// An output that no input has spent yet, keyed by (txid, output index).
#[derive(Clone, Copy, Debug, PartialEq, Eq, Hash)]
pub struct UTXO {
    pub txid: [u8; 32],
    pub output_index: usize,
    pub amount: u64,
    pub recipient_address: P2PKHAddress,
}

/// The key of an unspent output: (txid, output index).
pub open spec fn key_of(u: UTXO) -> ([u8; 32], usize) {
    (u.txid, u.output_index)
}

/// The output that an input spends.
pub open spec fn outpoint(i: Input) -> ([u8; 32], usize) {
    (i.prev_txid, i.output_index)
}

impl Input {
    /// The bytes an input hashes to: `hex(prev_txid).index.hex(public_key)`.
    pub open spec fn preimage(self) -> Seq<u8> {
        hex_of(self.prev_txid@) + dot() + decimal_of(self.output_index as nat) + dot() + hex_of(
            self.public_key@,
        )
    }

    /// The digest of the input; the signature is not part of it.
    pub fn calculate_hash(&self) -> (r: [u8; 32])
        ensures
            r@ == blake3_of(self.preimage()),
    {
        let mut buf = hex_encode(&self.prev_txid);
        push_dot(&mut buf);
        push_all(&mut buf, decimal(self.output_index as u128));
        push_dot(&mut buf);
        push_all(&mut buf, hex_encode(self.public_key.as_slice()));
        assert(buf@ =~= self.preimage());
        hash(buf.as_slice())
    }

    /// Whether the input's signature checks, under its own public key, on the
    /// id of the transaction that holds it.
    pub fn verify_signature(&self, txid: &[u8; 32]) -> (r: bool)
        ensures
            r == ecdsa_accepts(self.public_key@, txid@, self.signature@),
    {
        PublicKeyAlgorithm::verify(self.public_key.as_slice(), txid, self.signature.as_slice()).is_ok()
    }
}

impl Output {
    /// The bytes an output hashes to: `hex(address).amount`.
    pub open spec fn preimage(self) -> Seq<u8> {
        hex_of(self.address.address@) + dot() + decimal_of(self.amount as nat)
    }

    /// The digest of the output.
    pub fn calculate_hash(&self) -> (r: [u8; 32])
        ensures
            r@ == blake3_of(self.preimage()),
    {
        let mut buf = hex_encode(&self.address.address);
        push_dot(&mut buf);
        push_all(&mut buf, decimal(self.amount as u128));
        assert(buf@ =~= self.preimage());
        hash(buf.as_slice())
    }
}

/// A value transfer: it spends earlier outputs and creates new ones.
#[derive(Clone, Debug, PartialEq, Eq, Hash)]
pub struct Transaction {
    pub id: [u8; 32],
    pub extra_entropy: u16,
    pub input_list: Vec<Input>,
    pub output_list: Vec<Output>,
}

/// Why a transaction is invalid.
#[derive(Clone, Copy, Debug, PartialEq, Eq, Structural)]
pub enum TxInvalidity {
    /// More than 128 inputs or more than 128 outputs.
    TooManyEntries,
    /// No input: the transaction spends nothing.
    NoInputs,
    /// The transaction is larger than the largest transaction allowed.
    TooLarge,
    /// The id is not the digest of the transaction.
    InvalidId,
    /// An output pays nothing.
    ZeroAmount,
    /// Two inputs spend the same output.
    DuplicateInput,
    /// An input's signature does not check.
    InvalidSignature,
    /// An input spends an output that is not unspent.
    MissingUtxo,
    /// An input's public key does not hash to the address of the output it spends.
    WrongOwner,
    /// The inputs do not cover the outputs and the least fee.
    InsufficientFee,
    /// The id is taken: the zero id, or the txid of an unspent output.
    IdInUse,
}

/// The encoded size of an input: its outpoint, two length prefixes,
/// its signature and its public key.
pub open spec fn input_size(i: Input) -> nat {
    48 + i.signature@.len() + i.public_key@.len()
}

/// The summed encoded size of a list of inputs.
pub open spec fn inputs_size(s: Seq<Input>) -> nat
    decreases s.len(),
{
    if s.len() == 0 {
        0
    } else {
        inputs_size(s.drop_last()) + input_size(s.last())
    }
}

/// The sum of the amounts of a list of outputs.
pub open spec fn outputs_total(s: Seq<Output>) -> nat
    decreases s.len(),
{
    if s.len() == 0 {
        0
    } else {
        outputs_total(s.drop_last()) + s.last().amount as nat
    }
}

/// A sum of sizes only grows along a list.
pub proof fn lemma_inputs_size_prefix(s: Seq<Input>, i: int)
    requires
        0 <= i <= s.len(),
    ensures
        inputs_size(s.subrange(0, i)) <= inputs_size(s),
    decreases s.len() - i,
{
    if i < s.len() {
        lemma_inputs_size_prefix(s, i + 1);
        assert(s.subrange(0, i + 1).drop_last() =~= s.subrange(0, i));
    } else {
        assert(s.subrange(0, i) =~= s);
    }
}

impl Transaction {
    /// The digests of the inputs, in order.
    pub open spec fn input_hashes(self) -> Seq<Seq<u8>> {
        Seq::new(self.input_list@.len(), |i: int| blake3_of(self.input_list@[i].preimage()))
    }

    /// The digests of the outputs, in order.
    pub open spec fn output_hashes(self) -> Seq<Seq<u8>> {
        Seq::new(self.output_list@.len(), |i: int| blake3_of(self.output_list@[i].preimage()))
    }

    /// What the id is the digest of: `hex(merkle(inputs)).hex(merkle(outputs))`.
    pub open spec fn id_preimage(self) -> Seq<u8> {
        hex_of(merkle_root(self.input_hashes())) + dot() + hex_of(merkle_root(self.output_hashes()))
    }

    /// The id that the transaction's contents give.
    pub open spec fn computed_id(self) -> Seq<u8> {
        blake3_of(self.id_preimage())
    }

    /// The encoded size: id, entropy, two list lengths, inputs and outputs.
    pub open spec fn size(self) -> nat {
        42 + inputs_size(self.input_list@) + 40 * self.output_list@.len()
    }

    /// No two inputs spend the same output.
    pub open spec fn inputs_unique(self) -> bool {
        forall|a: int, b: int|
            0 <= a < b < self.input_list@.len() ==> outpoint(self.input_list@[a]) != outpoint(
                self.input_list@[b],
            )
    }

    /// Every input is signed, under its own key, on the id.
    pub open spec fn signatures_valid(self) -> bool {
        forall|a: int|
            0 <= a < self.input_list@.len() ==> ecdsa_accepts(
                #[trigger] self.input_list@[a].public_key@,
                self.id@,
                self.input_list@[a].signature@,
            )
    }

    /// Every output pays something.
    pub open spec fn amounts_positive(self) -> bool {
        forall|a: int| 0 <= a < self.output_list@.len() ==> #[trigger] self.output_list@[a].amount > 0
    }

    /// The checks that need no chain state, in the order they are made.
    pub open spec fn heuristic_check(self, max_tx_size: usize) -> Result<(), TxInvalidity> {
        if self.input_list@.len() > MAX_TX_ENTRIES || self.output_list@.len() > MAX_TX_ENTRIES {
            Err(TxInvalidity::TooManyEntries)
        } else if self.input_list@.len() == 0 {
            Err(TxInvalidity::NoInputs)
        } else if self.size() > max_tx_size {
            Err(TxInvalidity::TooLarge)
        } else if self.id@ != self.computed_id() {
            Err(TxInvalidity::InvalidId)
        } else if !self.amounts_positive() {
            Err(TxInvalidity::ZeroAmount)
        } else if !self.inputs_unique() {
            Err(TxInvalidity::DuplicateInput)
        } else if !self.signatures_valid() {
            Err(TxInvalidity::InvalidSignature)
        } else {
            Ok(())
        }
    }

    /// A transaction with the given inputs and outputs, its id computed.
    pub fn create_transaction(inputs: Vec<Input>, outputs: Vec<Output>, extra_entropy: u16) -> (r:
        Self)
        ensures
            r.input_list@ == inputs@,
            r.output_list@ == outputs@,
            r.extra_entropy == extra_entropy,
            r.id@ == r.computed_id(),
    {
        let mut s = Transaction {
            id: [0u8; 32],
            extra_entropy,
            input_list: inputs,
            output_list: outputs,
        };
        s.update_hash();
        s
    }

    /// The id that the contents give.
    pub fn calculate_hash(&self) -> (r: [u8; 32])
        ensures
            r@ == self.computed_id(),
    {
        let mut input_hash_list: Vec<[u8; 32]> = Vec::new();
        let mut i: usize = 0;
        while i < self.input_list.len()
            invariant
                i <= self.input_list@.len(),
                input_hash_list@.len() == i,
                forall|k: int|
                    0 <= k < i ==> (#[trigger] input_hash_list@[k])@ == self.input_hashes()[k],
            decreases self.input_list@.len() - i,
        {
            input_hash_list.push(self.input_list[i].calculate_hash());
            i = i + 1;
        }
        let mut output_hash_list: Vec<[u8; 32]> = Vec::new();
        let mut j: usize = 0;
        while j < self.output_list.len()
            invariant
                j <= self.output_list@.len(),
                output_hash_list@.len() == j,
                forall|k: int|
                    0 <= k < j ==> (#[trigger] output_hash_list@[k])@ == self.output_hashes()[k],
            decreases self.output_list@.len() - j,
        {
            output_hash_list.push(self.output_list[j].calculate_hash());
            j = j + 1;
        }
        assert(crate::merkle::leaves(input_hash_list@) =~= self.input_hashes());
        assert(crate::merkle::leaves(output_hash_list@) =~= self.output_hashes());
        let inputs_root = calculate_merkle_root(input_hash_list);
        let outputs_root = calculate_merkle_root(output_hash_list);
        let mut buf = hex_encode(&inputs_root);
        push_dot(&mut buf);
        push_all(&mut buf, hex_encode(&outputs_root));
        assert(buf@ =~= self.id_preimage());
        hash(buf.as_slice())
    }

    /// Sets the id to what the contents give.
    pub fn update_hash(&mut self)
        ensures
            final(self).id@ == final(self).computed_id(),
            final(self).input_list == old(self).input_list,
            final(self).output_list == old(self).output_list,
            final(self).extra_entropy == old(self).extra_entropy,
    {
        self.id = self.calculate_hash();
    }

    /// Signs every input, on the id, with the secret key `sk`.
    pub fn sign_inputs(&mut self, sk: &[u8]) -> (r: Result<(), PublicKeyError>)
        ensures
            final(self).id == old(self).id,
            final(self).extra_entropy == old(self).extra_entropy,
            final(self).output_list == old(self).output_list,
            final(self).input_list@.len() == old(self).input_list@.len(),
            r is Ok <==> (ecdsa_signature_of(sk@, old(self).id@) is Some || old(
                self,
            ).input_list@.len() == 0),
            forall|k: int|
                0 <= k < old(self).input_list@.len() ==> {
                    let a = #[trigger] final(self).input_list@[k];
                    let b = old(self).input_list@[k];
                    &&& a.prev_txid == b.prev_txid
                    &&& a.output_index == b.output_index
                    &&& a.public_key == b.public_key
                    &&& r is Ok ==> ecdsa_signature_of(sk@, old(self).id@) == Some(a.signature@)
                },
    {
        let id = self.id;
        let mut i: usize = 0;
        let n = self.input_list.len();
        while i < n
            invariant
                n == self.input_list@.len(),
                n == old(self).input_list@.len(),
                i <= n,
                self.id == id,
                id == old(self).id,
                self.extra_entropy == old(self).extra_entropy,
                self.output_list == old(self).output_list,
                i > 0 ==> ecdsa_signature_of(sk@, id@) is Some,
                forall|k: int|
                    0 <= k < n ==> {
                        let a = #[trigger] self.input_list@[k];
                        let b = old(self).input_list@[k];
                        &&& a.prev_txid == b.prev_txid
                        &&& a.output_index == b.output_index
                        &&& a.public_key == b.public_key
                        &&& k < i ==> ecdsa_signature_of(sk@, id@) == Some(a.signature@)
                    },
            decreases n - i,
        {
            let signature = match PublicKeyAlgorithm::sign(sk, &id) {
                Ok(s) => s,
                Err(e) => {
                    return Err(e);
                },
            };
            let mut input = self.input_list.remove(i);
            input.signature = signature;
            self.input_list.insert(i, input);
            i = i + 1;
        }
        Ok(())
    }

    /// Whether every input is signed, under its own key, on the id.
    pub fn verify_input_signatures(&self) -> (r: bool)
        ensures
            r == self.signatures_valid(),
    {
        let mut i: usize = 0;
        while i < self.input_list.len()
            invariant
                i <= self.input_list@.len(),
                forall|a: int|
                    0 <= a < i ==> ecdsa_accepts(
                        #[trigger] self.input_list@[a].public_key@,
                        self.id@,
                        self.input_list@[a].signature@,
                    ),
            decreases self.input_list@.len() - i,
        {
            if !self.input_list[i].verify_signature(&self.id) {
                return false;
            }
            i = i + 1;
        }
        true
    }

    /// Whether no two inputs spend the same output.
    pub fn are_inputs_unique(&self) -> (r: bool)
        ensures
            r == self.inputs_unique(),
    {
        let n = self.input_list.len();
        let mut b: usize = 0;
        while b < n
            invariant
                n == self.input_list@.len(),
                b <= n,
                forall|x: int, y: int|
                    0 <= x < y < b ==> outpoint(self.input_list@[x]) != outpoint(
                        self.input_list@[y],
                    ),
            decreases n - b,
        {
            let mut a: usize = 0;
            while a < b
                invariant
                    n == self.input_list@.len(),
                    a <= b < n,
                    forall|x: int, y: int|
                        0 <= x < y < b ==> outpoint(self.input_list@[x]) != outpoint(
                            self.input_list@[y],
                        ),
                    forall|x: int|
                        0 <= x < a ==> outpoint(self.input_list@[x]) != outpoint(
                            self.input_list@[b as int],
                        ),
                decreases b - a,
            {
                if self.input_list[a].output_index == self.input_list[b].output_index
                    && bytes32_eq(&self.input_list[a].prev_txid, &self.input_list[b].prev_txid) {
                    assert(self.input_list@[a as int].prev_txid =~= self.input_list@[b as int].prev_txid);
                    return false;
                }
                a = a + 1;
            }
            b = b + 1;
        }
        true
    }

    /// Whether every output pays something.
    pub fn are_amounts_positive(&self) -> (r: bool)
        ensures
            r == self.amounts_positive(),
    {
        let mut i: usize = 0;
        while i < self.output_list.len()
            invariant
                i <= self.output_list@.len(),
                forall|a: int| 0 <= a < i ==> #[trigger] self.output_list@[a].amount > 0,
            decreases self.output_list@.len() - i,
        {
            if self.output_list[i].amount == 0 {
                return false;
            }
            i = i + 1;
        }
        true
    }

    /// The encoded size, where it is within `cap`.
    pub fn size_within(&self, cap: usize) -> (r: Option<usize>)
        requires
            self.output_list@.len() <= MAX_TX_ENTRIES,
        ensures
            r is Some <==> self.size() <= cap,
            r is Some ==> r->0 == self.size(),
    {
        let mut acc: u128 = 42 + 40 * (self.output_list.len() as u128);
        if acc > cap as u128 {
            return None;
        }
        let mut i: usize = 0;
        assert(self.input_list@.subrange(0, 0) =~= Seq::<Input>::empty());
        while i < self.input_list.len()
            invariant
                i <= self.input_list@.len(),
                self.output_list@.len() <= MAX_TX_ENTRIES,
                acc == 42 + 40 * self.output_list@.len() + inputs_size(
                    self.input_list@.subrange(0, i as int),
                ),
                acc <= cap,
            decreases self.input_list@.len() - i,
        {
            proof {
                assert(self.input_list@.subrange(0, i + 1).drop_last() =~= self.input_list@.subrange(
                    0,
                    i as int,
                ));
            }
            acc = acc + 48 + self.input_list[i].signature.len() as u128
                + self.input_list[i].public_key.len() as u128;
            i = i + 1;
            if acc > cap as u128 {
                proof {
                    lemma_inputs_size_prefix(self.input_list@, i as int);
                }
                return None;
            }
        }
        assert(self.input_list@.subrange(0, i as int) =~= self.input_list@);
        Some(acc as usize)
    }

    /// Whether the encoded size is within `max_tx_size`.
    pub fn fits_size(&self, max_tx_size: usize) -> (r: bool)
        requires
            self.output_list@.len() <= MAX_TX_ENTRIES,
        ensures
            r == (self.size() <= max_tx_size),
    {
        self.size_within(max_tx_size).is_some()
    }

    /// The checks that need no chain state.
    pub fn check_heuristic(&self, max_tx_size: usize) -> (r: Result<(), TxInvalidity>)
        ensures
            r == self.heuristic_check(max_tx_size),
    {
        if self.input_list.len() > MAX_TX_ENTRIES || self.output_list.len() > MAX_TX_ENTRIES {
            return Err(TxInvalidity::TooManyEntries);
        }
        if self.input_list.len() == 0 {
            return Err(TxInvalidity::NoInputs);
        }
        if !self.fits_size(max_tx_size) {
            return Err(TxInvalidity::TooLarge);
        }
        let computed = self.calculate_hash();
        if !bytes32_eq(&computed, &self.id) {
            return Err(TxInvalidity::InvalidId);
        }
        if !self.are_amounts_positive() {
            return Err(TxInvalidity::ZeroAmount);
        }
        if !self.are_inputs_unique() {
            return Err(TxInvalidity::DuplicateInput);
        }
        if !self.verify_input_signatures() {
            return Err(TxInvalidity::InvalidSignature);
        }
        Ok(())
    }

    /// Whether the checks that need no chain state pass.
    pub fn is_valid_heuristic(&self, max_tx_size: usize) -> (r: bool)
        ensures
            r == (self.heuristic_check(max_tx_size) is Ok),
    {
        self.check_heuristic(max_tx_size).is_ok()
    }
}

/// The transaction that mints a block's reward and fees: one output, no inputs.
#[derive(Clone, Copy, Debug, PartialEq, Eq, Hash)]
pub struct CoinbaseTransaction {
    pub id: [u8; 32],
    pub output: Output,
    pub time: u64,
}

impl CoinbaseTransaction {
    /// What the id is the digest of: the output's bytes, a dot and the time.
    pub open spec fn preimage(self) -> Seq<u8> {
        self.output.preimage() + dot() + decimal_of(self.time as nat)
    }

    /// The id that the contents give.
    pub open spec fn computed_id(self) -> Seq<u8> {
        blake3_of(self.preimage())
    }

    /// The id that the contents give.
    pub fn calculate_hash(&self) -> (r: [u8; 32])
        ensures
            r@ == self.computed_id(),
    {
        let mut buf = hex_encode(&self.output.address.address);
        push_dot(&mut buf);
        push_all(&mut buf, decimal(self.output.amount as u128));
        push_dot(&mut buf);
        push_all(&mut buf, decimal(self.time as u128));
        assert(buf@ =~= self.preimage());
        hash(buf.as_slice())
    }

    /// A coinbase paying `reward` to `address`, at time zero, its id computed.
    pub fn create(address: P2PKHAddress, reward: u64) -> (r: Self)
        ensures
            r.output.amount == reward,
            r.output.address == address,
            r.time == 0,
            r.id@ == r.computed_id(),
    {
        let mut this = CoinbaseTransaction {
            id: [0u8; 32],
            output: Output { amount: reward, address },
            time: 0,
        };
        this.id = this.calculate_hash();
        this
    }

    /// The coinbase of the genesis block: ten coins to the null address, id zero.
    pub fn genesis() -> (r: Self)
        ensures
            r.id@ == Seq::new(32, |i: int| 0u8),
            r.output.amount == 10,
            r.output.address.address@ == Seq::new(32, |i: int| 0u8),
            r.time == 0,
    {
        let r = CoinbaseTransaction {
            id: [0u8; 32],
            output: Output { amount: 10, address: P2PKHAddress::null() },
            time: 0,
        };
        assert(r.id@ =~= Seq::new(32, |i: int| 0u8));
        r
    }
}

/// The outputs that a transaction removed from the unspent set.
#[derive(Clone, Debug, PartialEq, Eq, Hash)]
pub struct ReverseTransaction {
    pub original_tx_id: [u8; 32],
    pub removed_utxos: Vec<UTXO>,
}

impl ReverseTransaction {
    /// Records that the transaction `original_transaction_id` removed `removed_utxos`.
    pub fn create_reverse_transaction(original_transaction_id: [u8; 32], removed_utxos: Vec<UTXO>) -> (r:
        Self)
        ensures
            r.original_tx_id == original_transaction_id,
            r.removed_utxos == removed_utxos,
    {
        ReverseTransaction { original_tx_id: original_transaction_id, removed_utxos }
    }
}

} // verus!
