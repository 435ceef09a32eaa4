use vstd::prelude::*;

use crate::address::address_of;
use crate::block::{body_size, spent_outpoints, Block};
use crate::parameters::Parameters;
use crate::utxo::{key_of, outpoint, Transaction, TxInvalidity, UTXO};
use crate::utxo_set::{has_key, has_txid, keys_unique, lookup};

verus! {

/// The txid under which coinbase outputs are kept, each at its block's height.
pub const COINBASE_TXID: [u8; 32] = [
    0, 0, 0, 0, 0, 0, 0, 0, 0, 0, 0, 0, 0, 0, 0, 0,
    0, 0, 0, 0, 0, 0, 0, 0, 0, 0, 0, 0, 0, 0, 0, 0,
];

/// Why a block is invalid.
#[derive(Clone, Copy, Debug, PartialEq, Eq)]
pub enum InvalidityReason {
    /// The previous hash is not the tip's hash.
    WrongContext,
    /// The header hash is not the digest of the header.
    InvalidHash,
    /// The Merkle root is not the root over the body's ids.
    InvalidMerkle,
    /// The height is not one above the tip's.
    InvalidHeight,
    /// The lottery proof does not check, or does not win.
    InvalidVRF,
    /// The coinbase id, amount or key is wrong.
    InvalidCoinbase,
    /// Two inputs of the body spend the same output.
    DoubleSpendWithinBlock,
    /// A transaction of the body is invalid: its id and why.
    InvalidTransaction([u8; 32], TxInvalidity),
    /// The body is larger than the largest body allowed.
    TooLarge,
}

/// The sum of the amounts of the outputs that a list of inputs spends.
pub open spec fn spent_total(s: Set<UTXO>, inputs: Seq<crate::utxo::Input>) -> nat
    decreases inputs.len(),
{
    if inputs.len() == 0 {
        0
    } else {
        spent_total(s, inputs.drop_last()) + lookup(s, outpoint(inputs.last())).amount as nat
    }
}

/// The fee a transaction pays against the unspent set `s`: what its inputs
/// spend beyond what its outputs pay.
pub open spec fn tx_fee(s: Set<UTXO>, tx: Transaction) -> int {
    spent_total(s, tx.input_list@) - crate::utxo::outputs_total(tx.output_list@)
}

/// The least fee a transaction pays: the fee per byte times its size.
pub open spec fn fee_floor(params: Parameters, tx: Transaction) -> nat {
    params.economic_parameters.fee_per_tx_byte as nat * tx.size()
}

/// Every input spends an unspent output.
pub open spec fn inputs_exist(s: Set<UTXO>, tx: Transaction) -> bool {
    forall|k: int| 0 <= k < tx.input_list@.len() ==> has_key(s, outpoint(#[trigger] tx.input_list@[k]))
}

/// Every input's public key hashes to the address of the output it spends.
pub open spec fn inputs_owned(s: Set<UTXO>, tx: Transaction) -> bool {
    forall|k: int|
        0 <= k < tx.input_list@.len() ==> lookup(s, outpoint(#[trigger] tx.input_list@[k])).recipient_address.address@
            == address_of(tx.input_list@[k].public_key@)
}

/// The full check of a transaction against the unspent set `s`, in order.
pub open spec fn tx_check(s: Set<UTXO>, tx: Transaction, params: Parameters) -> Result<
    (),
    TxInvalidity,
> {
    match tx.heuristic_check(params.network_parameters.max_tx_size) {
        Err(e) => Err(e),
        Ok(()) => if !inputs_exist(s, tx) {
            Err(TxInvalidity::MissingUtxo)
        } else if !inputs_owned(s, tx) {
            Err(TxInvalidity::WrongOwner)
        } else if spent_total(s, tx.input_list@) < crate::utxo::outputs_total(tx.output_list@)
            + fee_floor(params, tx) {
            Err(TxInvalidity::InsufficientFee)
        } else if tx.id == COINBASE_TXID || has_txid(s, tx.id) {
            Err(TxInvalidity::IdInUse)
        } else {
            Ok(())
        },
    }
}

/// The check of the transaction at `t` of a body: its own check, then that
/// no earlier transaction of the body has its id.
pub open spec fn body_tx_check(s: Set<UTXO>, txs: Seq<Transaction>, t: int, params: Parameters) -> Result<
    (),
    TxInvalidity,
> {
    match tx_check(s, txs[t], params) {
        Err(e) => Err(e),
        Ok(()) => if exists|j: int| 0 <= j < t && #[trigger] txs[j].id == txs[t].id {
            Err(TxInvalidity::IdInUse)
        } else {
            Ok(())
        },
    }
}

/// The first transaction from `t` on that fails its check, with why.
pub open spec fn first_tx_failure(s: Set<UTXO>, txs: Seq<Transaction>, t: int, params: Parameters) -> Option<
    ([u8; 32], TxInvalidity),
>
    decreases txs.len() - t,
{
    if t < 0 || t >= txs.len() {
        None
    } else {
        match body_tx_check(s, txs, t, params) {
            Err(e) => Some((txs[t].id, e)),
            Ok(()) => first_tx_failure(s, txs, t + 1, params),
        }
    }
}

/// The fees that a list of transactions pays against `s`.
pub open spec fn total_fees(s: Set<UTXO>, txs: Seq<Transaction>) -> int
    decreases txs.len(),
{
    if txs.len() == 0 {
        0
    } else {
        total_fees(s, txs.drop_last()) + tx_fee(s, txs.last())
    }
}

/// The coinbase output of a block, kept under the coinbase txid at its height.
pub open spec fn coinbase_utxo(b: Block) -> UTXO {
    UTXO {
        txid: COINBASE_TXID,
        output_index: b.header.height,
        amount: b.header.coinbase.output.amount,
        recipient_address: b.header.coinbase.output.address,
    }
}

/// The coinbase pays the reward and the fees, under its own id and a free key.
pub open spec fn coinbase_ok(s: Set<UTXO>, b: Block, params: Parameters) -> bool {
    &&& b.header.coinbase.id@ == b.header.coinbase.computed_id()
    &&& b.header.coinbase.output.amount as int == params.economic_parameters.block_reward as int
        + total_fees(s, b.transactions@)
    &&& !has_key(s, key_of(coinbase_utxo(b)))
}

/// Every transaction of the body has at most 128 outputs.
pub open spec fn entries_bounded(txs: Seq<Transaction>) -> bool {
    forall|i: int|
        0 <= i < txs.len() ==> (#[trigger] txs[i]).output_list@.len() <= crate::utxo::MAX_TX_ENTRIES
}

/// The check of a block against the tip `tip` and the unspent set `s`, in
/// the order the checks are made; `vrf_ok` is the outcome of the lottery check.
pub open spec fn block_check(
    s: Set<UTXO>,
    tip: Block,
    b: Block,
    params: Parameters,
    vrf_ok: bool,
) -> Result<(), InvalidityReason> {
    if b.header.previous_hash != tip.header.hash {
        Err(InvalidityReason::WrongContext)
    } else if b.header.height != tip.header.height + 1 || b.header.height >= usize::MAX - 1 {
        Err(InvalidityReason::InvalidHeight)
    } else if b.header.merkle_root@ != b.body_root() {
        Err(InvalidityReason::InvalidMerkle)
    } else if b.header.hash@ != b.header.computed_hash() {
        Err(InvalidityReason::InvalidHash)
    } else if !vrf_ok {
        Err(InvalidityReason::InvalidVRF)
    } else if !spent_outpoints(b.transactions@).no_duplicates() {
        Err(InvalidityReason::DoubleSpendWithinBlock)
    } else if first_tx_failure(s, b.transactions@, 0, params) is Some {
        let f = first_tx_failure(s, b.transactions@, 0, params)->0;
        Err(InvalidityReason::InvalidTransaction(f.0, f.1))
    } else if body_size(b.transactions@) > params.network_parameters.max_block_body_size {
        Err(InvalidityReason::TooLarge)
    } else if !coinbase_ok(s, b, params) {
        Err(InvalidityReason::InvalidCoinbase)
    } else {
        Ok(())
    }
}

/// The outputs of a transaction, as unspent outputs keyed by its id.
pub open spec fn outputs_as_utxos(tx: Transaction) -> Seq<UTXO> {
    Seq::new(
        tx.output_list@.len(),
        |i: int|
            UTXO {
                txid: tx.id,
                output_index: i as usize,
                amount: tx.output_list@[i].amount,
                recipient_address: tx.output_list@[i].address,
            },
    )
}

/// The outputs that a list of transactions creates, in order.
pub open spec fn created_of(txs: Seq<Transaction>) -> Seq<UTXO>
    decreases txs.len(),
{
    if txs.len() == 0 {
        Seq::empty()
    } else {
        created_of(txs.drop_last()) + outputs_as_utxos(txs.last())
    }
}

/// The outputs that applying a block creates: those of its transactions,
/// then its coinbase output.
pub open spec fn created_utxos(b: Block) -> Seq<UTXO> {
    created_of(b.transactions@).push(coinbase_utxo(b))
}

/// The outputs that applying a block to `s` removes, in input order.
pub open spec fn consumed_utxos(s: Set<UTXO>, b: Block) -> Seq<UTXO> {
    spent_outpoints(b.transactions@).map_values(|op: ([u8; 32], usize)| lookup(s, op))
}

/// The unspent set after applying a block to `s`.
pub open spec fn apply_utxos(s: Set<UTXO>, b: Block) -> Set<UTXO> {
    s.difference(consumed_utxos(s, b).to_set()).union(created_utxos(b).to_set())
}

/// The unspent set after rolling back `b` from `s`, given the outputs that
/// its journal entry restores.
pub open spec fn undo_utxos(s: Set<UTXO>, b: Block, restored: Seq<UTXO>) -> Set<UTXO> {
    s.difference(created_utxos(b).to_set()).union(restored.to_set())
}

/// What applying a block needs of the unspent set: each spent output is
/// there and spent once, and each created key is new and created once.
pub open spec fn applicable(s: Set<UTXO>, b: Block) -> bool {
    &&& keys_unique(s)
    &&& spent_outpoints(b.transactions@).no_duplicates()
    &&& forall|m: int|
        0 <= m < spent_outpoints(b.transactions@).len() ==> has_key(
            s,
            #[trigger] spent_outpoints(b.transactions@)[m],
        )
    &&& forall|a: int, c: int|
        0 <= a < c < created_utxos(b).len() ==> key_of(created_utxos(b)[a]) != key_of(
            created_utxos(b)[c],
        )
    &&& forall|a: int| 0 <= a < created_utxos(b).len() ==> !has_key(s, key_of(#[trigger] created_utxos(b)[a]))
}

/// Where no transaction from `t` on fails, each one from `t` on passes.
pub proof fn lemma_no_failure(s: Set<UTXO>, txs: Seq<Transaction>, t: int, params: Parameters)
    requires
        0 <= t,
        first_tx_failure(s, txs, t, params) is None,
    ensures
        forall|j: int| t <= j < txs.len() ==> body_tx_check(s, txs, j, params) is Ok,
    decreases txs.len() - t,
{
    if t < txs.len() {
        lemma_no_failure(s, txs, t + 1, params);
    }
}

/// Each spent outpoint of a body is the outpoint of one of its inputs: the
/// input `r.1` of the transaction `r.0`.
pub proof fn lemma_spent_member(txs: Seq<Transaction>, m: int) -> (r: (int, int))
    requires
        0 <= m < spent_outpoints(txs).len(),
    ensures
        0 <= r.0 < txs.len(),
        0 <= r.1 < txs[r.0].input_list@.len(),
        spent_outpoints(txs)[m] == outpoint(txs[r.0].input_list@[r.1]),
    decreases txs.len(),
{
    let p = txs.drop_last();
    let last = txs.last().input_list@.map_values(|i| outpoint(i));
    assert(spent_outpoints(txs) == spent_outpoints(p) + last);
    if m < spent_outpoints(p).len() {
        let (t, k) = lemma_spent_member(p, m);
        assert(txs[t] == p[t]);
        (t, k)
    } else {
        let k = m - spent_outpoints(p).len();
        assert(txs[txs.len() - 1] == txs.last());
        (txs.len() - 1, k)
    }
}

/// Each created output of a body is an output of one of its transactions,
/// under that transaction's id.
pub proof fn lemma_created_members(txs: Seq<Transaction>)
    ensures
        forall|a: int|
            0 <= a < created_of(txs).len() ==> exists|t: int|
                0 <= t < txs.len() && (#[trigger] created_of(txs)[a]).txid == txs[t].id,
    decreases txs.len(),
{
    if txs.len() > 0 {
        let p = txs.drop_last();
        lemma_created_members(p);
        assert forall|a: int| 0 <= a < created_of(txs).len() implies exists|t: int|
            0 <= t < txs.len() && (#[trigger] created_of(txs)[a]).txid == txs[t].id by {
            if a < created_of(p).len() {
                let t = choose|t: int| 0 <= t < p.len() && (#[trigger] created_of(p)[a]).txid == p[t].id;
                assert(created_of(txs)[a] == created_of(p)[a]);
                assert(txs[t] == p[t]);
            } else {
                assert(created_of(txs)[a] == outputs_as_utxos(txs.last())[a - created_of(p).len()]);
                assert(txs[txs.len() - 1] == txs.last());
            }
        }
    }
}

/// Distinct transaction ids give distinct keys to the created outputs.
pub proof fn lemma_created_distinct(txs: Seq<Transaction>)
    requires
        forall|a: int, c: int| 0 <= a < c < txs.len() ==> txs[a].id != txs[c].id,
    ensures
        forall|a: int, c: int|
            0 <= a < c < created_of(txs).len() ==> key_of(created_of(txs)[a]) != key_of(
                created_of(txs)[c],
            ),
    decreases txs.len(),
{
    if txs.len() > 0 {
        let p = txs.drop_last();
        lemma_created_distinct(p);
        lemma_created_members(p);
        let n = created_of(p).len();
        let last = outputs_as_utxos(txs.last());
        assert(created_of(txs) == created_of(p) + last);
        assert forall|a: int, c: int| 0 <= a < c < created_of(txs).len() implies key_of(
            created_of(txs)[a],
        ) != key_of(created_of(txs)[c]) by {
            if c < n {
                assert(created_of(txs)[a] == created_of(p)[a]);
                assert(created_of(txs)[c] == created_of(p)[c]);
            } else if a < n {
                let t = choose|t: int| 0 <= t < p.len() && (#[trigger] created_of(p)[a]).txid == p[t].id;
                assert(created_of(txs)[a] == created_of(p)[a]);
                assert(created_of(txs)[c] == last[c - n]);
                assert(p[t] == txs[t]);
                assert(txs[txs.len() - 1] == txs.last());
                assert(txs[t].id != txs[txs.len() - 1].id);
            } else {
                let ol = txs.last().output_list;
                assert(ol.len() == ol@.len());
                assert(created_of(txs)[a] == last[a - n]);
                assert(created_of(txs)[c] == last[c - n]);
                assert(last[a - n].output_index == (a - n) as usize);
                assert(last[c - n].output_index == (c - n) as usize);
            }
        }
    }
}

/// A block that passes its check can be applied to the unspent set.
pub proof fn lemma_check_applicable(s: Set<UTXO>, tip: Block, b: Block, params: Parameters)
    requires
        keys_unique(s),
        block_check(s, tip, b, params, true) is Ok,
    ensures
        applicable(s, b),
{
    let txs = b.transactions@;
    lemma_no_failure(s, txs, 0, params);
    lemma_created_members(txs);
    assert forall|a: int, c: int| 0 <= a < c < txs.len() implies txs[a].id != txs[c].id by {
        assert(body_tx_check(s, txs, c, params) is Ok);
        assert(tx_check(s, txs[c], params) is Ok);
    }
    lemma_created_distinct(txs);
    let ops = spent_outpoints(txs);
    assert forall|m: int| 0 <= m < ops.len() implies has_key(s, #[trigger] ops[m]) by {
        let (t, k) = lemma_spent_member(txs, m);
        assert(body_tx_check(s, txs, t, params) is Ok);
        assert(tx_check(s, txs[t], params) is Ok);
        assert(inputs_exist(s, txs[t]));
        assert(has_key(s, outpoint(txs[t].input_list@[k])));
    }
    let cr = created_utxos(b);
    let co = created_of(txs);
    assert(cr == co.push(coinbase_utxo(b)));
    assert forall|a: int| 0 <= a < co.len() implies !has_key(s, key_of(#[trigger] co[a])) by {
        let t = choose|t: int| 0 <= t < txs.len() && (#[trigger] created_of(txs)[a]).txid == txs[t].id;
        assert(body_tx_check(s, txs, t, params) is Ok);
        assert(tx_check(s, txs[t], params) is Ok);
        assert(!has_txid(s, txs[t].id));
        if has_key(s, key_of(co[a])) {
            let u = choose|u: UTXO| s.contains(u) && key_of(u) == key_of(co[a]);
            assert(s.contains(u) && u.txid == txs[t].id);
        }
    }
    assert forall|a: int| 0 <= a < cr.len() implies !has_key(s, key_of(#[trigger] cr[a])) by {
        if a < co.len() {
            assert(cr[a] == co[a]);
        } else {
            assert(cr[a] == coinbase_utxo(b));
        }
    }
    assert forall|a: int, c: int| 0 <= a < c < cr.len() implies key_of(cr[a]) != key_of(cr[c]) by {
        if c < co.len() {
            assert(cr[a] == co[a]);
            assert(cr[c] == co[c]);
        } else {
            let t = choose|t: int| 0 <= t < txs.len() && (#[trigger] created_of(txs)[a]).txid == txs[t].id;
            assert(body_tx_check(s, txs, t, params) is Ok);
            assert(tx_check(s, txs[t], params) is Ok);
            assert(txs[t].id != COINBASE_TXID);
            assert(cr[a] == co[a]);
            assert(cr[c] == coinbase_utxo(b));
        }
    }
}

/// Applying a block keeps keys unique.
pub proof fn lemma_apply_keys_unique(s: Set<UTXO>, b: Block)
    requires
        applicable(s, b),
    ensures
        keys_unique(apply_utxos(s, b)),
{
    let cr = created_utxos(b);
    let r = apply_utxos(s, b);
    assert forall|x: UTXO, y: UTXO|
        r.contains(x) && r.contains(y) && key_of(x) == key_of(y) implies x == y by {
        if cr.to_set().contains(x) && cr.to_set().contains(y) {
            let a = choose|a: int| 0 <= a < cr.len() && cr[a] == x;
            let c = choose|c: int| 0 <= c < cr.len() && cr[c] == y;
            if a < c {
                assert(key_of(cr[a]) != key_of(cr[c]));
            } else if c < a {
                assert(key_of(cr[c]) != key_of(cr[a]));
            }
        } else if cr.to_set().contains(x) {
            let a = choose|a: int| 0 <= a < cr.len() && cr[a] == x;
            assert(!has_key(s, key_of(cr[a])));
            assert(s.contains(y));
        } else if cr.to_set().contains(y) {
            let c = choose|c: int| 0 <= c < cr.len() && cr[c] == y;
            assert(!has_key(s, key_of(cr[c])));
            assert(s.contains(x));
        }
    }
}

/// Rolling back a block with the outputs it consumed restores the unspent
/// set it was applied to.
pub proof fn lemma_undo_apply(s: Set<UTXO>, b: Block)
    requires
        applicable(s, b),
    ensures
        undo_utxos(apply_utxos(s, b), b, consumed_utxos(s, b)) == s,
{
    let cr = created_utxos(b).to_set();
    let co = consumed_utxos(s, b).to_set();
    let ops = spent_outpoints(b.transactions@);
    assert forall|u: UTXO| co.contains(u) implies s.contains(u) by {
        let m = choose|m: int| 0 <= m < consumed_utxos(s, b).len() && consumed_utxos(s, b)[m] == u;
        assert(has_key(s, ops[m]));
    }
    assert forall|u: UTXO| cr.contains(u) implies !s.contains(u) by {
        let a = choose|a: int| 0 <= a < created_utxos(b).len() && created_utxos(b)[a] == u;
        assert(!has_key(s, key_of(created_utxos(b)[a])));
    }
    assert(undo_utxos(apply_utxos(s, b), b, consumed_utxos(s, b)) =~= s);
}

/// The spent outputs of two lists of transactions, one after the other.
pub proof fn lemma_spent_concat(a: Seq<Transaction>, b: Seq<Transaction>)
    ensures
        spent_outpoints(a + b) == spent_outpoints(a) + spent_outpoints(b),
    decreases b.len(),
{
    if b.len() == 0 {
        assert(a + b =~= a);
        assert(spent_outpoints(a) + spent_outpoints(b) =~= spent_outpoints(a));
    } else {
        lemma_spent_concat(a, b.drop_last());
        assert((a + b).drop_last() =~= a + b.drop_last());
        assert((a + b).last() == b.last());
        assert(spent_outpoints(a + b) =~= spent_outpoints(a) + spent_outpoints(b));
    }
}

/// The created outputs of two lists of transactions, one after the other.
pub proof fn lemma_created_concat(a: Seq<Transaction>, b: Seq<Transaction>)
    ensures
        created_of(a + b) == created_of(a) + created_of(b),
    decreases b.len(),
{
    if b.len() == 0 {
        assert(a + b =~= a);
        assert(created_of(a) + created_of(b) =~= created_of(a));
    } else {
        lemma_created_concat(a, b.drop_last());
        assert((a + b).drop_last() =~= a + b.drop_last());
        assert((a + b).last() == b.last());
        assert(created_of(a + b) =~= created_of(a) + created_of(b));
    }
}

/// The spent outputs of a one-transaction list.
pub proof fn lemma_spent_single(tx: Transaction)
    ensures
        spent_outpoints(seq![tx]) == tx.input_list@.map_values(|i| outpoint(i)),
{
    assert(seq![tx].drop_last() =~= Seq::<Transaction>::empty());
    assert(seq![tx].last() == tx);
    assert(spent_outpoints(Seq::<Transaction>::empty()) =~= Seq::empty());
    assert(spent_outpoints(seq![tx]) =~= tx.input_list@.map_values(|i| outpoint(i)));
}

/// The created outputs of a one-transaction list.
pub proof fn lemma_created_single(tx: Transaction)
    ensures
        created_of(seq![tx]) == outputs_as_utxos(tx),
{
    assert(seq![tx].drop_last() =~= Seq::<Transaction>::empty());
    assert(seq![tx].last() == tx);
    assert(created_of(Seq::<Transaction>::empty()) =~= Seq::empty());
    assert(created_of(seq![tx]) =~= outputs_as_utxos(tx));
}

/// Where a set holds an output under `k`, lookup finds one under `k` in it.
pub proof fn lemma_lookup_has_key(s: Set<UTXO>, k: ([u8; 32], usize))
    requires
        has_key(s, k),
    ensures
        s.contains(lookup(s, k)),
        key_of(lookup(s, k)) == k,
{
}

/// Every coinbase output of the set sits at a height below `n`.
pub open spec fn coinbase_keys_below(s: Set<UTXO>, n: int) -> bool {
    forall|u: UTXO| #[trigger] s.contains(u) && u.txid == COINBASE_TXID ==> u.output_index < n
}

/// Applying a block at height `n` to a set whose coinbase outputs sit below
/// `n` leaves them below `n + 1`.
pub proof fn lemma_apply_coinbase_keys(s: Set<UTXO>, tip: Block, b: Block, params: Parameters, n: int)
    requires
        block_check(s, tip, b, params, true) is Ok,
        coinbase_keys_below(s, n),
        b.header.height == n,
    ensures
        coinbase_keys_below(apply_utxos(s, b), n + 1),
{
    let txs = b.transactions@;
    lemma_no_failure(s, txs, 0, params);
    lemma_created_members(txs);
    let cr = created_utxos(b);
    assert(cr == created_of(txs).push(coinbase_utxo(b)));
    assert forall|u: UTXO| #[trigger] apply_utxos(s, b).contains(u) && u.txid == COINBASE_TXID implies u.output_index
        < n + 1 by {
        if cr.to_set().contains(u) {
            let a = choose|a: int| 0 <= a < cr.len() && cr[a] == u;
            if a < created_of(txs).len() {
                assert(created_of(txs)[a] == u);
                let t = choose|t: int| 0 <= t < txs.len() && (#[trigger] created_of(txs)[a]).txid == txs[t].id;
                assert(body_tx_check(s, txs, t, params) is Ok);
                assert(tx_check(s, txs[t], params) is Ok);
            }
        }
    }
}

} // verus!
