use vstd::prelude::*;

use crate::hash::bytes32_eq;
use crate::utxo::Transaction;

verus! {

/// The bytes in a megabyte.
pub const BYTES_IN_A_MEGABYTE: u128 = 1048576;

/// Why the mempool refused a transaction.
#[derive(Clone, Copy, Debug, PartialEq, Eq, Structural)]
pub enum MempoolError {
    /// The mempool holds as many transactions as it may.
    MempoolFull,
}

/// How many transactions fit in `max_size_mb` megabytes of transactions of
/// at most `max_transaction_size` bytes, capped at the largest `usize`.
pub open spec fn mempool_capacity(max_size_mb: usize, max_transaction_size: usize) -> nat {
    let c = max_size_mb as nat * 1048576 / max_transaction_size as nat;
    if c > usize::MAX {
        usize::MAX as nat
    } else {
        c
    }
}

/// The pending transactions, in the order they were admitted, with distinct ids.
pub struct Mempool {
    pool: Vec<Transaction>,
    max_length: usize,
}

impl View for Mempool {
    type V = Seq<Transaction>;

    closed spec fn view(&self) -> Seq<Transaction> {
        self.pool@
    }
}

/// No two transactions of the list share an id.
pub open spec fn ids_unique(s: Seq<Transaction>) -> bool {
    forall|i: int, j: int| 0 <= i < j < s.len() ==> s[i].id != s[j].id
}

impl Mempool {
    /// The most transactions the pool may hold.
    pub closed spec fn capacity(&self) -> nat {
        self.max_length as nat
    }

    /// The pool holds no more than its capacity, and no id twice.
    pub open spec fn wf(&self) -> bool {
        &&& self@.len() <= self.capacity()
        &&& ids_unique(self@)
    }

    /// An empty pool for `max_size` megabytes of transactions of at most
    /// `max_transaction_size` bytes.
    pub fn new(max_size: usize, max_transaction_size: usize) -> (r: Self)
        requires
            max_transaction_size > 0,
        ensures
            r.wf(),
            r@.len() == 0,
            r.capacity() == mempool_capacity(max_size, max_transaction_size),
    {
        let c: u128 = max_size as u128 * BYTES_IN_A_MEGABYTE / max_transaction_size as u128;
        let max_length: usize = if c > usize::MAX as u128 {
            usize::MAX
        } else {
            c as usize
        };
        Mempool { pool: Vec::new(), max_length }
    }

    /// The number of pending transactions.
    pub fn len(&self) -> (r: usize)
        ensures
            r == self@.len(),
    {
        self.pool.len()
    }

    /// The capacity.
    pub fn max_length(&self) -> (r: usize)
        ensures
            r == self.capacity(),
    {
        self.max_length
    }

    /// Whether a transaction with id `txid` is pending.
    pub fn contains_id(&self, txid: &[u8; 32]) -> (r: bool)
        ensures
            r == exists|i: int| 0 <= i < self@.len() && #[trigger] self@[i].id == *txid,
    {
        let mut i: usize = 0;
        while i < self.pool.len()
            invariant
                i <= self.pool@.len(),
                forall|j: int| 0 <= j < i ==> #[trigger] self.pool@[j].id != *txid,
            decreases self.pool@.len() - i,
        {
            if bytes32_eq(&self.pool[i].id, txid) {
                assert(self.pool@[i as int].id =~= *txid);
                assert(self@[i as int].id == *txid);
                return true;
            }
            i = i + 1;
        }
        false
    }

    /// Admits a transaction. A full pool refuses it and keeps what it holds;
    /// a transaction whose id is pending is not added twice (`Ok(false)`).
    pub fn insert(&mut self, tx: Transaction) -> (r: Result<bool, MempoolError>)
        requires
            old(self).wf(),
        ensures
            final(self).wf(),
            final(self).capacity() == old(self).capacity(),
            old(self)@.len() >= old(self).capacity() ==> r == Err::<bool, MempoolError>(
                MempoolError::MempoolFull,
            ) && final(self)@ == old(self)@,
            old(self)@.len() < old(self).capacity() ==> r is Ok,
            r == Ok::<bool, MempoolError>(true) ==> final(self)@ == old(self)@.push(tx),
            r == Ok::<bool, MempoolError>(false) ==> final(self)@ == old(self)@ && exists|i: int|
                0 <= i < old(self)@.len() && #[trigger] old(self)@[i].id == tx.id,
            r == Ok::<bool, MempoolError>(true) ==> forall|i: int|
                0 <= i < old(self)@.len() ==> #[trigger] old(self)@[i].id != tx.id,
    {
        if self.pool.len() >= self.max_length {
            return Err(MempoolError::MempoolFull);
        }
        if self.contains_id(&tx.id) {
            return Ok(false);
        }
        self.pool.push(tx);
        Ok(true)
    }

    /// Removes the pending transaction with id `txid`, if there is one.
    pub fn remove(&mut self, txid: &[u8; 32])
        requires
            old(self).wf(),
        ensures
            final(self).wf(),
            final(self).capacity() == old(self).capacity(),
            forall|i: int|
                0 <= i < old(self)@.len() && #[trigger] old(self)@[i].id == *txid ==> final(self)@
                    == old(self)@.remove(i),
            (forall|i: int| 0 <= i < old(self)@.len() ==> #[trigger] old(self)@[i].id != *txid)
                ==> final(self)@ == old(self)@,
    {
        let mut i: usize = 0;
        while i < self.pool.len()
            invariant
                i <= self.pool@.len(),
                self.pool@ == old(self).pool@,
                self.max_length == old(self).max_length,
                old(self).wf(),
                forall|j: int| 0 <= j < i ==> #[trigger] self.pool@[j].id != *txid,
            decreases self.pool@.len() - i,
        {
            if bytes32_eq(&self.pool[i].id, txid) {
                assert(self.pool@[i as int].id =~= *txid);
                self.pool.remove(i);
                proof {
                    assert forall|j: int|
                        0 <= j < old(self)@.len() && #[trigger] old(self)@[j].id == *txid implies j
                            == i by {
                        if j != i {
                            if j < i {
                                assert(old(self)@[j].id != old(self)@[i as int].id);
                            } else {
                                assert(old(self)@[i as int].id != old(self)@[j].id);
                            }
                        }
                    }
                }
                return;
            }
            i = i + 1;
        }
    }

    /// The pending transactions, in the order they were admitted.
    pub fn get_map(&self) -> (r: &Vec<Transaction>)
        ensures
            r@ == self@,
    {
        &self.pool
    }
}

} // verus!
