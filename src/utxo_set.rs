use vstd::prelude::*;

use crate::hash::bytes32_eq;
use crate::utxo::{key_of, UTXO};

verus! {

/// No two outputs of a set share a key.
pub open spec fn keys_unique(s: Set<UTXO>) -> bool {
    forall|a: UTXO, b: UTXO|
        s.contains(a) && s.contains(b) && key_of(a) == key_of(b) ==> a == b
}

/// Some output of the set has the key `k`.
pub open spec fn has_key(s: Set<UTXO>, k: ([u8; 32], usize)) -> bool {
    exists|u: UTXO| s.contains(u) && key_of(u) == k
}

/// Some unspent output belongs to the transaction `txid`.
pub open spec fn has_txid(s: Set<UTXO>, txid: [u8; 32]) -> bool {
    exists|u: UTXO| s.contains(u) && u.txid == txid
}

/// The output of the set with the key `k`, where there is one.
pub open spec fn lookup(s: Set<UTXO>, k: ([u8; 32], usize)) -> UTXO {
    choose|u: UTXO| s.contains(u) && key_of(u) == k
}

/// In a set with unique keys, the output found under its own key is itself.
pub proof fn lemma_lookup_own_key(s: Set<UTXO>, u: UTXO)
    requires
        keys_unique(s),
        s.contains(u),
    ensures
        has_key(s, key_of(u)),
        lookup(s, key_of(u)) == u,
{
    assert(s.contains(u) && key_of(u) == key_of(u));
}

/// The set of unspent outputs.
pub struct UTXOSet {
    utxos: Vec<UTXO>,
}

impl View for UTXOSet {
    type V = Set<UTXO>;

    closed spec fn view(&self) -> Set<UTXO> {
        self.utxos@.to_set()
    }
}

impl UTXOSet {
    /// The store holds each output once, and no two outputs share a key.
    pub closed spec fn wf(&self) -> bool {
        forall|i: int, j: int|
            0 <= i < j < self.utxos@.len() ==> key_of(self.utxos@[i]) != key_of(self.utxos@[j])
    }

    /// A well-formed store has unique keys.
    pub proof fn lemma_keys_unique(&self)
        requires
            self.wf(),
        ensures
            keys_unique(self@),
            self@.finite(),
    {
        assert forall|a: UTXO, b: UTXO|
            self@.contains(a) && self@.contains(b) && key_of(a) == key_of(b) implies a == b by {
            let i = choose|i: int| 0 <= i < self.utxos@.len() && self.utxos@[i] == a;
            let j = choose|j: int| 0 <= j < self.utxos@.len() && self.utxos@[j] == b;
            if i < j {
                assert(key_of(self.utxos@[i]) != key_of(self.utxos@[j]));
            } else if j < i {
                assert(key_of(self.utxos@[j]) != key_of(self.utxos@[i]));
            }
        }
        self.lemma_finite();
    }

    proof fn lemma_finite(&self)
        ensures
            self@.finite(),
    {
        vstd::seq_lib::seq_to_set_is_finite(self.utxos@);
    }

    /// The empty set of the genesis state.
    pub fn genesis() -> (r: Self)
        ensures
            r.wf(),
            r@ == Set::<UTXO>::empty(),
    {
        let r = UTXOSet { utxos: Vec::new() };
        assert(r@ =~= Set::<UTXO>::empty());
        r
    }

    /// The number of unspent outputs.
    pub fn len(&self) -> (r: usize)
        requires
            self.wf(),
        ensures
            r == self@.len(),
    {
        proof {
            self.utxos@.unique_seq_to_set();
        }
        self.utxos.len()
    }

    fn position(&self, txid: &[u8; 32], index: usize) -> (r: Option<usize>)
        ensures
            match r {
                Some(i) => i < self.utxos@.len() && key_of(self.utxos@[i as int]) == (*txid, index),
                None => forall|i: int|
                    0 <= i < self.utxos@.len() ==> key_of(self.utxos@[i]) != (*txid, index),
            },
    {
        let mut i: usize = 0;
        while i < self.utxos.len()
            invariant
                i <= self.utxos@.len(),
                forall|j: int| 0 <= j < i ==> key_of(self.utxos@[j]) != (*txid, index),
            decreases self.utxos@.len() - i,
        {
            if self.utxos[i].output_index == index && bytes32_eq(&self.utxos[i].txid, txid) {
                assert(self.utxos@[i as int].txid =~= *txid);
                return Some(i);
            }
            i = i + 1;
        }
        None
    }

    /// The unspent output with key (`txid`, `index`), if there is one.
    pub fn get(&self, txid: &[u8; 32], index: usize) -> (r: Option<UTXO>)
        requires
            self.wf(),
        ensures
            r is Some <==> has_key(self@, (*txid, index)),
            r is Some ==> r->0 == lookup(self@, (*txid, index)),
    {
        proof {
            self.lemma_keys_unique();
        }
        match self.position(txid, index) {
            Some(i) => {
                proof {
                    assert(self.utxos@.contains(self.utxos@[i as int]));
                    lemma_lookup_own_key(self@, self.utxos@[i as int]);
                }
                Some(self.utxos[i])
            },
            None => {
                assert(!has_key(self@, (*txid, index))) by {
                    if has_key(self@, (*txid, index)) {
                        let u = choose|u: UTXO| self@.contains(u) && key_of(u) == (*txid, index);
                        let j = choose|j: int| 0 <= j < self.utxos@.len() && self.utxos@[j] == u;
                    }
                }
                None
            },
        }
    }

    /// Adds an output whose key is not taken.
    pub fn insert(&mut self, u: UTXO)
        requires
            old(self).wf(),
            !has_key(old(self)@, key_of(u)),
        ensures
            final(self).wf(),
            final(self)@ == old(self)@.insert(u),
    {
        proof {
            assert forall|j: int| 0 <= j < self.utxos@.len() implies key_of(self.utxos@[j]) != key_of(u) by {
                assert(self@.contains(self.utxos@[j]));
            }
        }
        self.utxos.push(u);
        proof {
            assert(self.utxos@ =~= old(self).utxos@.push(u));
            assert forall|x: UTXO| self@.contains(x) <==> old(self)@.insert(u).contains(x) by {
                if old(self)@.contains(x) {
                    let j = choose|j: int| 0 <= j < old(self).utxos@.len() && old(self).utxos@[j] == x;
                    assert(self.utxos@[j] == x);
                }
                if x == u {
                    assert(self.utxos@[old(self).utxos@.len() as int] == x);
                }
            }
            assert(self@ =~= old(self)@.insert(u));
        }
    }

    /// Removes the output with key (`txid`, `index`), and returns it, if there is one.
    pub fn remove_utxo(&mut self, txid: &[u8; 32], index: usize) -> (r: Option<UTXO>)
        requires
            old(self).wf(),
        ensures
            final(self).wf(),
            match r {
                Some(u) => old(self)@.contains(u) && key_of(u) == (*txid, index) && final(self)@
                    == old(self)@.remove(u) && u == lookup(old(self)@, (*txid, index)),
                None => !has_key(old(self)@, (*txid, index)) && final(self)@ == old(self)@,
            },
    {
        proof {
            self.lemma_keys_unique();
        }
        match self.position(txid, index) {
            Some(i) => {
                let u = self.utxos.remove(i);
                proof {
                    let old_s = old(self).utxos@;
                    assert(self.utxos@ =~= old_s.remove(i as int));
                    assert(old_s.contains(u));
                    lemma_lookup_own_key(old(self)@, u);
                    assert forall|x: UTXO| self@.contains(x) <==> old(self)@.remove(u).contains(x) by {
                        if self@.contains(x) {
                            let j = choose|j: int| 0 <= j < self.utxos@.len() && self.utxos@[j] == x;
                            let oj = if j < i { j } else { j + 1 };
                            assert(old_s[oj] == x);
                            if x == u {
                                if oj < i {
                                    assert(key_of(old_s[oj]) != key_of(old_s[i as int]));
                                } else {
                                    assert(key_of(old_s[i as int]) != key_of(old_s[oj]));
                                }
                            }
                        }
                        if old(self)@.remove(u).contains(x) {
                            let j = choose|j: int| 0 <= j < old_s.len() && old_s[j] == x;
                            assert(j != i);
                            if j < i {
                                assert(self.utxos@[j] == x);
                            } else {
                                assert(self.utxos@[j - 1] == x);
                            }
                        }
                    }
                    assert(self@ =~= old(self)@.remove(u));
                }
                Some(u)
            },
            None => {
                assert(!has_key(self@, (*txid, index))) by {
                    if has_key(self@, (*txid, index)) {
                        let u = choose|u: UTXO| self@.contains(u) && key_of(u) == (*txid, index);
                        let j = choose|j: int| 0 <= j < self.utxos@.len() && self.utxos@[j] == u;
                    }
                }
                None
            },
        }
    }

    /// The unspent outputs of the transaction `txid`.
    pub fn get_utxo_list(&self, txid: &[u8; 32]) -> (r: Vec<UTXO>)
        ensures
            r@.to_set() == self@.filter(|u: UTXO| u.txid == *txid),
    {
        let mut r: Vec<UTXO> = Vec::new();
        let mut i: usize = 0;
        while i < self.utxos.len()
            invariant
                i <= self.utxos@.len(),
                forall|x: UTXO|
                    r@.contains(x) <==> exists|j: int|
                        0 <= j < i && self.utxos@[j] == x && x.txid == *txid,
            decreases self.utxos@.len() - i,
        {
            let u = self.utxos[i];
            if bytes32_eq(&u.txid, txid) {
                let ghost prev = r@;
                r.push(u);
                proof {
                    assert(u.txid =~= *txid);
                    assert forall|x: UTXO|
                        r@.contains(x) <==> exists|j: int|
                            0 <= j < i + 1 && self.utxos@[j] == x && x.txid == *txid by {
                        assert(r@ == prev.push(u));
                        if r@.contains(x) && x != u {
                            let k = choose|k: int| 0 <= k < r@.len() && r@[k] == x;
                            assert(k < prev.len());
                            assert(prev[k] == x);
                            assert(prev.contains(x));
                        }
                        if x == u {
                            assert(self.utxos@[i as int] == x);
                        }
                        if exists|j: int| 0 <= j < i && self.utxos@[j] == x && x.txid == *txid {
                            assert(prev.contains(x));
                            let k = choose|k: int| 0 <= k < prev.len() && prev[k] == x;
                            assert(r@[k] == x);
                        }
                        if exists|j: int| 0 <= j < i + 1 && self.utxos@[j] == x && x.txid == *txid {
                            let j = choose|j: int| 0 <= j < i + 1 && self.utxos@[j] == x && x.txid == *txid;
                            if j == i {
                                assert(r@[r@.len() - 1] == x);
                            } else {
                                assert(exists|j: int| 0 <= j < i && self.utxos@[j] == x && x.txid == *txid);
                                assert(prev.contains(x));
                                let k = choose|k: int| 0 <= k < prev.len() && prev[k] == x;
                                assert(r@[k] == x);
                            }
                        }
                    }
                }
            } else {
                proof {
                    assert(u.txid != *txid) by {
                        if u.txid == *txid {
                            assert(u.txid@ == txid@);
                        }
                    }
                }
            }
            i = i + 1;
        }
        assert(r@.to_set() =~= self@.filter(|u: UTXO| u.txid == *txid));
        r
    }

    /// Whether some unspent output belongs to the transaction `txid`.
    pub fn contains_txid(&self, txid: &[u8; 32]) -> (r: bool)
        ensures
            r == has_txid(self@, *txid),
    {
        let list = self.get_utxo_list(txid);
        if list.len() > 0 {
            assert(list@.to_set().contains(list@[0]));
            assert(self@.filter(|u: UTXO| u.txid == *txid).contains(list@[0]));
            true
        } else {
            assert(!has_txid(self@, *txid)) by {
                if has_txid(self@, *txid) {
                    let u = choose|u: UTXO| self@.contains(u) && u.txid == *txid;
                    assert(self@.filter(|u: UTXO| u.txid == *txid).contains(u));
                    assert(list@.to_set().contains(u));
                }
            }
            false
        }
    }

    /// The unspent outputs paid to `address`.
    pub fn utxos_by_address(&self, address: &[u8; 32]) -> (r: Vec<UTXO>)
        requires
            self.wf(),
        ensures
            r@.to_set() == self@.filter(|u: UTXO| u.recipient_address.address == *address),
            r@.no_duplicates(),
    {
        let mut r: Vec<UTXO> = Vec::new();
        let mut i: usize = 0;
        while i < self.utxos.len()
            invariant
                self.wf(),
                i <= self.utxos@.len(),
                r@.len() <= i,
                forall|k: int| 0 <= k < r@.len() ==> exists|j: int| 0 <= j < i && self.utxos@[j] == #[trigger] r@[k],
                r@.no_duplicates(),
                forall|x: UTXO|
                    r@.contains(x) <==> exists|j: int|
                        0 <= j < i && self.utxos@[j] == x && x.recipient_address.address == *address,
            decreases self.utxos@.len() - i,
        {
            let u = self.utxos[i];
            if bytes32_eq(&u.recipient_address.address, address) {
                let ghost prev = r@;
                r.push(u);
                proof {
                    assert(u.recipient_address.address =~= *address);
                    assert(r@ == prev.push(u));
                    assert(!prev.contains(u)) by {
                        if prev.contains(u) {
                            let j = choose|j: int| 0 <= j < i && self.utxos@[j] == u && u.recipient_address.address == *address;
                            assert(key_of(self.utxos@[j]) != key_of(self.utxos@[i as int]));
                        }
                    }
                    assert forall|k: int| 0 <= k < r@.len() implies exists|j: int| 0 <= j < i + 1 && self.utxos@[j] == #[trigger] r@[k] by {
                        if k < prev.len() {
                            assert(r@[k] == prev[k]);
                        } else {
                            assert(self.utxos@[i as int] == r@[k]);
                        }
                    }
                    assert forall|x: UTXO|
                        r@.contains(x) <==> exists|j: int|
                            0 <= j < i + 1 && self.utxos@[j] == x && x.recipient_address.address == *address by {
                        if r@.contains(x) && x != u {
                            let k = choose|k: int| 0 <= k < r@.len() && r@[k] == x;
                            assert(k < prev.len());
                            assert(prev[k] == x);
                            assert(prev.contains(x));
                        }
                        if x == u {
                            assert(self.utxos@[i as int] == x);
                            assert(r@[r@.len() - 1] == x);
                        }
                        if exists|j: int| 0 <= j < i && self.utxos@[j] == x && x.recipient_address.address == *address {
                            assert(prev.contains(x));
                            let k = choose|k: int| 0 <= k < prev.len() && prev[k] == x;
                            assert(r@[k] == x);
                        }
                    }
                }
            } else {
                proof {
                    assert(u.recipient_address.address != *address) by {
                        if u.recipient_address.address == *address {
                            assert(u.recipient_address.address@ == address@);
                        }
                    }
                    assert forall|x: UTXO|
                        r@.contains(x) <==> exists|j: int|
                            0 <= j < i + 1 && self.utxos@[j] == x && x.recipient_address.address == *address by {
                        if exists|j: int| 0 <= j < i + 1 && self.utxos@[j] == x && x.recipient_address.address == *address {
                            let j = choose|j: int| 0 <= j < i + 1 && self.utxos@[j] == x && x.recipient_address.address == *address;
                            assert(j < i);
                        }
                    }
                }
            }
            i = i + 1;
        }
        assert(r@.to_set() =~= self@.filter(|u: UTXO| u.recipient_address.address == *address));
        r
    }
}

/// The sum of the amounts of a list of outputs.
pub open spec fn amounts(s: Seq<UTXO>) -> nat
    decreases s.len(),
{
    if s.len() == 0 {
        0
    } else {
        amounts(s.drop_last()) + s.last().amount as nat
    }
}

/// Sums the amounts of a list of outputs.
pub fn sum_amounts(list: &Vec<UTXO>) -> (r: u128)
    ensures
        r == amounts(list@),
{
    let mut acc: u128 = 0;
    let mut i: usize = 0;
    while i < list.len()
        invariant
            i <= list@.len(),
            acc == amounts(list@.subrange(0, i as int)),
            acc <= i * 0xffff_ffff_ffff_ffffu128,
        decreases list@.len() - i,
    {
        assert(list@.subrange(0, i + 1).drop_last() =~= list@.subrange(0, i as int));
        assert(i * 0xffff_ffff_ffff_ffffu128 + 0xffff_ffff_ffff_ffffu128 == (i + 1) * 0xffff_ffff_ffff_ffffu128) by (nonlinear_arith);
        assert((i + 1) * 0xffff_ffff_ffff_ffffu128 <= 0xffff_ffff_ffff_ffffu128 * 0xffff_ffff_ffff_ffffu128) by (nonlinear_arith)
            requires i + 1 <= 0xffff_ffff_ffff_ffffu128;
        acc = acc + list[i].amount as u128;
        i = i + 1;
    }
    assert(list@.subrange(0, i as int) =~= list@);
    acc
}

} // verus!
