use blockchain::mempool::{Mempool, MempoolError};
use blockchain::address::P2PKHAddress;
use blockchain::utxo::{Output, Transaction};

fn tx(amount: u64) -> Transaction {
    Transaction::create_transaction(vec![], vec![Output { amount, address: P2PKHAddress::null() }], 0)
}

#[test]
fn mempool_bound() {
    let mut pool = Mempool::new(1, 1048576);
    assert_eq!(pool.max_length(), 1);
    let t1 = tx(1);
    let t2 = tx(2);
    assert_eq!(pool.insert(t1.clone()), Ok(true));
    assert_eq!(pool.insert(t2), Err(MempoolError::MempoolFull));
    assert_eq!(pool.len(), 1);
    assert_eq!(pool.get_map()[0], t1);
}

#[test]
fn mempool_capacity_formula() {
    assert_eq!(Mempool::new(300, 1024).max_length(), 300 * 1048576 / 1024);
    assert_eq!(Mempool::new(0, 1024).max_length(), 0);
    assert_eq!(Mempool::new(usize::MAX, 1).max_length(), usize::MAX);
}

#[test]
fn mempool_remove_and_duplicates() {
    let mut pool = Mempool::new(1, 1024);
    let t1 = tx(1);
    let t2 = tx(2);
    assert_eq!(pool.insert(t1.clone()), Ok(true));
    assert_eq!(pool.insert(t1.clone()), Ok(false));
    assert_eq!(pool.insert(t2.clone()), Ok(true));
    assert!(pool.contains_id(&t1.id));
    pool.remove(&t1.id);
    assert!(!pool.contains_id(&t1.id));
    assert_eq!(pool.len(), 1);
    assert_eq!(pool.get_map()[0], t2);
}
