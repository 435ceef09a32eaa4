use blockchain::address::P2PKHAddress;
use blockchain::block::Block;
use blockchain::blockchain::{AdmissionError, BlockChain, UndoError, MAX_BLOCKS};
use blockchain::ledger::{InvalidityReason, COINBASE_TXID};
use blockchain::parameters::Parameters;
use blockchain::utxo::{Input, Output, Transaction, TxInvalidity, UTXO};

fn params_with_reward(reward: u64) -> Parameters {
    let mut p = Parameters::default();
    p.economic_parameters.block_reward = reward;
    p
}

fn forge_and_apply(chain: &mut BlockChain, slot: u64, addr: P2PKHAddress) -> Block {
    let b = chain.forge_block(chain.mempool_transactions().clone(), slot, addr, [0u8; 32], [0u8; 96], [0u8; 32]).unwrap();
    chain.add_block(b.clone(), true).unwrap();
    b
}

fn spend(prev_txid: [u8; 32], index: usize, sk: &[u8], pk: &[u8], outputs: Vec<Output>) -> Transaction {
    let input = Input { prev_txid, output_index: index, signature: vec![], public_key: pk.to_vec() };
    let mut tx = Transaction::create_transaction(vec![input], outputs, 0);
    tx.sign_inputs(sk).unwrap();
    tx
}

fn all_utxos(chain: &BlockChain, txids: &[[u8; 32]]) -> Vec<UTXO> {
    let mut v = Vec::new();
    for t in txids {
        let mut l = chain.get_utxo_list(t);
        l.sort_by_key(|u| u.output_index);
        v.extend(l);
    }
    v
}

#[test]
fn genesis_only() {
    let chain = BlockChain::init(Parameters::default(), 300);
    assert_eq!(chain.get_height(), 0);
    assert_eq!(chain.get_last_block().header.hash, Block::genesis().header.hash);
    assert_eq!(chain.get_metadata().best_block, Block::genesis().header.hash);
    assert_eq!(chain.get_metadata().get_len(), 1);
    assert_eq!(chain.mempool_size(), 0);
}

#[test]
fn forge_and_apply_block() {
    let mut chain = BlockChain::init(Parameters::default(), 300);
    let addr = P2PKHAddress::random().0;
    let b1 = forge_and_apply(&mut chain, 1, addr);
    assert_eq!(chain.get_height(), 1);
    assert_eq!(b1.calculate_hash(), b1.header.hash);
    assert_eq!(b1.calculate_merkle_tree(), b1.header.merkle_root);
    assert_eq!(chain.get_blocks(&vec![]), vec![b1.header.hash]);
    let cb = chain.get_utxo(&COINBASE_TXID, 1).unwrap();
    assert_eq!(cb.amount, 0);
    assert_eq!(cb.recipient_address, addr);
}

#[test]
fn undo_tip() {
    let mut chain = BlockChain::init(Parameters::default(), 300);
    let addr = P2PKHAddress::random().0;
    let b1 = forge_and_apply(&mut chain, 1, addr);
    assert_eq!(chain.undo_block(&b1.header.hash), Ok(()));
    assert_eq!(chain.get_height(), 0);
    assert!(chain.get_utxo(&COINBASE_TXID, 1).is_none());
    assert_eq!(chain.get_utxo_list(&COINBASE_TXID), vec![]);
    assert_eq!(chain.get_metadata().best_block, Block::genesis().header.hash);
}

#[test]
fn undo_refuses_other_than_tip_and_genesis() {
    let mut chain = BlockChain::init(Parameters::default(), 300);
    let genesis = Block::genesis().header.hash;
    assert_eq!(chain.undo_block(&genesis), Err(UndoError::NotTip));
    let addr = P2PKHAddress::random().0;
    forge_and_apply(&mut chain, 1, addr);
    assert_eq!(chain.undo_block(&genesis), Err(UndoError::NotTip));
    assert_eq!(chain.get_height(), 1);
}

#[test]
fn reapplying_a_block_is_rejected() {
    let mut chain = BlockChain::init(Parameters::default(), 300);
    let addr = P2PKHAddress::random().0;
    let b1 = forge_and_apply(&mut chain, 1, addr);
    assert_eq!(chain.add_block(b1, true), Err(InvalidityReason::WrongContext));
    assert_eq!(chain.get_height(), 1);
}

#[test]
fn block_checks_report_their_reason() {
    let mut chain = BlockChain::init(Parameters::default(), 300);
    let addr = P2PKHAddress::random().0;
    let b = chain.forge_block(chain.mempool_transactions().clone(), 1, addr, [0u8; 32], [0u8; 96], [0u8; 32]).unwrap();
    assert_eq!(chain.check_block(&b, false), Err(InvalidityReason::InvalidVRF));
    let mut wrong_height = b.clone();
    wrong_height.header.height = 2;
    assert_eq!(chain.check_block(&wrong_height, true), Err(InvalidityReason::InvalidHeight));
    let mut wrong_hash = b.clone();
    wrong_hash.header.hash[0] ^= 1;
    assert_eq!(chain.check_block(&wrong_hash, true), Err(InvalidityReason::InvalidHash));
    let mut wrong_root = b.clone();
    wrong_root.header.merkle_root[0] ^= 1;
    assert_eq!(chain.check_block(&wrong_root, true), Err(InvalidityReason::InvalidMerkle));
    let mut wrong_coinbase = b.clone();
    wrong_coinbase.header.coinbase.output.amount = 5;
    wrong_coinbase.update_hash();
    assert_eq!(chain.check_block(&wrong_coinbase, true), Err(InvalidityReason::InvalidCoinbase));
    assert_eq!(chain.add_block(b, false), Err(InvalidityReason::InvalidVRF));
    assert_eq!(chain.get_height(), 0);
}

#[test]
fn tx_admission() {
    let mut chain = BlockChain::init(params_with_reward(100_000), 300);
    let (addr, sk, pk) = P2PKHAddress::random();
    forge_and_apply(&mut chain, 1, addr);

    let bare = Transaction::create_transaction(vec![], vec![], 31263);
    assert_eq!(
        chain.add_transaction_to_mempool(bare),
        Err(AdmissionError::InvalidTransaction(TxInvalidity::NoInputs))
    );
    assert_eq!(chain.mempool_size(), 0);

    let other = P2PKHAddress::random().0;
    let tx = spend(COINBASE_TXID, 1, &sk, &pk, vec![Output { amount: 90_000, address: other }]);
    assert_eq!(chain.check_transaction(&tx), Ok(()));
    assert_eq!(chain.add_transaction_to_mempool(tx.clone()), Ok(()));
    assert_eq!(chain.mempool_size(), 1);
    assert_eq!(chain.add_transaction_to_mempool(tx), Err(AdmissionError::AlreadyKnown));
    assert_eq!(chain.mempool_size(), 1);
}

#[test]
fn transaction_check_errors() {
    let mut chain = BlockChain::init(params_with_reward(100_000), 300);
    let (addr, sk, pk) = P2PKHAddress::random();
    forge_and_apply(&mut chain, 1, addr);
    let other = P2PKHAddress::random().0;

    let missing = spend([5u8; 32], 0, &sk, &pk, vec![Output { amount: 1, address: other }]);
    assert_eq!(chain.check_transaction(&missing), Err(TxInvalidity::MissingUtxo));

    let (_a2, sk2, pk2) = P2PKHAddress::random();
    let stolen = spend(COINBASE_TXID, 1, &sk2, &pk2, vec![Output { amount: 1, address: other }]);
    assert_eq!(chain.check_transaction(&stolen), Err(TxInvalidity::WrongOwner));

    let greedy = spend(COINBASE_TXID, 1, &sk, &pk, vec![Output { amount: 99_999, address: other }]);
    assert_eq!(chain.check_transaction(&greedy), Err(TxInvalidity::InsufficientFee));

    let zero = spend(COINBASE_TXID, 1, &sk, &pk, vec![Output { amount: 0, address: other }]);
    assert_eq!(chain.check_transaction(&zero), Err(TxInvalidity::ZeroAmount));

    let mut bad_sig = spend(COINBASE_TXID, 1, &sk, &pk, vec![Output { amount: 1, address: other }]);
    bad_sig.input_list[0].signature[0] ^= 1;
    assert_eq!(chain.check_transaction(&bad_sig), Err(TxInvalidity::InvalidSignature));

    let mut bad_id = spend(COINBASE_TXID, 1, &sk, &pk, vec![Output { amount: 1, address: other }]);
    bad_id.id[0] ^= 1;
    assert_eq!(chain.check_transaction(&bad_id), Err(TxInvalidity::InvalidId));

    let input = Input { prev_txid: COINBASE_TXID, output_index: 1, signature: vec![], public_key: pk.clone() };
    let mut dup = Transaction::create_transaction(vec![input.clone(), input], vec![Output { amount: 1, address: other }], 0);
    dup.sign_inputs(&sk).unwrap();
    assert_eq!(chain.check_transaction(&dup), Err(TxInvalidity::DuplicateInput));

    let big_input = Input { prev_txid: COINBASE_TXID, output_index: 1, signature: vec![], public_key: vec![0u8; 2000] };
    let big = Transaction::create_transaction(vec![big_input], vec![], 0);
    assert_eq!(chain.check_transaction(&big), Err(TxInvalidity::TooLarge));

    let many = Transaction::create_transaction(vec![], vec![Output { amount: 1, address: other }; 129], 0);
    assert_eq!(chain.check_transaction(&many), Err(TxInvalidity::TooManyEntries));
}

#[test]
fn spend_apply_undo_round_trip() {
    let mut chain = BlockChain::init(params_with_reward(100_000), 300);
    let (addr, sk, pk) = P2PKHAddress::random();
    forge_and_apply(&mut chain, 1, addr);
    let other = P2PKHAddress::random().0;
    let tx = spend(COINBASE_TXID, 1, &sk, &pk, vec![
        Output { amount: 60_000, address: other },
        Output { amount: 30_000, address: addr },
    ]);
    let fee = 100_000 - 90_000;
    chain.add_transaction_to_mempool(tx.clone()).unwrap();

    let before_meta = chain.get_metadata();
    let before = all_utxos(&chain, &[COINBASE_TXID, tx.id]);

    let b2 = forge_and_apply(&mut chain, 2, addr);
    assert_eq!(chain.get_height(), 2);
    assert_eq!(b2.transactions.len(), 1);
    assert_eq!(chain.mempool_size(), 0);
    assert!(chain.get_utxo(&COINBASE_TXID, 1).is_none());
    assert_eq!(chain.get_utxo(&tx.id, 0).unwrap().amount, 60_000);
    assert_eq!(chain.get_utxo(&tx.id, 1).unwrap().amount, 30_000);
    // the coinbase collects the reward and the fee
    assert_eq!(chain.get_utxo(&COINBASE_TXID, 2).unwrap().amount, 100_000 + fee);

    chain.undo_block(&b2.header.hash).unwrap();
    assert_eq!(chain.get_metadata(), before_meta);
    assert_eq!(all_utxos(&chain, &[COINBASE_TXID, tx.id]), before);
    assert_eq!(chain.get_utxo(&COINBASE_TXID, 1).unwrap().amount, 100_000);
}

#[test]
fn double_spend_within_block_is_rejected() {
    let mut chain = BlockChain::init(params_with_reward(100_000), 300);
    let (addr, sk, pk) = P2PKHAddress::random();
    forge_and_apply(&mut chain, 1, addr);
    let other = P2PKHAddress::random().0;
    let t1 = spend(COINBASE_TXID, 1, &sk, &pk, vec![Output { amount: 50_000, address: other }]);
    let t2 = spend(COINBASE_TXID, 1, &sk, &pk, vec![Output { amount: 40_000, address: other }]);
    let tip = chain.get_last_block().header.hash;
    let coinbase = blockchain::utxo::CoinbaseTransaction::create(addr, 100_000);
    let b = Block::new(2, vec![t1.clone(), t2.clone()], tip, coinbase, 2, addr);
    assert_eq!(chain.add_block(b, true), Err(InvalidityReason::DoubleSpendWithinBlock));

    // the forger takes only one of two clashing transactions
    chain.add_transaction_to_mempool(t1).unwrap();
    chain.add_transaction_to_mempool(t2).unwrap();
    let b = forge_and_apply(&mut chain, 2, addr);
    assert_eq!(b.transactions.len(), 1);
}

#[test]
fn locator_returns_suffix_after_common_point() {
    let mut chain = BlockChain::init(Parameters::default(), 300);
    let addr = P2PKHAddress::random().0;
    let mut hashes = vec![Block::genesis().header.hash];
    for slot in 1..=5u64 {
        hashes.push(forge_and_apply(&mut chain, slot, addr).header.hash);
    }
    assert_eq!(chain.get_blocks(&vec![hashes[2]]), hashes[3..].to_vec());
    assert_eq!(chain.get_blocks(&vec![[1u8; 32], hashes[4], hashes[1]]), hashes[5..].to_vec());
    assert_eq!(chain.get_blocks(&vec![hashes[5]]), Vec::<[u8; 32]>::new());
    assert_eq!(chain.get_blocks(&vec![[1u8; 32]]), hashes[1..].to_vec());
    let headers = chain.get_headers(&vec![hashes[3]]);
    assert_eq!(headers.len(), 2);
    assert_eq!(headers[0].hash, hashes[4]);
    let locator = chain.build_locator();
    assert_eq!(locator[0], hashes[5]);
    assert_eq!(*locator.last().unwrap(), hashes[0]);
    assert_eq!(locator, vec![hashes[5], hashes[4], hashes[3], hashes[1], hashes[0]]);
    assert_eq!(chain.get_data(&vec![hashes[2], [1u8; 32]]), vec![Some(2), None]);
}

#[test]
fn locator_caps_at_max_blocks() {
    let mut chain = BlockChain::init(Parameters::default(), 300);
    let addr = P2PKHAddress::random().0;
    for slot in 1..=(MAX_BLOCKS as u64 + 3) {
        forge_and_apply(&mut chain, slot, addr);
    }
    let r = chain.get_blocks(&vec![]);
    assert_eq!(r.len(), MAX_BLOCKS);
    assert_eq!(r[0], chain.get_block_at(1).unwrap().header.hash);
}

#[test]
fn catch_up() {
    let mut a = BlockChain::init(Parameters::default(), 300);
    let addr = P2PKHAddress::random().0;
    for slot in 1..=100u64 {
        forge_and_apply(&mut a, slot, addr);
    }
    let mut b = BlockChain::init(Parameters::default(), 300);
    loop {
        let headers = a.get_headers(&b.build_locator());
        if headers.is_empty() {
            break;
        }
        let hashes: Vec<[u8; 32]> = headers.iter().map(|h| h.hash).collect();
        for h in a.get_data(&hashes) {
            let block = a.get_block_at(h.unwrap()).unwrap().clone();
            b.add_block(block, true).unwrap();
        }
    }
    assert_eq!(b.get_height(), 100);
    for h in 0..=100usize {
        assert_eq!(b.get_block_at(h).unwrap(), a.get_block_at(h).unwrap());
    }
}

#[test]
fn context_free_and_contextual_validity() {
    let mut chain = BlockChain::init(params_with_reward(100_000), 300);
    let (addr, sk, pk) = P2PKHAddress::random();
    let b1 = forge_and_apply(&mut chain, 1, addr);
    assert!(b1.is_correct(1024));
    let mut broken = b1.clone();
    broken.header.hash[5] ^= 1;
    assert!(!broken.is_correct(1024));
    let other = P2PKHAddress::random().0;
    let tx = spend(COINBASE_TXID, 1, &sk, &pk, vec![Output { amount: 50_000, address: other }]);
    assert!(tx.is_valid(&chain));
    assert!(tx.is_valid_heuristic(1024));
    assert!(!tx.is_valid_heuristic(100));
    let next = chain.forge_block(chain.mempool_transactions().clone(), 2, addr, [0u8; 32], [0u8; 96], [0u8; 32]).unwrap();
    assert!(chain.is_block_valid(&next, true));
    assert!(!chain.is_block_valid(&next, false));
    assert!(!chain.is_block_valid(&b1, true));
}

#[test]
fn balances_and_address_queries() {
    let mut chain = BlockChain::init(params_with_reward(100_000), 300);
    let (addr, sk, pk) = P2PKHAddress::random();
    let other = P2PKHAddress::random().0;
    assert_eq!(chain.get_balance(&addr.address), 0);
    forge_and_apply(&mut chain, 1, addr);
    assert_eq!(chain.get_balance(&addr.address), 100_000);
    let tx = spend(COINBASE_TXID, 1, &sk, &pk, vec![
        Output { amount: 60_000, address: other },
        Output { amount: 30_000, address: addr },
    ]);
    chain.add_transaction_to_mempool(tx).unwrap();
    forge_and_apply(&mut chain, 2, other);
    assert_eq!(chain.get_balance(&addr.address), 30_000);
    assert_eq!(chain.get_balance(&other.address), 60_000 + 110_000);
    assert_eq!(chain.utxos_by_address(&other.address).len(), 2);
}

#[test]
fn transaction_spending_nothing_is_refused_without_fee_floor() {
    let mut p = params_with_reward(100_000);
    p.economic_parameters.fee_per_tx_byte = 0;
    let mut chain = BlockChain::init(p, 300);
    let empty = Transaction::create_transaction(vec![], vec![], 0);
    assert_eq!(
        chain.add_transaction_to_mempool(empty),
        Err(AdmissionError::InvalidTransaction(TxInvalidity::NoInputs))
    );
    assert_eq!(chain.mempool_size(), 0);
}
