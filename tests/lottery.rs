use std::hint::black_box;

use blockchain::address::P2PKHAddress;
use blockchain::blockchain::BlockChain;
use blockchain::lottery::Lottery;
use blockchain::parameters::Parameters;
use blockchain::sync::{SyncAction, SyncEvent};
use blockchain::vrf::keygen;

/// The threshold `floor(2^256 * p)` as 32 big-endian bytes.
fn threshold_of(p: f64) -> [u8; 32] {
    let mut bytes = [0u8; 32];
    let mut x = p;
    for b in bytes.iter_mut() {
        x *= 256.0;
        let d = x.floor();
        *b = d as u8;
        x -= d;
    }
    bytes
}

fn win_probability(stake: f64, total: f64, f: f64) -> f64 {
    1.0 - (1.0 - f).powf(stake / total)
}

#[test]
fn lottery_test() {
    let (sk, _pk) = keygen();

    const NODE_STAKE: u64 = 2u64.pow(5);
    const TOTAL_STAKE: u64 = 2u64.pow(10);
    const ACTIVE_SLOT_COEFFICIENT: f32 = 0.5;
    const ITERATIONS: u64 = 1000;
    let threshold = threshold_of(win_probability(
        NODE_STAKE as f64,
        TOTAL_STAKE as f64,
        ACTIVE_SLOT_COEFFICIENT as f64,
    ));

    for slot in 0..ITERATIONS {
        let lottery = Lottery::run_lottery(slot, &[0u8; 32], &sk, &threshold);
        black_box(lottery);
    }
}

#[test]
fn lottery_input_is_epoch_hash_then_big_endian_slot() {
    let input = Lottery::lottery_input(0x0102030405060708, &[9u8; 32]);
    let mut expected = vec![9u8; 32];
    expected.extend_from_slice(&[1, 2, 3, 4, 5, 6, 7, 8]);
    assert_eq!(input, expected);
}

#[test]
fn is_win_compares_big_endian() {
    let mut low = [0u8; 32];
    low[31] = 5;
    let mut high = [0u8; 32];
    high[0] = 1;
    assert!(Lottery::is_win(&low, &high));
    assert!(!Lottery::is_win(&high, &low));
    assert!(!Lottery::is_win(&high, &high));
}

#[test]
fn full_stake_wins_often_and_proofs_check() {
    let (sk, pk) = keygen();
    let threshold = threshold_of(win_probability(1.0, 1.0, 0.9999));
    let mut wins = 0;
    for slot in 0..50u64 {
        if let Some((y, proof)) = Lottery::run_lottery(slot, &[3u8; 32], &sk, &threshold) {
            wins += 1;
            assert!(Lottery::is_win(&y, &threshold));
            assert!(Lottery::verify_vrf_lottery(slot, &[3u8; 32], &y, &proof.to_bytes(), &pk));
            assert!(!Lottery::verify_vrf_lottery(slot + 1, &[3u8; 32], &y, &proof.to_bytes(), &pk));
        }
    }
    assert!(wins >= 40);
}

#[test]
fn zero_threshold_never_wins() {
    let (sk, _pk) = keygen();
    for slot in 0..20u64 {
        assert!(Lottery::run_lottery(slot, &[0u8; 32], &sk, &[0u8; 32]).is_none());
    }
}

#[test]
fn lottery_bias() {
    let (sk, _pk) = keygen();
    let p = win_probability(1.0, 2.0, 0.5);
    let threshold = threshold_of(p);
    let n = 100u64;
    let mut wins = 0u64;
    for slot in 0..n {
        if Lottery::run_lottery(slot, &[7u8; 32], &sk, &threshold).is_some() {
            wins += 1;
        }
    }
    // p is about 0.29; the count stays within four standard deviations
    let expected = p * n as f64;
    let sd = (n as f64 * p * (1.0 - p)).sqrt();
    assert!((wins as f64 - expected).abs() <= 4.0 * sd);
}

#[test]
fn forge_and_apply_with_lottery() {
    let (sk, pk) = keygen();
    let threshold = threshold_of(win_probability(1.0, 1.0, 0.9999));
    let mut chain = BlockChain::init(Parameters::default(), 300);
    let addr = P2PKHAddress::random().0;
    let mut forged = None;
    for slot in 1..=5u64 {
        if let Some((y, proof)) = Lottery::run_lottery(slot, &[0u8; 32], &sk, &threshold) {
            let b = chain.forge_block(chain.mempool_transactions().clone(), slot, addr, y, proof.to_bytes(), pk.to_bytes()).unwrap();
            assert_eq!(chain.apply_block(b.clone(), &[0u8; 32], &threshold), Ok(()));
            forged = Some(b);
            break;
        }
    }
    let b1 = forged.expect("no slot won in five");
    assert_eq!(chain.get_height(), 1);
    assert_eq!(chain.get_blocks(&vec![]), vec![b1.header.hash]);

    // the same block with a draw that does not win is refused
    let mut chain2 = BlockChain::init(Parameters::default(), 300);
    assert_eq!(
        chain2.apply_block(b1.clone(), &[0u8; 32], &[0u8; 32]),
        Err(blockchain::ledger::InvalidityReason::InvalidVRF)
    );
    // and so is one whose proof is for another epoch hash
    assert_eq!(
        chain2.apply_block(b1, &[1u8; 32], &threshold),
        Err(blockchain::ledger::InvalidityReason::InvalidVRF)
    );
    assert_eq!(chain2.get_height(), 0);
}

#[test]
fn sync_steps_catch_up_with_a_peer() {
    let (sk, pk) = keygen();
    let threshold = threshold_of(win_probability(1.0, 1.0, 0.9999));
    let eta = [0u8; 32];
    let addr = P2PKHAddress::random().0;
    let mut a = BlockChain::init(Parameters::default(), 300);
    let mut slot = 0u64;
    while a.get_height() < 6 {
        slot += 1;
        if let Some((y, proof)) = Lottery::run_lottery(slot, &eta, &sk, &threshold) {
            let b = a.forge_block(a.mempool_transactions().clone(), slot, addr, y, proof.to_bytes(), pk.to_bytes()).unwrap();
            a.apply_block(b, &eta, &threshold).unwrap();
        }
    }
    let mut b = BlockChain::init(Parameters::default(), 300);
    assert!(matches!(b.sync_step(SyncEvent::PeerInfo(0), &eta, &threshold), SyncAction::Idle));
    let mut action = b.sync_step(SyncEvent::PeerInfo(a.get_height()), &eta, &threshold);
    let mut locator = Vec::new();
    loop {
        action = match action {
            SyncAction::Idle => break,
            SyncAction::RequestBlocks(l) => {
                locator = l;
                b.sync_step(SyncEvent::Inv(a.get_blocks(&locator)), &eta, &threshold)
            }
            SyncAction::RequestData(hashes) => {
                let blocks = a
                    .get_data(&hashes)
                    .into_iter()
                    .map(|h| a.get_block_at(h.unwrap()).unwrap().clone())
                    .collect();
                b.sync_step(SyncEvent::Blocks(blocks), &eta, &threshold)
            }
        };
    }
    assert!(!locator.is_empty());
    assert_eq!(b.get_height(), 6);
    for h in 0..=6usize {
        assert_eq!(b.get_block_at(h).unwrap(), a.get_block_at(h).unwrap());
    }
    // a block whose draw does not win stops the walk and changes nothing
    let mut c = BlockChain::init(Parameters::default(), 300);
    let blocks = vec![a.get_block_at(1).unwrap().clone()];
    assert!(matches!(c.sync_step(SyncEvent::Blocks(blocks), &eta, &[0u8; 32]), SyncAction::Idle));
    assert_eq!(c.get_height(), 0);
}

#[test]
fn vrf_checks_are_exact() {
    let (sk, pk) = keygen();
    let input = Lottery::lottery_input(4, &[2u8; 32]);
    let (y, proof) = blockchain::vrf::prove(&input, &sk);
    assert_eq!(blockchain::vrf::output(&input, &sk), y);
    assert!(Lottery::verify_vrf_lottery(4, &[2u8; 32], &y, &proof.to_bytes(), &pk));
    let mut bad = proof.to_bytes();
    bad[40] ^= 1;
    assert!(!Lottery::verify_vrf_lottery(4, &[2u8; 32], &y, &bad, &pk));
}
