use vstd::prelude::*;

use crate::block::Block;
use crate::vrf::{
    is_ristretto_encoding, output, prove, verify, vrf_draw, vrf_verifies_encoded, VrfPk, VrfProof, VrfSk,
};

verus! {

/// The eight big-endian bytes of a slot number.
pub open spec fn be64(n: u64) -> Seq<u8> {
    Seq::new(8, |i: int| ((n >> ((56 - 8 * i) as u64)) & 0xff) as u8)
}

/// `a` is below `b` as big-endian numbers of the same width: at the first
/// byte where they differ, `a`'s byte is the smaller.
pub open spec fn be_less(a: Seq<u8>, b: Seq<u8>) -> bool {
    exists|i: int|
        0 <= i < a.len() && i < b.len() && a.subrange(0, i) == b.subrange(0, i) && #[trigger] a[i] < b[i]
}

/// The slot lottery: a VRF draw per slot, won below a stake-derived threshold.
pub struct Lottery;

impl Lottery {
    /// The VRF input of a slot: the epoch hash, then the slot in big-endian.
    pub fn lottery_input(current_slot: u64, last_epoch_hash: &[u8; 32]) -> (r: Vec<u8>)
        ensures
            r@ == last_epoch_hash@ + be64(current_slot),
    {
        let mut input: Vec<u8> = Vec::new();
        input.extend_from_slice(last_epoch_hash);
        let mut i: usize = 0;
        while i < 8
            invariant
                i <= 8,
                input@ == last_epoch_hash@ + be64(current_slot).subrange(0, i as int),
            decreases 8 - i,
        {
            let shift: u64 = (56 - 8 * i) as u64;
            let byte = ((current_slot >> shift) & 0xff) as u8;
            input.push(byte);
            assert(be64(current_slot).subrange(0, i + 1) =~= be64(current_slot).subrange(0, i as int).push(
                byte,
            ));
            i = i + 1;
        }
        assert(be64(current_slot).subrange(0, 8) =~= be64(current_slot));
        input
    }

    /// Whether a draw wins: it is below the threshold as a 256-bit
    /// big-endian number.
    pub fn is_win(lottery_number: &[u8; 32], threshold: &[u8; 32]) -> (r: bool)
        ensures
            r == be_less(lottery_number@, threshold@),
    {
        let mut i: usize = 0;
        while i < 32
            invariant
                i <= 32,
                lottery_number@.subrange(0, i as int) == threshold@.subrange(0, i as int),
            decreases 32 - i,
        {
            if lottery_number[i] < threshold[i] {
                assert(lottery_number@[i as int] < threshold@[i as int]);
                return true;
            }
            if lottery_number[i] > threshold[i] {
                assert(!be_less(lottery_number@, threshold@)) by {
                    if be_less(lottery_number@, threshold@) {
                        let j = choose|j: int|
                            0 <= j < 32 && lottery_number@.subrange(0, j) == threshold@.subrange(0, j)
                                && #[trigger] lottery_number@[j] < threshold@[j];
                        if j < i {
                            assert(lottery_number@.subrange(0, i as int)[j] == threshold@.subrange(0, i as int)[j]);
                        } else if j > i {
                            assert(lottery_number@.subrange(0, j)[i as int] == threshold@.subrange(0, j)[i as int]);
                        }
                    }
                }
                return false;
            }
            assert(lottery_number@.subrange(0, i + 1) =~= lottery_number@.subrange(0, i as int).push(
                lottery_number@[i as int],
            ));
            assert(threshold@.subrange(0, i + 1) =~= threshold@.subrange(0, i as int).push(
                threshold@[i as int],
            ));
            i = i + 1;
        }
        assert(!be_less(lottery_number@, threshold@)) by {
            if be_less(lottery_number@, threshold@) {
                let j = choose|j: int|
                    0 <= j < 32 && lottery_number@.subrange(0, j) == threshold@.subrange(0, j)
                        && #[trigger] lottery_number@[j] < threshold@[j];
                assert(lottery_number@.subrange(0, 32)[j] == threshold@.subrange(0, 32)[j]);
            }
        }
        false
    }

    /// Runs the lottery of a slot: the VRF draw on the slot's input wins
    /// where it is below `threshold`, and is then returned with its proof;
    /// the proof is made only for a winning draw.
    pub fn run_lottery(
        current_slot: u64,
        last_epoch_hash: &[u8; 32],
        proving_key: &VrfSk,
        threshold: &[u8; 32],
    ) -> (r: Option<([u8; 32], VrfProof)>)
        requires
            proving_key.wf(),
        ensures
            r is Some <==> be_less(
                vrf_draw(proving_key.bytes(), last_epoch_hash@ + be64(current_slot)),
                threshold@,
            ),
            r is Some ==> (r->0).0@ == vrf_draw(proving_key.bytes(), last_epoch_hash@ + be64(current_slot)),
            r is Some ==> (r->0).1.wf(),
    {
        let input = Lottery::lottery_input(current_slot, last_epoch_hash);
        let draw = output(input.as_slice(), proving_key);
        if !Lottery::is_win(&draw, threshold) {
            return None;
        }
        let (lottery_number, proof) = prove(input.as_slice(), proving_key);
        Some((lottery_number, proof))
    }

    /// Whether `proof` decodes and shows that `vrf` is the draw of the slot
    /// under `public_key`.
    pub fn verify_vrf_lottery(
        current_slot: u64,
        last_epoch_hash: &[u8; 32],
        vrf: &[u8; 32],
        proof: &[u8; 96],
        public_key: &VrfPk,
    ) -> (r: bool)
        requires
            public_key.wf(),
        ensures
            r == vrf_verifies_encoded(public_key.bytes(), last_epoch_hash@ + be64(current_slot), vrf@, proof@),
    {
        let input = Lottery::lottery_input(current_slot, last_epoch_hash);
        match VrfProof::from_bytes(proof) {
            Ok(p) => verify(input.as_slice(), public_key, vrf, &p),
            Err(_) => false,
        }
    }

    /// The lottery check of a block: its forger key decodes, its draw wins
    /// against `threshold`, and its proof shows the draw for its slot.
    pub fn check_block_lottery(block: &Block, last_epoch_hash: &[u8; 32], threshold: &[u8; 32]) -> (r:
        bool)
        ensures
            r == lottery_ok(*block, last_epoch_hash@, threshold@),
    {
        let pk = match VrfPk::from_bytes(&block.header.forger_vrf_pk) {
            Ok(pk) => pk,
            Err(_) => {
                return false;
            },
        };
        Lottery::is_win(&block.header.vrf_value, threshold) && Lottery::verify_vrf_lottery(
            block.header.slot,
            last_epoch_hash,
            &block.header.vrf_value,
            &block.header.vrf_proof,
            &pk,
        )
    }
}

/// The lottery check of a block against the epoch hash `eta` and `threshold`.
pub open spec fn lottery_ok(block: Block, eta: Seq<u8>, threshold: Seq<u8>) -> bool {
    &&& is_ristretto_encoding(block.header.forger_vrf_pk@)
    &&& be_less(block.header.vrf_value@, threshold)
    &&& vrf_verifies_encoded(
        block.header.forger_vrf_pk@,
        eta + be64(block.header.slot),
        block.header.vrf_value@,
        block.header.vrf_proof@,
    )
}

} // verus!
