use vstd::prelude::*;

use crate::block::Block;
use crate::blockchain::{applied, BlockChain, ChainView};
use crate::ledger::block_check;
use crate::lottery::lottery_ok;

verus! {

/// What a peer told the node during catch-up.
pub enum SyncEvent {
    /// The peer's height, from its blockchain info.
    PeerInfo(usize),
    /// The hashes the peer has after the node's locator.
    Inv(Vec<[u8; 32]>),
    /// The blocks that those hashes name, in height order.
    Blocks(Vec<Block>),
}

/// What the node asks of the peer next.
#[derive(Debug)]
pub enum SyncAction {
    /// Nothing: the peer is not ahead, has nothing more, or sent a bad block.
    Idle,
    /// Ask for the hashes after this locator.
    RequestBlocks(Vec<[u8; 32]>),
    /// Ask for the blocks with these hashes.
    RequestData(Vec<[u8; 32]>),
}

/// `w` is `v` with `b` applied.
#[verifier::opaque]
pub open spec fn step_applied(v: ChainView, b: Block, w: ChainView) -> bool {
    applied(v, b, w)
}

/// `b` fails its lottery and block check in `v`.
#[verifier::opaque]
pub open spec fn step_refused(v: ChainView, b: Block, eta: Seq<u8>, threshold: Seq<u8>) -> bool {
    block_check(v.utxos, v.blocks.last(), b, v.params, lottery_ok(b, eta, threshold)) is Err
}

/// `vs` is the run of states through which the first `k` of `blocks` were
/// applied to `v`, each by its lottery and block check; where `k` falls short
/// of all of them, block `k` fails its check in the last state.
pub open spec fn sync_trace(
    v: ChainView,
    blocks: Seq<Block>,
    eta: Seq<u8>,
    threshold: Seq<u8>,
    vs: Seq<ChainView>,
    k: int,
) -> bool {
    &&& 0 <= k <= blocks.len()
    &&& vs.len() == k + 1
    &&& vs[0] == v
    &&& forall|j: int| 0 <= j < k ==> step_applied(#[trigger] vs[j], blocks[j], vs[j + 1])
    &&& k < blocks.len() ==> step_refused(vs[k], blocks[k], eta, threshold)
}

impl BlockChain {
    /// Applies one block with its lottery check; on failure nothing changes.
    fn apply_one(&mut self, b: Block, last_epoch_hash: &[u8; 32], threshold: &[u8; 32]) -> (r: bool)
        requires
            old(self).wf(),
        ensures
            final(self).wf(),
            r ==> step_applied(old(self)@, b, final(self)@),
            !r ==> final(self)@ == old(self)@ && step_refused(old(self)@, b, last_epoch_hash@, threshold@),
    {
        proof {
            reveal(step_applied);
            reveal(step_refused);
        }
        self.apply_block(b, last_epoch_hash, threshold).is_ok()
    }

    /// One step of catch-up with a peer. A peer that is not higher leaves the
    /// node idle; a higher one is asked for the hashes after the node's
    /// locator; a non-empty inventory is asked for in full; received blocks
    /// are applied in order up to the first that fails its checks, and the
    /// walk goes on only when all of them applied.
    #[verifier::rlimit(100)]
    #[verifier::spinoff_prover]
    pub fn sync_step(&mut self, ev: SyncEvent, last_epoch_hash: &[u8; 32], threshold: &[u8; 32]) -> (r:
        SyncAction)
        requires
            old(self).wf(),
        ensures
            final(self).wf(),
            match ev {
                SyncEvent::PeerInfo(h) => final(self)@ == old(self)@ && if h < old(self)@.blocks.len() {
                    r is Idle
                } else {
                    r is RequestBlocks && (r->RequestBlocks_0)@[0] == old(self)@.blocks.last().header.hash
                        && (r->RequestBlocks_0)@.last() == old(self)@.blocks[0].header.hash
                },
                SyncEvent::Inv(hashes) => final(self)@ == old(self)@ && if hashes@.len() == 0 {
                    r is Idle
                } else {
                    r == SyncAction::RequestData(hashes)
                },
                SyncEvent::Blocks(blocks) => exists|vs: Seq<ChainView>, k: int|
                    #[trigger] sync_trace(old(self)@, blocks@, last_epoch_hash@, threshold@, vs, k)
                        && final(self)@ == vs[k] && ((k == blocks@.len() && k > 0) <==> r is RequestBlocks),
            },
    {
        match ev {
            SyncEvent::PeerInfo(h) => {
                if h <= self.get_height() {
                    SyncAction::Idle
                } else {
                    SyncAction::RequestBlocks(self.build_locator())
                }
            },
            SyncEvent::Inv(hashes) => {
                if hashes.len() == 0 {
                    SyncAction::Idle
                } else {
                    SyncAction::RequestData(hashes)
                }
            },
            SyncEvent::Blocks(blocks) => {
                let ghost orig = blocks@;
                let n = blocks.len();
                let mut rest = blocks;
                let ghost mut vs: Seq<ChainView> = seq![self@];
                let mut i: usize = 0;
                let mut failed = false;
                while i < n && !failed
                    invariant
                        self.wf(),
                        n == orig.len(),
                        i <= n,
                        !failed ==> rest@ == orig.subrange(i as int, n as int),
                        vs.len() == i + 1,
                        vs[0] == old(self)@,
                        vs[i as int] == self@,
                        forall|j: int| 0 <= j < i ==> step_applied(#[trigger] vs[j], orig[j], vs[j + 1]),
                        failed ==> i < n && step_refused(vs[i as int], orig[i as int], last_epoch_hash@, threshold@),
                    decreases n - i + (if failed { 0int } else { 1int }),
                {
                    let b = rest.remove(0);
                    assert(b == orig[i as int]);
                    if self.apply_one(b, last_epoch_hash, threshold) {
                        proof {
                            let nvs = vs.push(self@);
                            assert forall|j: int| 0 <= j < i + 1 implies step_applied(#[trigger] nvs[j], orig[j], nvs[j + 1]) by {
                                if j < i {
                                    assert(nvs[j] == vs[j] && nvs[j + 1] == vs[j + 1]);
                                }
                            }
                            vs = nvs;
                        }
                        assert(rest@ =~= orig.subrange(i + 1, n as int));
                        i = i + 1;
                    } else {
                        failed = true;
                    }
                }
                proof {
                    assert(sync_trace(old(self)@, orig, last_epoch_hash@, threshold@, vs, i as int));
                    assert(failed <==> i < n);
                }
                if !failed && n > 0 {
                    SyncAction::RequestBlocks(self.build_locator())
                } else {
                    SyncAction::Idle
                }
            },
        }
    }
}

/// Two states agree on what the checks of a block read: the blocks, the
/// unspent set and the parameters.
pub open spec fn same_ledger(a: ChainView, b: ChainView) -> bool {
    a.blocks == b.blocks && a.utxos == b.utxos && a.params == b.params
}

proof fn lemma_catch_up_prefix(
    v: ChainView,
    blocks: Seq<Block>,
    eta: Seq<u8>,
    threshold: Seq<u8>,
    ws: Seq<ChainView>,
    vs: Seq<ChainView>,
    k: int,
    j: int,
)
    requires
        ws.len() == blocks.len() + 1,
        same_ledger(v, ws[0]),
        forall|i: int| 0 <= i < blocks.len() ==> applied(#[trigger] ws[i], blocks[i], ws[i + 1]),
        sync_trace(v, blocks, eta, threshold, vs, k),
        0 <= j <= k,
    ensures
        same_ledger(vs[j], ws[j]),
    decreases j,
{
    reveal(step_applied);
    if j > 0 {
        lemma_catch_up_prefix(v, blocks, eta, threshold, ws, vs, k, j - 1);
        assert(step_applied(vs[j - 1], blocks[j - 1], vs[j]));
        assert(applied(ws[j - 1], blocks[j - 1], ws[j]));
    }
}

/// Catching up with blocks that passed their checks on a peer whose ledger
/// started as the node's own applies every one of them and ends with the
/// peer's ledger: `ws` is the peer's run of states through `blocks`.
pub proof fn law_catch_up(
    v: ChainView,
    blocks: Seq<Block>,
    eta: Seq<u8>,
    threshold: Seq<u8>,
    ws: Seq<ChainView>,
    vs: Seq<ChainView>,
    k: int,
)
    requires
        ws.len() == blocks.len() + 1,
        same_ledger(v, ws[0]),
        forall|j: int|
            0 <= j < blocks.len() ==> block_check(
                (#[trigger] ws[j]).utxos,
                ws[j].blocks.last(),
                blocks[j],
                ws[j].params,
                lottery_ok(blocks[j], eta, threshold),
            ) is Ok && applied(ws[j], blocks[j], ws[j + 1]),
        sync_trace(v, blocks, eta, threshold, vs, k),
    ensures
        k == blocks.len(),
        same_ledger(vs[k], ws[k]),
{
    reveal(step_applied);
    reveal(step_refused);
    lemma_catch_up_prefix(v, blocks, eta, threshold, ws, vs, k, k);
    if k < blocks.len() {
        assert(step_refused(vs[k], blocks[k], eta, threshold));
        assert(block_check(ws[k].utxos, ws[k].blocks.last(), blocks[k], ws[k].params, lottery_ok(blocks[k], eta, threshold)) is Ok);
    }
}

} // verus!
