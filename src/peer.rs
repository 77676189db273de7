use vstd::prelude::*;
use crate::chain::{append_outcome, blocks_model, ChainModel, NodeDatabase};
use crate::types::{Block, BlockModel};
use crate::BLOCK_SUBSIDY;

verus! {

/// Peer endpoints and the pause between two sync cycles.
#[derive(Debug, Clone)]
pub struct Peer {
    pub peer_addresses: Vec<String>,
    pub peer_sync_ms: u64,
}

/// Blocks a peer holds beyond the local tip: positions `next ..= last index`
/// of the peer's list, or none when the peer is not ahead or its list is short.
pub open spec fn new_blocks_slice(next: int, peer: Seq<BlockModel>) -> Seq<BlockModel> {
    if peer.len() == 0 || peer.last().index < next || peer.last().index >= peer.len() {
        seq![]
    } else {
        peer.subrange(next, peer.last().index + 1)
    }
}

/// Whether the sum of balances leaves room for one more subsidy.
pub open spec fn can_grow(c: ChainModel) -> bool {
    c.blocks.len() * BLOCK_SUBSIDY <= u64::MAX
}

/// State after appending `bs` in order, stopping at the first refused block.
#[verifier::opaque]
pub open spec fn import_blocks(c: ChainModel, bs: Seq<BlockModel>) -> ChainModel
    decreases bs.len(),
{
    if bs.len() == 0 || !can_grow(c) {
        c
    } else {
        match append_outcome(c, bs[0]) {
            Ok(c2) => import_blocks(c2, bs.drop_first()),
            Err(_) => c,
        }
    }
}

proof fn lemma_import_step(c: ChainModel, bs: Seq<BlockModel>)
    requires
        bs.len() > 0,
    ensures
        !can_grow(c) ==> import_blocks(c, bs) == c,
        can_grow(c) ==> import_blocks(c, bs) == match append_outcome(c, bs[0]) {
            Ok(c2) => import_blocks(c2, bs.drop_first()),
            Err(_) => c,
        },
{
    reveal(import_blocks);
}

proof fn lemma_import_empty(c: ChainModel, bs: Seq<BlockModel>)
    requires
        bs.len() == 0,
    ensures
        import_blocks(c, bs) == c,
{
    reveal(import_blocks);
}

/// Blocks of `all` whose index is beyond the watermark (all when there is none).
pub open spec fn beyond_watermark(all: Seq<BlockModel>, watermark: Option<u64>) -> Seq<BlockModel> {
    all.filter(
        |b: BlockModel|
            match watermark {
                Some(w) => b.index > w,
                None => true,
            },
    )
}

fn is_beyond(b: &Block, watermark: Option<u64>) -> (r: bool)
    ensures
        r == match watermark {
            Some(w) => b.index > w,
            None => true,
        },
{
    match watermark {
        Some(w) => b.index > w,
        None => true,
    }
}

impl Peer {
    pub fn new(peer_addresses: Vec<String>, peer_sync_ms: u64) -> (r: Peer)
        ensures
            r.peer_addresses@ == peer_addresses@,
            r.peer_sync_ms == peer_sync_ms,
    {
        Peer { peer_addresses, peer_sync_ms }
    }

    /// The blocks of a peer's list that come after local index `next_index - 1`.
    pub fn get_new_blocks_from_peer(next_index: u64, peer_blocks: &Vec<Block>) -> (r: Vec<Block>)
        ensures
            blocks_model(r@) == new_blocks_slice(next_index as int, blocks_model(peer_blocks@)),
    {
        let ghost pm = blocks_model(peer_blocks@);
        let n = peer_blocks.len();
        let mut r: Vec<Block> = Vec::new();
        if n == 0 {
            assert(blocks_model(r@) =~= Seq::<BlockModel>::empty());
            return r;
        }
        let last = peer_blocks[n - 1].index;
        assert(pm.last() == peer_blocks@[n - 1]@);
        if last < next_index || last >= n as u64 {
            assert(blocks_model(r@) =~= Seq::<BlockModel>::empty());
            return r;
        }
        let mut i: usize = next_index as usize;
        while i <= last as usize
            invariant
                next_index <= i <= last + 1,
                last < n,
                n == peer_blocks@.len(),
                pm == blocks_model(peer_blocks@),
                blocks_model(r@) == pm.subrange(next_index as int, i as int),
            decreases last + 1 - i,
        {
            let ghost prev = r@;
            let b = peer_blocks[i].duplicate();
            r.push(b);
            assert(blocks_model(r@) =~= blocks_model(prev).push(b@));
            assert(pm.subrange(next_index as int, i + 1) =~= pm.subrange(next_index as int, i as int).push(
                pm[i as int],
            ));
            i = i + 1;
        }
        r
    }

    /// Appends blocks in order through the normal chain path, stopping at the
    /// first one refused; returns how many were appended.
    pub fn add_new_blocks(db: &mut NodeDatabase, new_blocks: &Vec<Block>) -> (r: usize)
        requires
            old(db).wf(),
        ensures
            final(db).wf(),
            final(db)@ == import_blocks(old(db)@, blocks_model(new_blocks@)),
            r == final(db)@.blocks.len() - old(db)@.blocks.len(),
    {
        let ghost bs = blocks_model(new_blocks@);
        assert(bs.skip(0) =~= bs);
        let mut i: usize = 0;
        while i < new_blocks.len()
            invariant
                i <= new_blocks@.len(),
                bs == blocks_model(new_blocks@),
                db.wf(),
                import_blocks(old(db)@, bs) == import_blocks(db@, bs.skip(i as int)),
                db@.blocks.len() == old(db)@.blocks.len() + i,
            decreases new_blocks@.len() - i,
        {
            let ghost before = db@;
            proof {
                db.lemma_wf();
                assert(bs.skip(i as int)[0] == new_blocks@[i as int]@);
                assert(bs.skip(i as int).drop_first() =~= bs.skip(i as int + 1));
                lemma_import_step(before, bs.skip(i as int));
            }
            let supply = db.total_supply();
            if supply > u64::MAX - BLOCK_SUBSIDY {
                return i;
            }
            match db.append_block(&new_blocks[i]) {
                Ok(()) => {},
                Err(_) => {
                    return i;
                },
            }
            i = i + 1;
        }
        proof {
            lemma_import_empty(db@, bs.skip(i as int));
        }
        i
    }

    /// Pull from one peer: appends, in index order, the blocks its list holds
    /// beyond the local tip, stopping at the first one refused.
    pub fn try_receive_new_blocks(db: &mut NodeDatabase, peer_blocks: &Vec<Block>) -> (r: usize)
        requires
            old(db).wf(),
        ensures
            final(db).wf(),
            final(db)@ == import_blocks(
                old(db)@,
                new_blocks_slice(old(db)@.blocks.last().index + 1, blocks_model(peer_blocks@)),
            ),
            r == final(db)@.blocks.len() - old(db)@.blocks.len(),
    {
        proof {
            db.lemma_wf();
        }
        let tip = match db.get_tip_block() {
            Some(b) => b,
            None => {
                return 0;
            },
        };
        let new_blocks = Peer::get_new_blocks_from_peer(tip.index + 1, peer_blocks);
        Peer::add_new_blocks(db, &new_blocks)
    }

    /// The local blocks to push: those with an index beyond the watermark.
    pub fn get_new_blocks_since(all_blocks: &Vec<Block>, watermark: Option<u64>) -> (r: Vec<Block>)
        ensures
            blocks_model(r@) == beyond_watermark(blocks_model(all_blocks@), watermark),
    {
        let ghost all = blocks_model(all_blocks@);
        let mut r: Vec<Block> = Vec::new();
        let mut i: usize = 0;
        while i < all_blocks.len()
            invariant
                i <= all_blocks@.len(),
                all == blocks_model(all_blocks@),
                blocks_model(r@) == beyond_watermark(all.take(i as int), watermark),
            decreases all_blocks@.len() - i,
        {
            let ghost prev = r@;
            assert(all.take(i as int + 1).drop_last() =~= all.take(i as int));
            assert(all.take(i as int + 1).last() == all_blocks@[i as int]@);
            proof {
                reveal(Seq::filter);
            }
            if is_beyond(&all_blocks[i], watermark) {
                let b = all_blocks[i].duplicate();
                r.push(b);
                assert(blocks_model(r@) =~= blocks_model(prev).push(b@));
            }
            i = i + 1;
        }
        assert(all.take(i as int) =~= all);
        r
    }

    /// Position of the next block to push to one peer after a delivery at
    /// `position` of `count` blocks: the following one if this delivery
    /// succeeded and one is left; none once it failed, which ends this peer's
    /// pushes for the cycle without touching the other peers.
    pub fn next_push_position(delivered: bool, position: usize, count: usize) -> (r: Option<
        usize,
    >)
        requires
            position < count,
        ensures
            r == (if delivered && position + 1 < count {
                Some((position + 1) as usize)
            } else {
                None::<usize>
            }),
    {
        if delivered && position + 1 < count {
            Some(position + 1)
        } else {
            None
        }
    }

    /// The watermark after a push cycle: the highest local index, whatever
    /// each peer's delivery gave; unchanged when there are no local blocks.
    pub fn next_watermark(all_blocks: &Vec<Block>, watermark: Option<u64>) -> (r: Option<u64>)
        ensures
            all_blocks@.len() == 0 ==> r == watermark,
            all_blocks@.len() > 0 ==> r == Some(all_blocks@.last().index),
    {
        let n = all_blocks.len();
        if n == 0 {
            watermark
        } else {
            Some(all_blocks[n - 1].index)
        }
    }
}

} // verus!
