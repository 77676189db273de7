use vstd::prelude::*;
use crate::hash::meets_target;
use crate::types::{
    duplicate_transactions, sealed, txs_model, Address, Block, BlockModel, Transaction, TxModel,
};
use crate::BLOCK_SUBSIDY;

verus! {

/// The nonce search ended without a valid block for the given index.
#[derive(Debug, Clone, Copy, PartialEq, Eq, Structural)]
pub enum MinerError {
    BlockNotMined(u64),
}

/// Settings of a mining process.
#[derive(Debug, Clone)]
pub struct MinerArgs {
    pub miner_address: Address,
    pub node_url: String,
    pub difficulty: u32,
    pub max_nonce: u64,
    pub max_blocks: u64,
}

/// Where a miner reaches its node.
#[derive(Debug, Clone)]
pub struct NetworkClient {
    pub node_url: String,
}

impl NetworkClient {
    pub fn new(node_url: String) -> (r: NetworkClient)
        ensures
            r.node_url@ == node_url@,
    {
        NetworkClient { node_url }
    }
}

/// What the mining cycle does next.
#[derive(Debug, Clone, Copy, PartialEq, Eq, Structural)]
pub enum MiningStep {
    /// The configured number of blocks has been mined.
    Stop,
    /// Nothing to mine yet: sleep, then fetch a fresh template.
    Wait,
    /// Seal the template and search for a nonce.
    Mine,
}

/// The coinbase paying the subsidy from the null address to the miner.
pub fn create_coinbase_transaction(miner_address: Address) -> (r: Transaction)
    ensures
        r@ == (TxModel {
            sender: Seq::<char>::empty(),
            recipient: miner_address@,
            amount: BLOCK_SUBSIDY,
        }),
{
    Transaction { sender: String::new(), recipient: miner_address, amount: BLOCK_SUBSIDY }
}

/// Whether more blocks may be mined; a limit of zero means no limit.
pub fn should_keep_mining(blocks_mined: u64, args: &MinerArgs) -> (r: bool)
    ensures
        r == (args.max_blocks == 0 || blocks_mined < args.max_blocks),
{
    if args.max_blocks == 0 {
        return true;
    }
    blocks_mined < args.max_blocks
}

/// Decision of one mining cycle. An empty template is mined only on the first
/// cycle, and only while no block has been mined.
pub fn next_mining_step(
    blocks_mined: u64,
    first_cycle: bool,
    args: &MinerArgs,
    template_is_empty: bool,
) -> (r: MiningStep)
    ensures
        !(args.max_blocks == 0 || blocks_mined < args.max_blocks) ==> r == MiningStep::Stop,
        (args.max_blocks == 0 || blocks_mined < args.max_blocks) ==> r == (if template_is_empty
            && !(first_cycle && blocks_mined == 0) {
            MiningStep::Wait
        } else {
            MiningStep::Mine
        }),
{
    if !should_keep_mining(blocks_mined, args) {
        MiningStep::Stop
    } else if template_is_empty && !(first_cycle && blocks_mined == 0) {
        MiningStep::Wait
    } else {
        MiningStep::Mine
    }
}

/// The template with the miner's coinbase put first and its hash recomputed.
pub open spec fn with_coinbase(t: BlockModel, miner: Seq<char>) -> BlockModel {
    sealed(
        BlockModel {
            transactions: seq![
                TxModel { sender: Seq::<char>::empty(), recipient: miner, amount: BLOCK_SUBSIDY },
            ] + t.transactions,
            ..t
        },
    )
}

/// Puts the miner's coinbase first in a template and recomputes its hash.
pub fn add_coinbase(template: &Block, miner_address: Address) -> (r: Block)
    ensures
        r@ == with_coinbase(template@, miner_address@),
{
    let coinbase = create_coinbase_transaction(miner_address);
    let ghost cb = coinbase@;
    let mut transactions: Vec<Transaction> = Vec::new();
    transactions.push(coinbase);
    let mut i: usize = 0;
    while i < template.transactions.len()
        invariant
            i <= template.transactions@.len(),
            txs_model(transactions@) == seq![cb] + txs_model(template.transactions@.take(i as int)),
        decreases template.transactions@.len() - i,
    {
        let ghost prev = transactions@;
        let t = template.transactions[i].duplicate();
        transactions.push(t);
        assert(txs_model(transactions@) =~= txs_model(prev).push(t@));
        assert(txs_model(template.transactions@.take(i as int + 1)) =~= txs_model(
            template.transactions@.take(i as int),
        ).push(template.transactions@[i as int]@));
        i = i + 1;
    }
    assert(template.transactions@.take(i as int) =~= template.transactions@);
    Block::with_timestamp(
        template.index,
        template.timestamp,
        template.nonce,
        template.previous_hash,
        transactions,
    )
}

/// The trial block of the search for `nonce`: the template with that nonce,
/// sealed.
pub open spec fn trial(t: BlockModel, nonce: u64) -> BlockModel {
    sealed(BlockModel { nonce, ..t })
}

/// Searches nonces `0 .. max_nonce` in order and returns the first trial block
/// whose hash meets the difficulty; the template's timestamp is kept.
pub fn mine_block(template: &Block, max_nonce: u64, difficulty: u32) -> (r: Result<
    Block,
    MinerError,
>)
    ensures
        match r {
            Ok(b) => b@.nonce < max_nonce && b@ == trial(template@, b@.nonce) && meets_target(
                b@.hash,
                difficulty as nat,
            ) && forall|n: u64|
                n < b@.nonce ==> !meets_target(#[trigger] trial(template@, n).hash, difficulty as nat),
            Err(e) => e == MinerError::BlockNotMined(template.index) && forall|n: u64|
                n < max_nonce ==> !meets_target(#[trigger] trial(template@, n).hash, difficulty as nat),
        },
{
    let mut nonce: u64 = 0;
    while nonce < max_nonce
        invariant
            nonce <= max_nonce,
            forall|n: u64|
                n < nonce ==> !meets_target(#[trigger] trial(template@, n).hash, difficulty as nat),
        decreases max_nonce - nonce,
    {
        let candidate = Block::with_timestamp(
            template.index,
            template.timestamp,
            nonce,
            template.previous_hash,
            duplicate_transactions(&template.transactions),
        );
        assert(candidate@ == trial(template@, nonce));
        if candidate.hash.meets_difficulty(difficulty) {
            return Ok(candidate);
        }
        nonce = nonce + 1;
    }
    Err(MinerError::BlockNotMined(template.index))
}

/// The search is a function of its inputs: two runs on templates of equal
/// value with the same bound and difficulty give the same outcome.
pub proof fn lemma_mining_deterministic(
    t: BlockModel,
    max_nonce: u64,
    difficulty: u32,
    a: Result<BlockModel, u64>,
    b: Result<BlockModel, u64>,
)
    requires
        mining_outcome(t, max_nonce, difficulty, a),
        mining_outcome(t, max_nonce, difficulty, b),
    ensures
        a == b,
{
    match (a, b) {
        (Ok(x), Ok(y)) => {
            if x.nonce < y.nonce {
                assert(!meets_target(trial(t, x.nonce).hash, difficulty as nat));
            } else if y.nonce < x.nonce {
                assert(!meets_target(trial(t, y.nonce).hash, difficulty as nat));
            }
        },
        (Ok(x), Err(_)) => {
            assert(!meets_target(trial(t, x.nonce).hash, difficulty as nat));
        },
        (Err(_), Ok(y)) => {
            assert(!meets_target(trial(t, y.nonce).hash, difficulty as nat));
        },
        (Err(_), Err(_)) => {},
    }
}

/// What `mine_block` returns on a template, as stated by its contract: the
/// first valid trial block below the bound, or the index when there is none.
pub open spec fn mining_outcome(
    t: BlockModel,
    max_nonce: u64,
    difficulty: u32,
    r: Result<BlockModel, u64>,
) -> bool {
    match r {
        Ok(b) => b.nonce < max_nonce && b == trial(t, b.nonce) && meets_target(
            b.hash,
            difficulty as nat,
        ) && forall|n: u64|
            n < b.nonce ==> !meets_target(#[trigger] trial(t, n).hash, difficulty as nat),
        Err(i) => i == t.index && forall|n: u64|
            n < max_nonce ==> !meets_target(#[trigger] trial(t, n).hash, difficulty as nat),
    }
}

} // verus!
