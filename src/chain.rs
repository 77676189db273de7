use vstd::prelude::*;
use crate::encoding::{block_digest, cleared_hash, encode_network_params, network_digest};
use crate::hash::{meets_target, ConsensusHash};
use crate::ledger::{
    apply_block, apply_transfers, balance_of, credit, lemma_transfers_stop, AccountBalanceMap, Balances,
};
use crate::mempool::{without_confirmed, Mempool};
use crate::types::{
    sealed, txs_model, Address, Block, BlockModel, Coin, Network, Transaction, TxModel,
};
use crate::BLOCK_SUBSIDY;

verus! {

/// Reasons a block or a transaction is refused.
#[derive(Debug, Clone, Copy, PartialEq, Eq, Structural)]
pub enum BlockchainError {
    InvalidIndex,
    InvalidPreviousHash,
    InvalidHash,
    InvalidDifficulty,
    CoinbaseMissing,
    InvalidCoinbaseAmount,
    InsufficientFunds,
}

/// Abstract state of a node: its chain, balances and pending transactions.
pub struct ChainModel {
    pub network: Network,
    pub blocks: Seq<BlockModel>,
    pub balances: Balances,
    pub pending: Seq<TxModel>,
}

/// The genesis block of a network: fixed timestamp, no transactions, and the
/// digest of the network parameters as previous hash.
pub open spec fn genesis_block(n: Network) -> BlockModel {
    sealed(
        BlockModel {
            index: 0,
            timestamp: n.timestamp,
            nonce: 0,
            previous_hash: network_digest(n),
            hash: cleared_hash(),
            transactions: seq![],
        },
    )
}

/// The header checks of a candidate block against the tip, first failure first.
pub open spec fn validate_block(blocks: Seq<BlockModel>, difficulty: u32, b: BlockModel) -> Result<
    (),
    BlockchainError,
> {
    if b.index != blocks.last().index + 1 {
        Err(BlockchainError::InvalidIndex)
    } else if b.previous_hash != blocks.last().hash {
        Err(BlockchainError::InvalidPreviousHash)
    } else if b.hash != block_digest(b) {
        Err(BlockchainError::InvalidHash)
    } else if !meets_target(b.hash, difficulty as nat) {
        Err(BlockchainError::InvalidDifficulty)
    } else {
        Ok(())
    }
}

/// State after appending a candidate block, or the error that refuses it.
pub open spec fn append_outcome(c: ChainModel, b: BlockModel) -> Result<ChainModel, BlockchainError> {
    match validate_block(c.blocks, c.network.difficulty, b) {
        Err(e) => Err(e),
        Ok(_) => match apply_block(c.balances, b.transactions) {
            Err(e) => Err(e),
            Ok(m) => Ok(
                ChainModel {
                    network: c.network,
                    blocks: c.blocks.push(b),
                    balances: m,
                    pending: without_confirmed(c.pending, b.transactions),
                },
            ),
        },
    }
}

/// Invariants of committed blocks.
pub open spec fn valid_blocks(blocks: Seq<BlockModel>, n: Network) -> bool {
    &&& blocks.len() >= 1
    &&& blocks[0] == genesis_block(n)
    &&& forall|i: int|
        0 <= i < blocks.len() ==> (#[trigger] blocks[i]).index == i && blocks[i].hash
            == block_digest(blocks[i])
    &&& forall|i: int|
        0 < i < blocks.len() ==> (#[trigger] blocks[i]).previous_hash == blocks[i - 1].hash
            && meets_target(blocks[i].hash, n.difficulty as nat) && blocks[i].transactions.len()
            >= 1 && blocks[i].transactions[0].amount == BLOCK_SUBSIDY
            && blocks[i].transactions[0].sender == Seq::<char>::empty()
}

pub open spec fn blocks_model(v: Seq<Block>) -> Seq<BlockModel> {
    v.map_values(|b: Block| b@)
}

/// A node's chain, balances and mempool, changed only through whole-block appends
/// and transaction admission.
pub struct NodeDatabase {
    network: Network,
    blocks: Vec<Block>,
    accounts: AccountBalanceMap,
    mempool: Mempool,
}

impl View for NodeDatabase {
    type V = ChainModel;

    closed spec fn view(&self) -> ChainModel {
        ChainModel {
            network: self.network,
            blocks: blocks_model(self.blocks@),
            balances: self.accounts@,
            pending: self.mempool@,
        }
    }
}

impl NodeDatabase {
    pub closed spec fn wf(&self) -> bool {
        &&& valid_blocks(blocks_model(self.blocks@), self.network)
        &&& self.accounts.wf()
        &&& self.accounts.total() == BLOCK_SUBSIDY * (self.blocks@.len() - 1)
    }

    /// Sum of all balances.
    pub closed spec fn total(&self) -> nat {
        self.accounts.total()
    }

    /// What a valid node state guarantees.
    pub proof fn lemma_wf(&self)
        requires
            self.wf(),
        ensures
            valid_blocks(self@.blocks, self@.network),
            self.total() == BLOCK_SUBSIDY * (self@.blocks.len() - 1),
            self.total() <= u64::MAX,
    {
        self.accounts.lemma_total_bound();
    }

    /// A node holding only the genesis block of `network`.
    pub fn new(network: Network) -> (r: NodeDatabase)
        ensures
            r.wf(),
            r@ == (ChainModel {
                network,
                blocks: seq![genesis_block(network)],
                balances: Map::empty(),
                pending: Seq::empty(),
            }),
            r.total() == 0,
    {
        let previous_hash = ConsensusHash::digest(&encode_network_params(&network));
        let genesis = Block::with_timestamp(0, network.timestamp, 0, previous_hash, Vec::new());
        let mut blocks: Vec<Block> = Vec::new();
        blocks.push(genesis);
        let r = NodeDatabase {
            network,
            blocks,
            accounts: AccountBalanceMap::new(),
            mempool: Mempool::new(),
        };
        assert(txs_model(Seq::<Transaction>::empty()) =~= Seq::<TxModel>::empty());
        assert(genesis@.hash == block_digest(genesis@));
        assert(blocks_model(r.blocks@) =~= seq![genesis_block(network)]);
        r
    }

    pub fn get_network(&self) -> (r: Network)
        ensures
            r == self@.network,
    {
        self.network
    }

    /// A copy of every block, genesis first.
    pub fn get_all_blocks(&self) -> (r: Vec<Block>)
        ensures
            blocks_model(r@) == self@.blocks,
    {
        let mut r: Vec<Block> = Vec::new();
        let mut i: usize = 0;
        while i < self.blocks.len()
            invariant
                i <= self.blocks@.len(),
                blocks_model(r@) == blocks_model(self.blocks@.take(i as int)),
            decreases self.blocks@.len() - i,
        {
            let ghost prev = r@;
            let b = self.blocks[i].duplicate();
            r.push(b);
            assert(blocks_model(r@) =~= blocks_model(prev).push(b@));
            assert(self.blocks@.take(i as int + 1) =~= self.blocks@.take(i as int).push(
                self.blocks@[i as int],
            ));
            assert(blocks_model(self.blocks@.take(i as int + 1)) =~= blocks_model(
                self.blocks@.take(i as int),
            ).push(self.blocks@[i as int]@));
            i = i + 1;
        }
        assert(self.blocks@.take(i as int) =~= self.blocks@);
        r
    }

    /// A copy of the most recent block.
    pub fn get_tip_block(&self) -> (r: Option<Block>)
        requires
            self.wf(),
        ensures
            r is Some,
            r->Some_0@ == self@.blocks.last(),
    {
        let n = self.blocks.len();
        Some(self.blocks[n - 1].duplicate())
    }

    /// Balance of an address; zero when it has none.
    pub fn get_account_balance(&self, address: &Address) -> (r: Coin)
        requires
            self.wf(),
        ensures
            r == balance_of(self@.balances, address@),
    {
        self.accounts.get_balance(address)
    }

    /// Sum of all balances.
    pub fn total_supply(&self) -> (r: u64)
        requires
            self.wf(),
        ensures
            r == self.total(),
    {
        self.accounts.total_supply()
    }

    /// A copy of the pending transactions, in insertion order.
    pub fn get_mempool_transactions(&self) -> (r: Vec<Transaction>)
        ensures
            txs_model(r@) == self@.pending,
    {
        self.mempool.get_transactions()
    }

    /// Admits a transaction to the mempool when its sender's committed balance
    /// covers its amount; pending transactions are not counted against it.
    pub fn add_transaction(&mut self, transaction: Transaction) -> (r: Result<(), BlockchainError>)
        requires
            old(self).wf(),
        ensures
            final(self).wf(),
            final(self).total() == old(self).total(),
            balance_of(old(self)@.balances, transaction@.sender) >= transaction.amount ==> r is Ok
                && final(self)@ == (ChainModel {
                pending: old(self)@.pending.push(transaction@),
                ..old(self)@
            }),
            balance_of(old(self)@.balances, transaction@.sender) < transaction.amount ==> r
                == Err::<(), BlockchainError>(BlockchainError::InsufficientFunds) && final(self)@
                == old(self)@,
    {
        if self.accounts.get_balance(&transaction.sender) < transaction.amount {
            return Err(BlockchainError::InsufficientFunds);
        }
        self.mempool.add_transaction(transaction);
        Ok(())
    }

    /// Validates a candidate block against the tip and, only if every check
    /// passes, commits the new balances, appends the block and prunes the
    /// mempool. On any error nothing changes.
    pub fn append_block(&mut self, block: &Block) -> (r: Result<(), BlockchainError>)
        requires
            old(self).wf(),
            old(self).total() + BLOCK_SUBSIDY <= u64::MAX,
        ensures
            final(self).wf(),
            match append_outcome(old(self)@, block@) {
                Ok(c) => r is Ok && final(self)@ == c && final(self).total() == old(self).total()
                    + BLOCK_SUBSIDY,
                Err(e) => r == Err::<(), BlockchainError>(e) && final(self)@ == old(self)@
                    && final(self).total() == old(self).total(),
            },
            r is Ok ==> meets_target(block.hash.0@, old(self)@.network.difficulty as nat),
    {
        proof {
            self.accounts.lemma_total_bound();
        }
        let n = self.blocks.len();
        let tip = &self.blocks[n - 1];
        assert(blocks_model(self.blocks@)[n - 1] == tip@);
        if block.index != tip.index + 1 {
            return Err(BlockchainError::InvalidIndex);
        }
        if block.previous_hash != tip.hash {
            return Err(BlockchainError::InvalidPreviousHash);
        }
        if block.hash != block.calculate_hash() {
            return Err(BlockchainError::InvalidHash);
        }
        if !block.hash.meets_difficulty(self.network.difficulty) {
            return Err(BlockchainError::InvalidDifficulty);
        }
        let accounts = match self.accounts.apply_block_transactions(&block.transactions) {
            Ok(m) => m,
            Err(e) => {
                return Err(e);
            },
        };
        let ghost old_blocks = self.blocks@;
        self.accounts = accounts;
        self.blocks.push(block.duplicate());
        self.mempool.remove_transactions(&block.transactions);
        assert(blocks_model(self.blocks@) =~= blocks_model(old_blocks).push(block@));
        proof {
            let bs = blocks_model(self.blocks@);
            assert forall|i: int| 0 < i < bs.len() implies (#[trigger] bs[i]).previous_hash
                == bs[i - 1].hash && meets_target(bs[i].hash, self.network.difficulty as nat)
                && bs[i].transactions.len() >= 1 && bs[i].transactions[0].amount
                == BLOCK_SUBSIDY && bs[i].transactions[0].sender == Seq::<char>::empty() by {
                if i < bs.len() - 1 {
                    assert(bs[i] == blocks_model(old_blocks)[i]);
                    assert(bs[i - 1] == blocks_model(old_blocks)[i - 1]);
                }
            }
        }
        Ok(())
    }

    /// An unsealed template on top of the tip: next index, the tip's hash,
    /// the current time, nonce zero and the pending transactions (no coinbase).
    pub fn new_template(&self) -> (r: Block)
        requires
            self.wf(),
        ensures
            r.index == self@.blocks.last().index + 1,
            r.previous_hash.0@ == self@.blocks.last().hash,
            r.nonce == 0,
            txs_model(r.transactions@) == self@.pending,
            r@ == sealed(r@),
    {
        proof {
            self.accounts.lemma_total_bound();
        }
        let n = self.blocks.len();
        let tip = &self.blocks[n - 1];
        assert(blocks_model(self.blocks@)[n - 1] == tip@);
        Block::new(tip.index + 1, 0, tip.hash, self.mempool.get_transactions())
    }
}

/// Every accepted block after genesis has a hash at most the target of the
/// node's difficulty.
pub proof fn lemma_accepted_blocks_meet_target(c: &NodeDatabase, i: int)
    requires
        c.wf(),
        0 < i < c@.blocks.len(),
    ensures
        meets_target(c@.blocks[i].hash, c@.network.difficulty as nat),
{
    c.lemma_wf();
}

/// Offering again any block already in the chain fails with `InvalidIndex`.
pub proof fn lemma_replay_rejected(c: &NodeDatabase, i: int)
    requires
        c.wf(),
        0 <= i < c@.blocks.len(),
    ensures
        append_outcome(c@, c@.blocks[i]) == Err::<ChainModel, BlockchainError>(
            BlockchainError::InvalidIndex,
        ),
{
    c.lemma_wf();
    let bs = c@.blocks;
    assert(bs[i].index == i);
    assert(bs[bs.len() - 1].index == bs.len() - 1);
}

/// Two nodes built from the same network parameters hold the same genesis block.
pub proof fn lemma_genesis_identical(a: &NodeDatabase, b: &NodeDatabase)
    requires
        a.wf(),
        b.wf(),
        a@.network == b@.network,
    ensures
        a@.blocks[0] == b@.blocks[0],
        a@.blocks[0].hash == b@.blocks[0].hash,
{
    a.lemma_wf();
    b.lemma_wf();
}

/// A block that passes the header checks and opens with a valid coinbase (null
/// sender, subsidy amount),
/// but one of whose transfers exceeds what its sender holds at that point, is
/// refused with `InsufficientFunds`.
pub proof fn lemma_overdraft_rejected(c: ChainModel, b: BlockModel, k: int, m: Balances)
    requires
        validate_block(c.blocks, c.network.difficulty, b) is Ok,
        b.transactions.len() >= 1,
        b.transactions[0].amount == BLOCK_SUBSIDY,
        b.transactions[0].sender == Seq::<char>::empty(),
        1 <= k < b.transactions.len(),
        apply_transfers(
            credit(c.balances, b.transactions[0].recipient, BLOCK_SUBSIDY as nat),
            b.transactions.skip(1).take(k - 1),
        ) == Ok::<Balances, BlockchainError>(m),
        balance_of(m, b.transactions[k].sender) < b.transactions[k].amount,
    ensures
        append_outcome(c, b) == Err::<ChainModel, BlockchainError>(
            BlockchainError::InsufficientFunds,
        ),
{
    let start = credit(c.balances, b.transactions[0].recipient, BLOCK_SUBSIDY as nat);
    let rest = b.transactions.skip(1);
    assert(rest.take(k).drop_last() =~= rest.take(k - 1));
    assert(rest.take(k).last() == b.transactions[k]);
    lemma_transfers_stop(start, rest, k);
}

/// Conservation: between two valid states of one chain, the sum of all
/// balances grows by exactly the subsidy per block added.
pub proof fn lemma_conservation(before: &NodeDatabase, after: &NodeDatabase)
    requires
        before.wf(),
        after.wf(),
        before@.blocks.len() <= after@.blocks.len(),
    ensures
        after.total() - before.total() == (after@.blocks.len() - before@.blocks.len())
            * BLOCK_SUBSIDY,
{
    before.lemma_wf();
    after.lemma_wf();
    let n1 = before@.blocks.len() - 1;
    let n2 = after@.blocks.len() - 1;
    assert(BLOCK_SUBSIDY * n2 - BLOCK_SUBSIDY * n1 == (n2 - n1) * BLOCK_SUBSIDY) by (nonlinear_arith);
}

} // verus!
