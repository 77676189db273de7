use vstd::prelude::*;
use crate::hash::ConsensusHash;
use crate::encoding::{block_digest, encode_block};

verus! {

/// Account identifier; the empty text is the null address of coinbase senders.
pub type Address = String;

/// An amount of coins.
pub type Coin = u64;

/// Abstract value of a transaction.
pub struct TxModel {
    pub sender: Seq<char>,
    pub recipient: Seq<char>,
    pub amount: u64,
}

/// A transfer of coins from one account to another.
#[derive(Debug, Clone)]
pub struct Transaction {
    pub sender: Address,
    pub recipient: Address,
    pub amount: Coin,
}

impl View for Transaction {
    type V = TxModel;

    open spec fn view(&self) -> TxModel {
        TxModel { sender: self.sender@, recipient: self.recipient@, amount: self.amount }
    }
}

impl PartialEq for Transaction {
    fn eq(&self, o: &Transaction) -> (r: bool) {
        self.sender == o.sender && self.recipient == o.recipient && self.amount == o.amount
    }
}

impl vstd::std_specs::cmp::PartialEqSpecImpl for Transaction {
    open spec fn obeys_eq_spec() -> bool {
        true
    }

    open spec fn eq_spec(&self, o: &Transaction) -> bool {
        self@ == o@
    }
}

impl Eq for Transaction {
}

impl Transaction {
    pub fn new(sender: Address, recipient: Address, amount: Coin) -> (r: Transaction)
        ensures
            r@ == (TxModel { sender: sender@, recipient: recipient@, amount }),
    {
        Transaction { sender, recipient, amount }
    }

    /// A copy with the same value.
    pub fn duplicate(&self) -> (r: Transaction)
        ensures
            r@ == self@,
    {
        Transaction {
            sender: self.sender.clone(),
            recipient: self.recipient.clone(),
            amount: self.amount,
        }
    }
}

/// Abstract value of a list of transactions.
pub open spec fn txs_model(v: Seq<Transaction>) -> Seq<TxModel> {
    v.map_values(|t: Transaction| t@)
}

/// Copies a list of transactions, keeping their order and values.
pub fn duplicate_transactions(v: &Vec<Transaction>) -> (r: Vec<Transaction>)
    ensures
        txs_model(r@) == txs_model(v@),
{
    let mut r: Vec<Transaction> = Vec::new();
    let mut i: usize = 0;
    while i < v.len()
        invariant
            i <= v@.len(),
            txs_model(r@) == txs_model(v@.take(i as int)),
        decreases v@.len() - i,
    {
        let ghost prev = r@;
        let d = v[i].duplicate();
        r.push(d);
        assert(r@ =~= prev.push(d));
        assert(v@.take(i as int + 1) =~= v@.take(i as int).push(v@[i as int]));
        assert(txs_model(prev.push(d)) =~= txs_model(prev).push(d@));
        assert(txs_model(v@.take(i as int).push(v@[i as int])) =~= txs_model(v@.take(i as int)).push(
            v@[i as int]@,
        ));
        i = i + 1;
    }
    assert(v@.take(i as int) =~= v@);
    r
}

/// Parameters shared by every node of one network; hashed into the genesis block.
#[derive(Debug, Clone, Copy, PartialEq, Eq, Structural)]
pub struct Network {
    pub difficulty: u32,
    pub timestamp: i64,
}

/// Abstract value of a block.
pub struct BlockModel {
    pub index: u64,
    pub timestamp: i64,
    pub nonce: u64,
    pub previous_hash: Seq<u8>,
    pub hash: Seq<u8>,
    pub transactions: Seq<TxModel>,
}

/// A block of the chain.
#[derive(Debug, Clone)]
pub struct Block {
    pub index: u64,
    pub timestamp: i64,
    pub nonce: u64,
    pub previous_hash: ConsensusHash,
    pub hash: ConsensusHash,
    pub transactions: Vec<Transaction>,
}

impl View for Block {
    type V = BlockModel;

    open spec fn view(&self) -> BlockModel {
        BlockModel {
            index: self.index,
            timestamp: self.timestamp,
            nonce: self.nonce,
            previous_hash: self.previous_hash.0@,
            hash: self.hash.0@,
            transactions: txs_model(self.transactions@),
        }
    }
}

impl PartialEq for Block {
    fn eq(&self, o: &Block) -> (r: bool) {
        if self.index != o.index || self.timestamp != o.timestamp || self.nonce != o.nonce {
            return false;
        }
        if self.previous_hash != o.previous_hash || self.hash != o.hash {
            return false;
        }
        if self.transactions.len() != o.transactions.len() {
            assert(txs_model(self.transactions@).len() != txs_model(o.transactions@).len());
            return false;
        }
        let mut i: usize = 0;
        while i < self.transactions.len()
            invariant
                i <= self.transactions@.len(),
                self.transactions@.len() == o.transactions@.len(),
                forall|j: int| 0 <= j < i ==> self.transactions@[j]@ == o.transactions@[j]@,
            decreases self.transactions@.len() - i,
        {
            if self.transactions[i] != o.transactions[i] {
                assert(txs_model(self.transactions@)[i as int] != txs_model(o.transactions@)[i as int]);
                return false;
            }
            i = i + 1;
        }
        assert(txs_model(self.transactions@) =~= txs_model(o.transactions@));
        true
    }
}

impl vstd::std_specs::cmp::PartialEqSpecImpl for Block {
    open spec fn obeys_eq_spec() -> bool {
        true
    }

    open spec fn eq_spec(&self, o: &Block) -> bool {
        self@ == o@
    }
}

impl Eq for Block {
}

/// Relies on chrono's `From<SystemTime> for DateTime<Utc>` and
/// `DateTime::timestamp_millis`: the wall-clock time in milliseconds since the
/// Unix epoch, negative for a clock set before it. Nothing is promised of its value.
#[verifier::external_body]
fn now_millis() -> (r: i64) {
    chrono::DateTime::<chrono::Utc>::from(std::time::SystemTime::now()).timestamp_millis()
}

/// Value of a block whose hash field holds the digest of its other fields.
pub open spec fn sealed(b: BlockModel) -> BlockModel {
    BlockModel { hash: block_digest(b), ..b }
}

impl Block {
    /// A block with the given fields, stamped with `timestamp`, whose hash is
    /// the digest of its other fields.
    pub fn with_timestamp(
        index: u64,
        timestamp: i64,
        nonce: u64,
        previous_hash: ConsensusHash,
        transactions: Vec<Transaction>,
    ) -> (r: Block)
        ensures
            r@ == sealed(
                BlockModel {
                    index,
                    timestamp,
                    nonce,
                    previous_hash: previous_hash.0@,
                    hash: r@.hash,
                    transactions: txs_model(transactions@),
                },
            ),
    {
        let mut block = Block {
            index,
            timestamp,
            nonce,
            previous_hash,
            hash: ConsensusHash::zero(),
            transactions,
        };
        block.hash = block.calculate_hash();
        block
    }

    /// A block stamped with the current time, whose hash is the digest of its
    /// other fields.
    pub fn new(index: u64, nonce: u64, previous_hash: ConsensusHash, transactions: Vec<Transaction>) -> (r: Block)
        ensures
            r.index == index,
            r.nonce == nonce,
            r.previous_hash.0@ == previous_hash.0@,
            txs_model(r.transactions@) == txs_model(transactions@),
            r@ == sealed(r@),
    {
        Block::with_timestamp(index, now_millis(), nonce, previous_hash, transactions)
    }

    /// Digest of this block with its hash field cleared.
    pub fn calculate_hash(&self) -> (r: ConsensusHash)
        ensures
            r.0@ == block_digest(self@),
    {
        ConsensusHash::digest(&encode_block(self))
    }

    /// A copy with the same value.
    pub fn duplicate(&self) -> (r: Block)
        ensures
            r@ == self@,
    {
        Block {
            index: self.index,
            timestamp: self.timestamp,
            nonce: self.nonce,
            previous_hash: self.previous_hash,
            hash: self.hash,
            transactions: duplicate_transactions(&self.transactions),
        }
    }
}

} // verus!
