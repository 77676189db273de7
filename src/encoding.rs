use vstd::prelude::*;
use vstd::utf8::encode_utf8;
use crate::hash::ConsensusHash;
use crate::types::{Block, BlockModel, Network, Transaction, TxModel};

verus! {

/// The `n` low bytes of `v`, least significant first.
pub open spec fn le_bytes(v: nat, n: nat) -> Seq<u8>
    decreases n,
{
    if n == 0 {
        seq![]
    } else {
        seq![(v % 256) as u8] + le_bytes(v / 256, (n - 1) as nat)
    }
}

pub open spec fn encode_u64(v: u64) -> Seq<u8> {
    le_bytes(v as nat, 8)
}

pub open spec fn encode_i64(v: i64) -> Seq<u8> {
    le_bytes((v as u64) as nat, 8)
}

/// Text as its UTF-8 byte count followed by its UTF-8 bytes.
pub open spec fn encode_text(s: Seq<char>) -> Seq<u8> {
    encode_u64(encode_utf8(s).len() as u64) + encode_utf8(s)
}

pub open spec fn encode_tx(t: TxModel) -> Seq<u8> {
    encode_text(t.sender) + encode_text(t.recipient) + encode_u64(t.amount)
}

pub open spec fn encode_tx_items(ts: Seq<TxModel>) -> Seq<u8>
    decreases ts.len(),
{
    if ts.len() == 0 {
        seq![]
    } else {
        encode_tx_items(ts.drop_last()) + encode_tx(ts.last())
    }
}

/// A list of transactions as its count followed by each one in order.
pub open spec fn encode_txs(ts: Seq<TxModel>) -> Seq<u8> {
    encode_u64(ts.len() as u64) + encode_tx_items(ts)
}

/// The 32 bytes of a cleared hash field.
pub open spec fn cleared_hash() -> Seq<u8> {
    Seq::new(32, |i: int| 0u8)
}

/// Canonical encoding of a block with its hash field cleared, fields in
/// declaration order.
pub open spec fn encode_block_body(b: BlockModel) -> Seq<u8> {
    encode_u64(b.index) + encode_i64(b.timestamp) + encode_u64(b.nonce) + b.previous_hash
        + cleared_hash() + encode_txs(b.transactions)
}

/// Digest that a block's hash field must hold.
pub open spec fn block_digest(b: BlockModel) -> Seq<u8> {
    crate::hash::sha3_256_of(encode_block_body(b))
}

pub open spec fn encode_network(n: Network) -> Seq<u8> {
    le_bytes(n.difficulty as nat, 4) + encode_i64(n.timestamp)
}

/// Digest of the network parameters.
pub open spec fn network_digest(n: Network) -> Seq<u8> {
    crate::hash::sha3_256_of(encode_network(n))
}

fn push_le(out: &mut Vec<u8>, v: u64, n: usize)
    requires
        n <= 8,
    ensures
        final(out)@ == old(out)@ + le_bytes(v as nat, n as nat),
{
    let mut cur: u64 = v;
    let mut k: usize = 0;
    while k < n
        invariant
            k <= n,
            out@ + le_bytes(cur as nat, (n - k) as nat) == old(out)@ + le_bytes(v as nat, n as nat),
        decreases n - k,
    {
        let ghost prev = out@;
        let ghost m = (n - k) as nat;
        out.push((cur % 256) as u8);
        assert(le_bytes(cur as nat, m) == seq![(cur % 256) as u8] + le_bytes(
            (cur / 256) as nat,
            (m - 1) as nat,
        ));
        assert(out@ + le_bytes((cur / 256) as nat, (m - 1) as nat) =~= prev + le_bytes(
            cur as nat,
            m,
        ));
        cur = cur / 256;
        k = k + 1;
    }
    assert(le_bytes(cur as nat, 0) =~= Seq::<u8>::empty());
    assert(out@ =~= out@ + le_bytes(cur as nat, 0));
}

fn push_bytes(out: &mut Vec<u8>, b: &[u8])
    ensures
        final(out)@ == old(out)@ + b@,
{
    let mut i: usize = 0;
    while i < b.len()
        invariant
            i <= b@.len(),
            out@ == old(out)@ + b@.take(i as int),
        decreases b@.len() - i,
    {
        out.push(b[i]);
        assert(b@.take(i as int + 1) =~= b@.take(i as int).push(b@[i as int]));
        i = i + 1;
    }
    assert(b@.take(i as int) =~= b@);
}

fn push_text(out: &mut Vec<u8>, s: &String)
    ensures
        final(out)@ == old(out)@ + encode_text(s@),
{
    let b = s.as_str().as_bytes();
    push_le(out, b.len() as u64, 8);
    push_bytes(out, b);
    assert(out@ =~= old(out)@ + encode_text(s@));
}

fn push_transaction(out: &mut Vec<u8>, t: &Transaction)
    ensures
        final(out)@ == old(out)@ + encode_tx(t@),
{
    push_text(out, &t.sender);
    push_text(out, &t.recipient);
    push_le(out, t.amount, 8);
    assert(out@ =~= old(out)@ + encode_tx(t@));
}

fn push_transactions(out: &mut Vec<u8>, ts: &Vec<Transaction>)
    ensures
        final(out)@ == old(out)@ + encode_txs(crate::types::txs_model(ts@)),
{
    let ghost model = crate::types::txs_model(ts@);
    push_le(out, ts.len() as u64, 8);
    let ghost start = out@;
    let mut i: usize = 0;
    while i < ts.len()
        invariant
            i <= ts@.len(),
            model == crate::types::txs_model(ts@),
            out@ == start + encode_tx_items(model.take(i as int)),
        decreases ts@.len() - i,
    {
        push_transaction(out, &ts[i]);
        assert(model.take(i as int + 1).drop_last() =~= model.take(i as int));
        assert(out@ =~= start + encode_tx_items(model.take(i as int + 1)));
        i = i + 1;
    }
    assert(model.take(i as int) =~= model);
    assert(out@ =~= old(out)@ + encode_txs(model));
}

/// Canonical encoding of a block with its hash field cleared.
pub fn encode_block(b: &Block) -> (r: Vec<u8>)
    ensures
        r@ == encode_block_body(b@),
{
    let mut out: Vec<u8> = Vec::new();
    push_le(&mut out, b.index, 8);
    push_le(&mut out, b.timestamp as u64, 8);
    push_le(&mut out, b.nonce, 8);
    push_bytes(&mut out, &b.previous_hash.0);
    let cleared = ConsensusHash::zero();
    push_bytes(&mut out, &cleared.0);
    push_transactions(&mut out, &b.transactions);
    assert(out@ =~= encode_block_body(b@));
    out
}

/// Canonical encoding of one transaction.
pub fn encode_transaction(t: &Transaction) -> (r: Vec<u8>)
    ensures
        r@ == encode_tx(t@),
{
    let mut out: Vec<u8> = Vec::new();
    push_transaction(&mut out, t);
    assert(out@ =~= encode_tx(t@));
    out
}

/// Values with a canonical digest.
pub trait ConsensusHashable {
    /// The digest this value hashes to.
    spec fn consensus_digest(&self) -> Seq<u8>;

    fn consensus_hash(&self) -> (r: ConsensusHash)
        ensures
            r.0@ == self.consensus_digest(),
    ;
}

impl ConsensusHashable for Network {
    open spec fn consensus_digest(&self) -> Seq<u8> {
        network_digest(*self)
    }

    fn consensus_hash(&self) -> (r: ConsensusHash) {
        ConsensusHash::digest(&encode_network_params(self))
    }
}

impl ConsensusHashable for Transaction {
    open spec fn consensus_digest(&self) -> Seq<u8> {
        crate::hash::sha3_256_of(encode_tx(self@))
    }

    fn consensus_hash(&self) -> (r: ConsensusHash) {
        ConsensusHash::digest(&encode_transaction(self))
    }
}

impl ConsensusHashable for Block {
    open spec fn consensus_digest(&self) -> Seq<u8> {
        block_digest(self@)
    }

    fn consensus_hash(&self) -> (r: ConsensusHash) {
        ConsensusHash::digest(&encode_block(self))
    }
}

/// Canonical encoding of the network parameters.
pub fn encode_network_params(n: &Network) -> (r: Vec<u8>)
    ensures
        r@ == encode_network(*n),
{
    let mut out: Vec<u8> = Vec::new();
    push_le(&mut out, n.difficulty as u64, 4);
    push_le(&mut out, n.timestamp as u64, 8);
    assert(out@ =~= encode_network(*n));
    out
}

} // verus!
