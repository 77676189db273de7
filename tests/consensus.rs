use powchain::chain::{BlockchainError, NodeDatabase};
use powchain::encoding::ConsensusHashable;
use powchain::hash::{ConsensusHash, ConsensusHashError};
use powchain::ledger::AccountBalanceMap;
use powchain::mempool::Mempool;
use powchain::miner::{
    add_coinbase, create_coinbase_transaction, mine_block, next_mining_step, should_keep_mining,
    MinerArgs, MinerError, MiningStep, NetworkClient,
};
use powchain::peer::Peer;
use powchain::types::{Block, Network, Transaction};
use powchain::BLOCK_SUBSIDY;

fn hash_with(prefix: &[u8]) -> ConsensusHash {
    let mut bytes = [0u8; 32];
    bytes[..prefix.len()].copy_from_slice(prefix);
    ConsensusHash(bytes)
}

fn tx(sender: &str, recipient: &str, amount: u64) -> Transaction {
    Transaction::new(sender.to_string(), recipient.to_string(), amount)
}

fn network() -> Network {
    Network { difficulty: 0, timestamp: 1_600_000_000_000 }
}

/// Seals the node's current template for `miner` and appends it.
fn mine_next(db: &mut NodeDatabase, miner: &str) -> Block {
    let template = db.new_template();
    let sealed = add_coinbase(&template, miner.to_string());
    let block = mine_block(&sealed, 1000, db.get_network().difficulty).unwrap();
    db.append_block(&block).unwrap();
    block
}

fn args(max_blocks: u64) -> MinerArgs {
    MinerArgs {
        miner_address: "miner".to_string(),
        node_url: "http://localhost:8000".to_string(),
        difficulty: 10,
        max_nonce: 1_000_000,
        max_blocks,
    }
}

#[test]
fn difficulty_zero_accepts_every_hash() {
    assert!(ConsensusHash([0xff; 32]).meets_difficulty(0));
    assert!(ConsensusHash::zero().meets_difficulty(0));
}

#[test]
fn difficulty_one_needs_top_bit_clear() {
    assert!(hash_with(&[0x7f, 0xff]).meets_difficulty(1));
    assert!(!hash_with(&[0x80]).meets_difficulty(1));
}

#[test]
fn difficulty_inside_a_byte_uses_numeric_rule() {
    // target for 9 is 0x007fff..ff
    assert!(hash_with(&[0x00, 0x7f, 0xff]).meets_difficulty(9));
    assert!(!hash_with(&[0x00, 0x80]).meets_difficulty(9));
    // target for 12 is 0x000fff..ff
    assert!(hash_with(&[0x00, 0x0f]).meets_difficulty(12));
    assert!(!hash_with(&[0x00, 0x10]).meets_difficulty(12));
}

#[test]
fn difficulty_256_and_beyond_accept_only_zero() {
    assert!(ConsensusHash::zero().meets_difficulty(256));
    assert!(ConsensusHash::zero().meets_difficulty(300));
    let mut last = [0u8; 32];
    last[31] = 1;
    assert!(!ConsensusHash(last).meets_difficulty(256));
    assert!(ConsensusHash(last).meets_difficulty(255));
}

#[test]
fn leading_zeros_counts_bits() {
    assert_eq!(ConsensusHash::zero().leading_zeros(), 256);
    assert_eq!(hash_with(&[0x00, 0x10]).leading_zeros(), 11);
    assert_eq!(hash_with(&[0x80]).leading_zeros(), 0);
}

#[test]
fn hex_round_trip_is_lowercase() {
    let h = hash_with(&[0xab, 0x01]);
    let text = h.to_hex();
    assert_eq!(text.len(), 64);
    assert!(text.starts_with("ab01"));
    assert_eq!(ConsensusHash::from_hex(&text), Ok(h));
    assert_eq!(ConsensusHash::from_hex(&text.to_uppercase()), Ok(h));
}

#[test]
fn hex_decode_errors() {
    assert_eq!(ConsensusHash::from_hex("zz"), Err(ConsensusHashError::InvalidFormat));
    assert_eq!(ConsensusHash::from_hex("abc"), Err(ConsensusHashError::InvalidFormat));
    assert_eq!(ConsensusHash::from_hex("abcd"), Err(ConsensusHashError::InvalidLength));
    assert_eq!(ConsensusHash::from_bytes(&vec![1, 2, 3]), Err(ConsensusHashError::InvalidLength));
    assert_eq!(ConsensusHash::from_bytes(&vec![7u8; 32]), Ok(ConsensusHash([7u8; 32])));
}

#[test]
fn digest_is_sha3_256() {
    let h = ConsensusHash::digest(&Vec::new());
    assert_eq!(
        h.to_hex(),
        "a7ffc6f8bf1ed76651c14756a061d662f580ff4de43b49fa82d80a4b80f8434a"
    );
}

#[test]
fn ledger_transfer_rules() {
    let mut ledger = AccountBalanceMap::new();
    assert_eq!(ledger.get_balance(&"alice".to_string()), 0);
    ledger.add_amount(&"alice".to_string(), 100);
    assert_eq!(ledger.transfer(&"alice".to_string(), &"bob".to_string(), 101), Err(BlockchainError::InsufficientFunds));
    assert_eq!(ledger.get_balance(&"alice".to_string()), 100);
    assert_eq!(ledger.transfer(&"alice".to_string(), &"bob".to_string(), 60), Ok(()));
    assert_eq!(ledger.get_balance(&"alice".to_string()), 40);
    assert_eq!(ledger.get_balance(&"bob".to_string()), 60);
    assert_eq!(ledger.transfer(&"bob".to_string(), &"bob".to_string(), 60), Ok(()));
    assert_eq!(ledger.get_balance(&"bob".to_string()), 60);
    assert_eq!(ledger.total_supply(), 100);
}

#[test]
fn ledger_block_errors_and_sequential_solvency() {
    let ledger = AccountBalanceMap::new();
    assert!(matches!(ledger.apply_block_transactions(&vec![]), Err(BlockchainError::CoinbaseMissing)));
    assert!(matches!(
        ledger.apply_block_transactions(&vec![tx("", "m", 99)]),
        Err(BlockchainError::InvalidCoinbaseAmount)
    ));
    let ok = ledger
        .apply_block_transactions(&vec![tx("", "m", 100), tx("m", "a", 60), tx("m", "b", 40)])
        .unwrap();
    assert_eq!(ok.get_balance(&"m".to_string()), 0);
    assert_eq!(ok.get_balance(&"a".to_string()), 60);
    assert_eq!(ok.get_balance(&"b".to_string()), 40);
    assert!(matches!(
        ledger.apply_block_transactions(&vec![tx("", "m", 100), tx("m", "a", 60), tx("m", "b", 41)]),
        Err(BlockchainError::InsufficientFunds)
    ));
    assert_eq!(ledger.total_supply(), 0);
}

#[test]
fn genesis_is_identical_across_instances() {
    let a = NodeDatabase::new(network());
    let b = NodeDatabase::new(network());
    let ga = a.get_tip_block().unwrap();
    let gb = b.get_tip_block().unwrap();
    assert_eq!(ga, gb);
    assert_eq!(ga.hash, gb.hash);
    assert_eq!(ga.index, 0);
    assert!(ga.transactions.is_empty());
    assert_eq!(ga.timestamp, network().timestamp);
    assert_eq!(ga.previous_hash, network().consensus_hash());
    assert_eq!(ga.hash, ga.calculate_hash());
    let other = NodeDatabase::new(Network { difficulty: 0, timestamp: 5 });
    assert_ne!(other.get_tip_block().unwrap().hash, ga.hash);
}

#[test]
fn replayed_block_is_rejected_with_invalid_index() {
    let mut db = NodeDatabase::new(network());
    let first = mine_next(&mut db, "m");
    mine_next(&mut db, "m");
    assert_eq!(db.append_block(&first), Err(BlockchainError::InvalidIndex));
    let tip = db.get_tip_block().unwrap();
    assert_eq!(db.append_block(&tip), Err(BlockchainError::InvalidIndex));
    assert_eq!(db.get_all_blocks().len(), 3);
}

#[test]
fn append_checks_in_order() {
    let mut db = NodeDatabase::new(network());
    let template = db.new_template();
    let sealed = add_coinbase(&template, "m".to_string());

    let mut wrong_prev = sealed.clone();
    wrong_prev.previous_hash = ConsensusHash([1u8; 32]);
    wrong_prev.hash = wrong_prev.calculate_hash();
    assert_eq!(db.append_block(&wrong_prev), Err(BlockchainError::InvalidPreviousHash));

    let mut tampered = sealed.clone();
    tampered.nonce = 77;
    assert_eq!(db.append_block(&tampered), Err(BlockchainError::InvalidHash));

    let mut no_coinbase = template.clone();
    no_coinbase.hash = no_coinbase.calculate_hash();
    assert_eq!(db.append_block(&no_coinbase), Err(BlockchainError::CoinbaseMissing));

    let mut hard = NodeDatabase::new(Network { difficulty: 255, timestamp: 0 });
    let t2 = add_coinbase(&hard.new_template(), "m".to_string());
    assert_eq!(hard.append_block(&t2), Err(BlockchainError::InvalidDifficulty));

    assert_eq!(db.get_all_blocks().len(), 1);
    assert_eq!(db.append_block(&sealed), Ok(()));
    assert_eq!(db.get_account_balance(&"m".to_string()), BLOCK_SUBSIDY);
}

#[test]
fn accepted_hashes_meet_target() {
    let net = Network { difficulty: 4, timestamp: 0 };
    let mut db = NodeDatabase::new(net);
    for _ in 0..3 {
        let b = mine_next(&mut db, "m");
        assert!(b.hash.meets_difficulty(4));
        assert!(b.hash.0[0] <= 0x0f);
    }
}

#[test]
fn conservation_of_supply() {
    let mut db = NodeDatabase::new(network());
    let before = db.total_supply();
    mine_next(&mut db, "a");
    db.add_transaction(tx("a", "b", 30)).unwrap();
    mine_next(&mut db, "c");
    mine_next(&mut db, "a");
    assert_eq!(db.total_supply() - before, 3 * BLOCK_SUBSIDY);
    assert_eq!(db.get_account_balance(&"a".to_string()), 170);
    assert_eq!(db.get_account_balance(&"b".to_string()), 30);
    assert_eq!(db.get_account_balance(&"c".to_string()), 100);
}

#[test]
fn overdraft_block_leaves_state_unchanged() {
    let mut db = NodeDatabase::new(network());
    mine_next(&mut db, "a");
    let template = db.new_template();
    let mut block = add_coinbase(&template, "m".to_string());
    block.transactions.push(tx("a", "b", 150));
    block.hash = block.calculate_hash();
    let blocks_before = db.get_all_blocks();
    let a_before = db.get_account_balance(&"a".to_string());
    let m_before = db.get_account_balance(&"m".to_string());
    let supply_before = db.total_supply();
    assert_eq!(db.append_block(&block), Err(BlockchainError::InsufficientFunds));
    assert_eq!(db.get_all_blocks(), blocks_before);
    assert_eq!(db.get_account_balance(&"a".to_string()), a_before);
    assert_eq!(db.get_account_balance(&"m".to_string()), m_before);
    assert_eq!(db.get_account_balance(&"b".to_string()), 0);
    assert_eq!(db.total_supply(), supply_before);
}

#[test]
fn mempool_round_trip() {
    let mut pool = Mempool::new();
    let (t1, t2, t3) = (tx("a", "b", 1), tx("a", "c", 2), tx("b", "c", 3));
    pool.add_transaction(t1.clone());
    pool.add_transaction(t2.clone());
    pool.add_transaction(t3.clone());
    assert_eq!(pool.get_transactions(), vec![t1.clone(), t2.clone(), t3.clone()]);
    pool.remove_transactions(&vec![create_coinbase_transaction("m".to_string()), t2.clone()]);
    assert_eq!(pool.get_transactions(), vec![t1, t3]);
}

#[test]
fn node_prunes_mempool_only_on_commit() {
    let mut db = NodeDatabase::new(network());
    mine_next(&mut db, "a");
    let (t1, t2, t3) = (tx("a", "b", 1), tx("a", "c", 2), tx("a", "d", 3));
    db.add_transaction(t1.clone()).unwrap();
    db.add_transaction(t2.clone()).unwrap();
    db.add_transaction(t3.clone()).unwrap();
    assert_eq!(db.get_mempool_transactions(), vec![t1.clone(), t2.clone(), t3.clone()]);
    assert_eq!(db.add_transaction(tx("z", "a", 1)), Err(BlockchainError::InsufficientFunds));

    let tip = db.get_tip_block().unwrap();
    let template = Block::with_timestamp(tip.index + 1, 9, 0, tip.hash, vec![t2.clone()]);
    let sealed = add_coinbase(&template, "m".to_string());
    let mut unmined = sealed.clone();
    unmined.nonce = 5;
    assert!(db.append_block(&unmined).is_err());
    assert_eq!(db.get_mempool_transactions().len(), 3);

    let block = mine_block(&sealed, 10, 0).unwrap();
    db.append_block(&block).unwrap();
    assert_eq!(db.get_mempool_transactions(), vec![t1, t3]);
}

#[test]
fn pending_transactions_are_not_checked_together() {
    let mut db = NodeDatabase::new(network());
    mine_next(&mut db, "a");
    assert_eq!(db.add_transaction(tx("a", "b", 80)), Ok(()));
    assert_eq!(db.add_transaction(tx("a", "c", 80)), Ok(()));
    assert_eq!(db.get_mempool_transactions().len(), 2);
}

#[test]
fn peer_pull_stops_at_first_invalid_block() {
    let mut local = NodeDatabase::new(network());
    for _ in 0..5 {
        mine_next(&mut local, "a");
    }
    let mut remote = NodeDatabase::new(network());
    let shared = local.get_all_blocks();
    for b in shared.iter().skip(1) {
        remote.append_block(b).unwrap();
    }
    for _ in 0..4 {
        mine_next(&mut remote, "b");
    }
    let mut peer_blocks = remote.get_all_blocks();
    assert_eq!(peer_blocks.len(), 10);

    let selected = Peer::get_new_blocks_from_peer(6, &peer_blocks);
    let indices: Vec<u64> = selected.iter().map(|b| b.index).collect();
    assert_eq!(indices, vec![6, 7, 8, 9]);

    peer_blocks[8].nonce += 1;
    let added = Peer::try_receive_new_blocks(&mut local, &peer_blocks);
    assert_eq!(added, 2);
    assert_eq!(local.get_tip_block().unwrap().index, 7);
    assert_eq!(local.get_all_blocks()[7], peer_blocks[7]);
}

#[test]
fn peer_pull_ignores_peers_not_ahead() {
    let mut local = NodeDatabase::new(network());
    mine_next(&mut local, "a");
    let peer_blocks = local.get_all_blocks();
    assert_eq!(Peer::try_receive_new_blocks(&mut local, &peer_blocks), 0);
    assert!(Peer::get_new_blocks_from_peer(0, &vec![]).is_empty());
    assert!(Peer::get_new_blocks_from_peer(5, &peer_blocks).is_empty());
}

#[test]
fn push_selects_blocks_beyond_watermark() {
    let mut db = NodeDatabase::new(network());
    for _ in 0..3 {
        mine_next(&mut db, "a");
    }
    let all = db.get_all_blocks();
    assert_eq!(Peer::get_new_blocks_since(&all, None).len(), 4);
    let since: Vec<u64> = Peer::get_new_blocks_since(&all, Some(1)).iter().map(|b| b.index).collect();
    assert_eq!(since, vec![2, 3]);
    assert!(Peer::get_new_blocks_since(&all, Some(3)).is_empty());
    assert_eq!(Peer::next_watermark(&all, Some(1)), Some(3));
    assert_eq!(Peer::next_watermark(&vec![], Some(1)), Some(1));
    let peer = Peer::new(vec!["http://peer-a".to_string()], 500);
    assert_eq!(peer.peer_sync_ms, 500);
}

#[test]
fn mining_difficulty_one_is_deterministic() {
    let template = Block::with_timestamp(1, 42, 0, ConsensusHash::zero(), vec![]);
    let sealed = add_coinbase(&template, "m".to_string());
    assert_eq!(sealed.transactions.len(), 1);
    assert_eq!(sealed.hash, sealed.calculate_hash());
    let first = mine_block(&sealed, 1000, 1);
    let second = mine_block(&sealed, 1000, 1);
    assert_eq!(first, second);
    match first {
        Ok(block) => {
            assert!(block.nonce < 1000);
            assert!(block.hash.meets_difficulty(1));
            assert_eq!(block.hash, block.calculate_hash());
            assert_eq!(block.timestamp, 42);
        }
        Err(e) => assert_eq!(e, MinerError::BlockNotMined(1)),
    }
}

#[test]
fn mining_exhaustion_reports_index() {
    let template = Block::with_timestamp(7, 0, 0, ConsensusHash::zero(), vec![]);
    assert_eq!(mine_block(&template, 0, 0), Err(MinerError::BlockNotMined(7)));
    assert_eq!(mine_block(&template, 50, 300), Err(MinerError::BlockNotMined(7)));
    let found = mine_block(&template, 5, 0).unwrap();
    assert_eq!(found.nonce, 0);
}

#[test]
fn coinbase_and_mining_cycle_decisions() {
    let cb = create_coinbase_transaction("m".to_string());
    assert_eq!(cb, tx("", "m", BLOCK_SUBSIDY));
    assert!(should_keep_mining(1_000, &args(0)));
    assert!(should_keep_mining(1, &args(2)));
    assert!(!should_keep_mining(2, &args(2)));
    assert_eq!(next_mining_step(2, false, &args(2), false), MiningStep::Stop);
    assert_eq!(next_mining_step(0, true, &args(0), true), MiningStep::Mine);
    assert_eq!(next_mining_step(0, false, &args(0), true), MiningStep::Wait);
    assert_eq!(next_mining_step(1, true, &args(0), true), MiningStep::Wait);
    assert_eq!(next_mining_step(1, false, &args(0), false), MiningStep::Mine);
    assert_eq!(NetworkClient::new("http://x".to_string()).node_url, "http://x");
}

#[test]
fn block_hash_covers_every_field() {
    let base = Block::with_timestamp(3, 10, 1, ConsensusHash::zero(), vec![tx("", "m", 100)]);
    let mut other = base.clone();
    other.timestamp = 11;
    assert_ne!(other.calculate_hash(), base.hash);
    let mut other = base.clone();
    other.transactions[0].recipient = "n".to_string();
    assert_ne!(other.calculate_hash(), base.hash);
    let mut cleared = base.clone();
    cleared.hash = ConsensusHash([9u8; 32]);
    assert_eq!(cleared.calculate_hash(), base.hash);
    assert_eq!(base.consensus_hash(), base.hash);
    assert_ne!(tx("a", "b", 1).consensus_hash(), tx("a", "b", 2).consensus_hash());
}

#[test]
fn coinbase_must_come_from_null_address() {
    let ledger = AccountBalanceMap::new();
    assert!(matches!(
        ledger.apply_block_transactions(&vec![tx("alice", "m", 100)]),
        Err(BlockchainError::CoinbaseMissing)
    ));
    assert!(matches!(
        ledger.apply_block_transactions(&vec![tx("alice", "m", 99)]),
        Err(BlockchainError::InvalidCoinbaseAmount)
    ));
    let mut db = NodeDatabase::new(network());
    let template = db.new_template();
    let mut block = template.clone();
    block.transactions.insert(0, tx("alice", "m", BLOCK_SUBSIDY));
    block.hash = block.calculate_hash();
    assert_eq!(db.append_block(&block), Err(BlockchainError::CoinbaseMissing));
    assert_eq!(db.get_account_balance(&"m".to_string()), 0);
    assert_eq!(db.get_all_blocks().len(), 1);
}

#[test]
fn push_to_one_peer_stops_at_first_failed_delivery() {
    assert_eq!(Peer::next_push_position(true, 0, 3), Some(1));
    assert_eq!(Peer::next_push_position(true, 2, 3), None);
    assert_eq!(Peer::next_push_position(false, 0, 3), None);
}
