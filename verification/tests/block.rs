use blockchainpow::blockchain::block::{calculate_hash, starts_with_zeros, Block};
use blockchainpow::wallet::transaction::Transaction;

fn unsigned(from: &str, to: &str, amount: u64) -> Transaction {
    Transaction {
        from_address: from.into(),
        to_address: to.into(),
        amount,
        public_key: None,
        signature: None,
    }
}

#[test]
fn test_block_creation() {
    let block = Block::new(0, vec![], "0".to_string());

    assert_eq!(block.index, 0, "the first index is 0");
    assert_eq!(block.transactions.len(), 0, "no transactions were given");
    assert_eq!(block.previous_hash, "0");
    assert_eq!(block.nonce, 0, "the nonce starts at 0");
    assert_ne!(block.timestamp, 0, "the timestamp is set");
    assert!(!block.hash.is_empty(), "the hash is filled in");
}

#[test]
fn test_mine_block_increases_nonce_and_validates() {
    let mut block = Block::new(1, vec![], "hash-do-bloco-anterior".to_string());
    let difficulty = 2;

    assert!(!block.hash.starts_with("00"));

    block.mine_block(difficulty);

    let prefix = "0".repeat(difficulty as usize);
    assert!(
        block.hash.starts_with(&prefix),
        "the hash must start with {} zeros after mining",
        difficulty
    );

    assert!(block.nonce > 0, "mining must raise the nonce");

    assert!(block.is_valid(difficulty), "a mined block is valid at its difficulty");
}

#[test]
fn test_is_valid_after_tampering_nonce() {
    let mut block = Block::new(2, vec![], "prev-hash".to_string());
    let difficulty = 1;
    block.mine_block(difficulty);

    assert!(block.is_valid(difficulty));

    block.nonce += 1;

    assert!(!block.is_valid(difficulty), "a changed nonce must make the block invalid");
}

#[test]
fn test_is_valid_after_tampering_transactions() {
    let tx1 = unsigned("Alice", "Bob", 50);
    let tx2 = unsigned("Carol", "Dave", 100);
    let mut block = Block::new(3, vec![tx1.clone(), tx2.clone()], "prev-hash".to_string());

    let difficulty = 1;
    block.mine_block(difficulty);

    assert!(block.is_valid(difficulty));

    block.transactions[0].amount = 999;

    assert!(!block.is_valid(difficulty), "changed transactions must make the block invalid");
}

#[test]
fn test_is_valid_after_tampering_previous_hash() {
    let mut block = Block::new(4, vec![], "prev-hash-abc".to_string());
    let difficulty = 1;
    block.mine_block(difficulty);

    assert!(block.is_valid(difficulty));

    block.previous_hash = "tampered-hash".to_string();
    assert!(!block.is_valid(difficulty), "a changed previous hash must make the block invalid");
}

#[test]
fn is_valid_after_tampering_index() {
    let mut block = Block::with_timestamp(4, 1700000000, vec![], "prev".to_string());
    assert!(block.mine_block(1));
    assert!(block.is_valid(1));

    block.index = 5;
    assert!(!block.is_valid(1));
}

#[test]
fn is_valid_after_tampering_timestamp() {
    let mut block = Block::with_timestamp(4, 1700000000, vec![], "prev".to_string());
    assert!(block.mine_block(1));
    assert!(block.is_valid(1));

    block.timestamp = 1700000001;
    assert!(!block.is_valid(1));
}

#[test]
fn is_valid_after_reordering_transactions() {
    let tx1 = unsigned("Alice", "Bob", 50);
    let tx2 = unsigned("Carol", "Dave", 100);
    let mut block = Block::with_timestamp(3, 1700000000, vec![tx1, tx2], "prev".to_string());
    assert!(block.mine_block(1));
    assert!(block.is_valid(1));

    block.transactions.swap(0, 1);
    assert!(!block.is_valid(1));
}

#[test]
fn is_valid_rejects_a_changed_hash() {
    let mut block = Block::with_timestamp(2, 1700000000, vec![], "prev-hash".to_string());
    assert!(block.mine_block(1));
    block.hash = "0000000000000000000000000000000000000000000000000000000000000000".to_string();
    assert!(!block.is_valid(1));
}

#[test]
fn calculate_hash_of_an_empty_block() {
    // The hash covers the bytes "12ab3".
    let hash = calculate_hash(1, 2, &vec![], "ab", 3);
    assert_eq!(hash, "3afe35774cdbcb1b32ff08881707b4e3c264a94420512b157a412af10db24850");
}

#[test]
fn calculate_hash_covers_the_transactions_in_order() {
    let tx1 = unsigned("Alice", "Bob", 50);
    let tx2 = Transaction {
        from_address: "Carol".into(),
        to_address: "Dave".into(),
        amount: 100,
        public_key: Some(vec![1, 2, 3]),
        signature: Some(vec![255, 0]),
    };
    let hash = calculate_hash(3, -7, &vec![tx1.clone(), tx2.clone()], "prev-hash", 0);
    assert_eq!(hash, "2a12f2ea0dec2cedcb7a40b30b1cdfed231181ea939a4f05ef074ff75613bc28");

    let swapped = calculate_hash(3, -7, &vec![tx2, tx1], "prev-hash", 0);
    assert_ne!(hash, swapped);
}

#[test]
fn encode_into_frames_every_field() {
    let tx = Transaction {
        from_address: "Carol".into(),
        to_address: "Dave".into(),
        amount: 100,
        public_key: Some(vec![1, 2, 3]),
        signature: None,
    };
    let mut buf = vec![b'>'];
    tx.encode_into(&mut buf);
    assert_eq!(buf, b">5:Carol4:Dave3:100+3:\x01\x02\x03-".to_vec());
}

#[test]
fn with_timestamp_keeps_every_field() {
    let block = Block::with_timestamp(0, 1700000000, vec![], "0".to_string());
    assert_eq!(block.index, 0);
    assert_eq!(block.timestamp, 1700000000);
    assert!(block.transactions.is_empty());
    assert_eq!(block.previous_hash, "0");
    assert_eq!(block.nonce, 0);
    assert_eq!(block.hash, "37f57659f355b43b3daeeaab7b535744335dcdeca20c1e5b124f1ff64a5d2d44");
    assert!(block.is_valid(0), "an unmined block is valid at difficulty 0");
}

#[test]
fn mine_block_stops_at_the_first_nonce_that_fits() {
    let mut block =
        Block::with_timestamp(1, 1700000000, vec![], "hash-do-bloco-anterior".to_string());
    assert_eq!(block.hash, "92bfa3b5afb26aea7cfaa89b66d90e8bdfa988db097e9cdb370dbb5ed94e204a");

    let found = block.mine_block(2);

    assert!(found);
    assert_eq!(block.nonce, 851);
    assert_eq!(block.hash, "00ce7bb34f5ac7c9f3047d5142ac0f86f382c035d3c336bfd80c7d05dbc0a1a5");
    assert_eq!(block.index, 1);
    assert_eq!(block.timestamp, 1700000000);
    assert_eq!(block.previous_hash, "hash-do-bloco-anterior");
    assert!(block.is_valid(2));
    assert!(block.is_valid(1));
    assert!(!block.is_valid(3));
}

#[test]
fn mine_block_starts_at_the_nonce_it_finds() {
    let mut block = Block::with_timestamp(5, -42, vec![], "p".to_string());
    block.nonce = 10;

    assert!(block.mine_block(1));

    assert_eq!(block.nonce, 23);
    assert_eq!(block.hash, "0af1b58b0c0edd5a5a50f103e1ae7e71de1d9ebf7f13ec9f46bee6dcb48b2479");
}

#[test]
fn mine_block_at_difficulty_zero_keeps_the_nonce() {
    let mut block = Block::with_timestamp(2, 1700000000, vec![], "prev-hash".to_string());
    block.hash = "stale".to_string();

    assert!(block.mine_block(0));

    assert_eq!(block.nonce, 0);
    assert_eq!(block.hash, calculate_hash(2, 1700000000, &vec![], "prev-hash", 0));
}

#[test]
fn mine_block_gives_up_at_the_largest_nonce() {
    // No hash has 65 characters, so no nonce can fit.
    let mut block = Block::with_timestamp(2, 1700000000, vec![], "prev-hash".to_string());
    block.nonce = u64::MAX - 2;

    let found = block.mine_block(65);

    assert!(!found);
    assert_eq!(block.nonce, u64::MAX);
    assert_eq!(block.hash, calculate_hash(2, 1700000000, &vec![], "prev-hash", u64::MAX));
    assert!(!block.is_valid(65));
}

#[test]
fn starts_with_zeros_counts_characters() {
    assert!(starts_with_zeros("000abc", 3));
    assert!(starts_with_zeros("000abc", 0));
    assert!(!starts_with_zeros("000abc", 4));
    assert!(!starts_with_zeros("00", 3));
    assert!(starts_with_zeros("00", 2));
    assert!(!starts_with_zeros("", 1));
    assert!(!starts_with_zeros("é00", 1));
    assert!(starts_with_zeros("0é", 1));
}

#[test]
fn a_cloned_block_equals_its_source() {
    let tx = unsigned("Alice", "Bob", 50);
    let mut block = Block::with_timestamp(7, 99, vec![tx], "prev".to_string());
    block.mine_block(1);
    let copy = block.clone();
    assert_eq!(copy, block);
}

#[test]
fn hash_agrees_with_needs_the_same_hash_and_the_zeros() {
    let mut block = Block::with_timestamp(1, 1700000000, vec![], "prev".to_string());
    block.hash = "00ab".to_string();
    assert!(block.hash_agrees_with("00ab", 2));
    assert!(block.hash_agrees_with("00ab", 0));
    assert!(!block.hash_agrees_with("00ab", 3));
    assert!(!block.hash_agrees_with("00ac", 2));
    assert!(!block.hash_agrees_with("00a", 1));
}

#[test]
fn a_change_of_two_fields_can_keep_the_hash() {
    // Index 1 with timestamp 23 and index 12 with timestamp 3 both start
    // the hash input with "123": the hash cannot tell them apart.
    let block = Block::with_timestamp(1, 23, vec![], "p".to_string());
    let mut shifted = block.clone();
    shifted.index = 12;
    shifted.timestamp = 3;
    assert_eq!(calculate_hash(12, 3, &vec![], "p", 0), block.hash);
    assert!(shifted.is_valid(0));
}
