use blockchain::blockchain::{
    canonical_json, clone_blocks, clone_transactions, has_zero_suffix, Block, Blockchain,
    Transaction,
};

const GENESIS_TIME: &str = "2019-06-01T12:00:00Z";
const GENESIS_HASH: &str = "6fc1291601a6243f0f98ee141639c74f8be1206ea3aaf9f05c09d86d83ab1334";
const SECOND_TIME: &str = "2019-06-01T12:05:00Z";
const SECOND_HASH: &str = "b8c6fd2fba18c813d07604c43efec9ee45958a86612b2f5174685cc949969bca";

fn transaction(sender: &str, recipient: &str, amount: i64) -> Transaction {
    Transaction { sender: sender.to_string(), recipient: recipient.to_string(), amount }
}

fn genesis() -> Block {
    Block {
        index: 1,
        timestamp: GENESIS_TIME.to_string(),
        transactions: vec![],
        proof: 100,
        previous_hash: "0".to_string(),
    }
}

#[test]
fn fresh_ledger_holds_the_genesis_block() {
    let ledger = Blockchain::new_at(GENESIS_TIME.to_string());
    assert_eq!(ledger.chain.len(), 1);
    assert_eq!(ledger.chain[0], genesis());
    assert_eq!(ledger.chain[0].index, 1);
    assert_eq!(ledger.chain[0].proof, 100);
    assert_eq!(ledger.chain[0].previous_hash, "0");
    assert!(ledger.current_transaction.is_empty());
    assert!(ledger.nodes.is_empty());
}

#[test]
fn fresh_ledger_carries_the_time_of_its_making() {
    let ledger = Blockchain::new();
    assert_eq!(ledger.chain.len(), 1);
    assert_eq!(ledger.chain[0].index, 1);
    assert_eq!(ledger.chain[0].proof, 100);
    assert_eq!(ledger.chain[0].previous_hash, "0");
    assert!(ledger.chain[0].transactions.is_empty());
    let stamp = &ledger.chain[0].timestamp;
    assert!(stamp.ends_with('Z'));
    let parsed = chrono::DateTime::parse_from_rfc3339(stamp);
    assert!(parsed.is_ok());
    let year = chrono::Datelike::year(&parsed.unwrap());
    assert!(year >= 2024);
}

#[test]
fn empty_ledger_by_default() {
    let ledger = Blockchain::default();
    assert!(ledger.chain.is_empty());
    assert!(ledger.current_transaction.is_empty());
    assert!(ledger.nodes.is_empty());
    assert!(ledger.last_block().is_none());
}

#[test]
fn canonical_json_of_the_genesis_block() {
    assert_eq!(
        canonical_json(&genesis()),
        "{\"index\":1,\"timestamp\":\"2019-06-01T12:00:00Z\",\"transactions\":[],\"proof\":100,\"previous_hash\":\"0\"}"
    );
}

#[test]
fn canonical_json_lists_transactions_in_order() {
    let block = Block {
        index: 2,
        timestamp: SECOND_TIME.to_string(),
        transactions: vec![transaction("A", "B", 10), transaction("0", "miner1", 1)],
        proof: 47788,
        previous_hash: GENESIS_HASH.to_string(),
    };
    let expected = format!(
        "{}{}{}",
        "{\"index\":2,\"timestamp\":\"2019-06-01T12:05:00Z\",\"transactions\":[{\"sender\":\"A\",\"recipient\":\"B\",\"amount\":10},{\"sender\":\"0\",\"recipient\":\"miner1\",\"amount\":1}],\"proof\":47788,\"previous_hash\":\"",
        GENESIS_HASH,
        "\"}"
    );
    assert_eq!(canonical_json(&block), expected);
}

#[test]
fn canonical_json_of_three_transactions() {
    let block = Block {
        index: 3,
        timestamp: "t".to_string(),
        transactions: vec![transaction("a", "b", 1), transaction("c", "d", 2), transaction("e", "f", 3)],
        proof: 0,
        previous_hash: "".to_string(),
    };
    assert_eq!(
        canonical_json(&block),
        "{\"index\":3,\"timestamp\":\"t\",\"transactions\":[{\"sender\":\"a\",\"recipient\":\"b\",\"amount\":1},{\"sender\":\"c\",\"recipient\":\"d\",\"amount\":2},{\"sender\":\"e\",\"recipient\":\"f\",\"amount\":3}],\"proof\":0,\"previous_hash\":\"\"}"
    );
}

#[test]
fn canonical_json_escapes_text_and_signs_amounts() {
    let block = Block {
        index: 7,
        timestamp: "t\"x".to_string(),
        transactions: vec![transaction("a\\b\n", "ü\t\u{1}", -5)],
        proof: 3,
        previous_hash: "q".to_string(),
    };
    assert_eq!(
        canonical_json(&block),
        "{\"index\":7,\"timestamp\":\"t\\\"x\",\"transactions\":[{\"sender\":\"a\\\\b\\n\",\"recipient\":\"ü\\t\\u0001\",\"amount\":-5}],\"proof\":3,\"previous_hash\":\"q\"}"
    );
    assert_eq!(
        Blockchain::hash(&block),
        "3160b629c6438c644c61dd68d0f1d3506d8e56492f34879766a0dd373439eb74"
    );
}

#[test]
fn hash_of_the_genesis_block() {
    assert_eq!(Blockchain::hash(&genesis()), GENESIS_HASH);
}

#[test]
fn hash_is_the_same_for_the_same_fields() {
    let a = genesis();
    let b = a.clone();
    assert_eq!(Blockchain::hash(&a), Blockchain::hash(&b));
    assert_eq!(Blockchain::hash(&a), Blockchain::hash(&a));
}

#[test]
fn hash_changes_with_each_field() {
    let base = Block {
        index: 2,
        timestamp: SECOND_TIME.to_string(),
        transactions: vec![transaction("A", "B", 10)],
        proof: 5,
        previous_hash: "abc".to_string(),
    };
    let digest = Blockchain::hash(&base);
    let mut other = base.clone();
    other.index = 3;
    assert_ne!(Blockchain::hash(&other), digest);
    let mut other = base.clone();
    other.timestamp = "2019-06-01T12:05:01Z".to_string();
    assert_ne!(Blockchain::hash(&other), digest);
    let mut other = base.clone();
    other.transactions[0].amount = 11;
    assert_ne!(Blockchain::hash(&other), digest);
    let mut other = base.clone();
    other.transactions[0].sender = "C".to_string();
    assert_ne!(Blockchain::hash(&other), digest);
    let mut other = base.clone();
    other.transactions[0].recipient = "C".to_string();
    assert_ne!(Blockchain::hash(&other), digest);
    let mut other = base.clone();
    other.transactions.push(transaction("A", "B", 10));
    assert_ne!(Blockchain::hash(&other), digest);
    let mut other = base.clone();
    other.proof = 6;
    assert_ne!(Blockchain::hash(&other), digest);
    let mut other = base.clone();
    other.previous_hash = "abd".to_string();
    assert_ne!(Blockchain::hash(&other), digest);
}

#[test]
fn zero_suffix_needs_four_zeros_at_the_end() {
    assert!(has_zero_suffix("0000"));
    assert!(has_zero_suffix("ab0000"));
    assert!(has_zero_suffix("00000"));
    assert!(!has_zero_suffix("000"));
    assert!(!has_zero_suffix(""));
    assert!(!has_zero_suffix("00001"));
    assert!(!has_zero_suffix("0000a"));
    assert!(!has_zero_suffix("a000"));
    assert!(!has_zero_suffix("0a00"));
    assert!(!has_zero_suffix("00a0"));
    assert!(!has_zero_suffix("000a"));
    assert!(!has_zero_suffix("é000"));
}

#[test]
fn valid_proof_follows_the_digest_of_the_guess() {
    // SHA-256 of "100477880" ends in "0000"; the guess is "100" + "47788" + "0".
    assert!(Blockchain::valid_proof(100, 47788, &"0".to_string()));
    assert!(!Blockchain::valid_proof(100, 47787, &"0".to_string()));
    assert!(!Blockchain::valid_proof(100, 0, &"0".to_string()));
    assert!(!Blockchain::valid_proof(101, 47788, &"0".to_string()));
    assert!(!Blockchain::valid_proof(100, 47788, &"1".to_string()));
    assert!(Blockchain::valid_proof(0, 5735, &"".to_string()));
    assert!(Blockchain::valid_proof(1, 51042, &"abc".to_string()));
}

#[test]
fn proof_of_work_finds_the_smallest_proof() {
    let found = Blockchain::proof_of_work(&genesis());
    assert_eq!(found, Some(47788));
    for candidate in 0..47788u64 {
        assert!(!Blockchain::valid_proof(100, candidate, &"0".to_string()));
    }
}

#[test]
fn proof_of_work_reads_the_stored_previous_hash() {
    let last = Block {
        index: 9,
        timestamp: "any".to_string(),
        transactions: vec![transaction("x", "y", 3)],
        proof: 1,
        previous_hash: "abc".to_string(),
    };
    assert_eq!(Blockchain::proof_of_work(&last), Some(51042));
}

#[test]
fn new_transaction_joins_the_pool_and_names_the_next_block() {
    let mut ledger = Blockchain::new_at(GENESIS_TIME.to_string());
    let index = ledger.new_transaction("A", "B", 10);
    assert_eq!(index, 2);
    let index = ledger.new_transaction("C", "D", -4);
    assert_eq!(index, 2);
    assert_eq!(
        ledger.current_transaction,
        vec![transaction("A", "B", 10), transaction("C", "D", -4)]
    );
    assert_eq!(ledger.chain.len(), 1);
}

#[test]
fn new_transaction_on_an_empty_chain_names_the_first_block() {
    let mut ledger = Blockchain::default();
    assert_eq!(ledger.new_transaction("A", "B", 1), 1);
}

#[test]
fn new_block_empties_the_pool_into_the_block() {
    let mut ledger = Blockchain::new_at(GENESIS_TIME.to_string());
    ledger.new_transaction("A", "B", 10);
    ledger.new_transaction("C", "D", 20);
    let block = ledger.new_block_at(5, Some("abc"), SECOND_TIME.to_string());
    assert_eq!(
        block,
        Block {
            index: 2,
            timestamp: SECOND_TIME.to_string(),
            transactions: vec![transaction("A", "B", 10), transaction("C", "D", 20)],
            proof: 5,
            previous_hash: "abc".to_string(),
        }
    );
    assert_eq!(ledger.chain.len(), 2);
    assert_eq!(ledger.chain[1], block);
    assert!(ledger.current_transaction.is_empty());
}

#[test]
fn new_block_without_a_hash_stores_one() {
    let mut ledger = Blockchain::new_at(GENESIS_TIME.to_string());
    let block = ledger.new_block_at(5, None, SECOND_TIME.to_string());
    assert_eq!(block.previous_hash, "1");
    assert_eq!(block.index, 2);
}

#[test]
fn new_block_follows_the_index_of_the_last_block() {
    let mut ledger = Blockchain::default();
    ledger.chain.push(Block {
        index: 41,
        timestamp: "t".to_string(),
        transactions: vec![],
        proof: 0,
        previous_hash: "x".to_string(),
    });
    let block = ledger.new_block_at(1, Some("y"), "u".to_string());
    assert_eq!(block.index, 42);
    assert_eq!(ledger.new_transaction("a", "b", 1), 43);
}

#[test]
fn new_block_carries_the_time_of_the_call() {
    let mut ledger = Blockchain::new_at(GENESIS_TIME.to_string());
    ledger.new_transaction("A", "B", 10);
    let block = ledger.new_block(5, Some("abc"));
    assert_eq!(block.index, 2);
    assert_eq!(block.proof, 5);
    assert_eq!(block.previous_hash, "abc");
    assert_eq!(block.transactions, vec![transaction("A", "B", 10)]);
    assert!(chrono::DateTime::parse_from_rfc3339(&block.timestamp).is_ok());
    assert_eq!(ledger.chain[1], block);
}

#[test]
fn last_block_is_the_end_of_the_chain() {
    let mut ledger = Blockchain::new_at(GENESIS_TIME.to_string());
    assert_eq!(ledger.last_block(), Some(&genesis()));
    let block = ledger.new_block_at(5, Some("abc"), SECOND_TIME.to_string());
    assert_eq!(ledger.last_block(), Some(&block));
}

#[test]
fn mine_after_one_submission() {
    let mut ledger = Blockchain::new_at(GENESIS_TIME.to_string());
    ledger.new_transaction("A", "B", 10);
    let block = ledger.mine_at("miner1", SECOND_TIME.to_string()).unwrap();
    assert_eq!(ledger.chain.len(), 2);
    assert_eq!(
        block.transactions,
        vec![transaction("A", "B", 10), transaction("0", "miner1", 1)]
    );
    assert_eq!(block.previous_hash, Blockchain::hash(&genesis()));
    assert_eq!(block.previous_hash, GENESIS_HASH);
    assert_eq!(block.index, 2);
    assert_eq!(block.proof, 47788);
    assert_eq!(block.timestamp, SECOND_TIME);
    assert_eq!(ledger.chain[1], block);
    assert!(ledger.current_transaction.is_empty());
    assert_eq!(Blockchain::hash(&block), SECOND_HASH);
}

#[test]
fn mine_keeps_the_order_of_submissions() {
    let mut ledger = Blockchain::new_at(GENESIS_TIME.to_string());
    ledger.new_transaction("A", "B", 1);
    ledger.new_transaction("B", "C", 2);
    ledger.new_transaction("C", "A", 3);
    let block = ledger.mine_at("m", SECOND_TIME.to_string()).unwrap();
    assert_eq!(
        block.transactions,
        vec![
            transaction("A", "B", 1),
            transaction("B", "C", 2),
            transaction("C", "A", 3),
            transaction("0", "m", 1),
        ]
    );
    let block = ledger.mine_at("m", SECOND_TIME.to_string()).unwrap();
    assert_eq!(block.transactions, vec![transaction("0", "m", 1)]);
}

#[test]
fn mine_with_the_clock() {
    let mut ledger = Blockchain::new();
    ledger.new_transaction("A", "B", 10);
    let first = ledger.chain[0].clone();
    let block = ledger.mine("miner1").unwrap();
    assert_eq!(ledger.chain.len(), 2);
    assert_eq!(block.index, 2);
    assert_eq!(block.proof, 47788);
    assert_eq!(block.previous_hash, Blockchain::hash(&first));
    assert_eq!(
        block.transactions,
        vec![transaction("A", "B", 10), transaction("0", "miner1", 1)]
    );
    assert!(chrono::DateTime::parse_from_rfc3339(&block.timestamp).is_ok());
    assert!(ledger.valid_chain(&ledger.chain));
}

#[test]
fn mined_chains_are_valid() {
    let mut ledger = Blockchain::new_at(GENESIS_TIME.to_string());
    assert!(ledger.valid_chain(&ledger.chain));
    for round in 0..3i64 {
        ledger.new_transaction("A", "B", round);
        let block = ledger.mine_at("miner1", SECOND_TIME.to_string()).unwrap();
        assert_eq!(block.index, round as u64 + 2);
        assert!(ledger.valid_chain(&ledger.chain));
    }
    assert_eq!(ledger.chain.len(), 4);
    assert_eq!(ledger.chain[2].proof, 27859);
    for i in 1..ledger.chain.len() {
        assert_eq!(ledger.chain[i].index, ledger.chain[i - 1].index + 1);
        assert_eq!(ledger.chain[i].previous_hash, Blockchain::hash(&ledger.chain[i - 1]));
        assert!(Blockchain::valid_proof(
            ledger.chain[i - 1].proof,
            ledger.chain[i].proof,
            &ledger.chain[i - 1].previous_hash
        ));
    }
}

#[test]
fn short_chains_are_valid() {
    let ledger = Blockchain::default();
    assert!(ledger.valid_chain(&[]));
    assert!(ledger.valid_chain(&[genesis()]));
    let odd = Block {
        index: 77,
        timestamp: "x".to_string(),
        transactions: vec![],
        proof: 1,
        previous_hash: "no digest".to_string(),
    };
    assert!(ledger.valid_chain(&[odd]));
}

#[test]
fn broken_links_make_a_chain_invalid() {
    let mut ledger = Blockchain::new_at(GENESIS_TIME.to_string());
    ledger.mine_at("m", SECOND_TIME.to_string()).unwrap();
    ledger.mine_at("m", SECOND_TIME.to_string()).unwrap();
    assert!(ledger.valid_chain(&ledger.chain));

    let mut wrong_hash = clone_blocks(&ledger.chain);
    wrong_hash[2].previous_hash = GENESIS_HASH.to_string();
    assert!(!ledger.valid_chain(&wrong_hash));

    let mut wrong_proof = clone_blocks(&ledger.chain);
    wrong_proof[2].proof += 1;
    assert!(!ledger.valid_chain(&wrong_proof));

    let mut tampered = clone_blocks(&ledger.chain);
    tampered[1].transactions[0].amount = 1000;
    assert!(!ledger.valid_chain(&tampered));

    let mut tampered_first = clone_blocks(&ledger.chain);
    tampered_first[0].timestamp = "2020-01-01T00:00:00Z".to_string();
    assert!(!ledger.valid_chain(&tampered_first));
}

#[test]
fn proof_is_checked_against_the_stored_hash_of_the_earlier_block() {
    // The second block's proof solves the puzzle of ("100", "0"), the
    // genesis block's own fields, not that of the genesis block's digest.
    let first = genesis();
    let second = Block {
        index: 2,
        timestamp: SECOND_TIME.to_string(),
        transactions: vec![],
        proof: 47788,
        previous_hash: GENESIS_HASH.to_string(),
    };
    assert!(!Blockchain::valid_proof(100, 47788, &GENESIS_HASH.to_string()));
    let ledger = Blockchain::default();
    assert!(ledger.valid_chain(&[first, second]));
}

#[test]
fn indices_are_not_part_of_validity() {
    let first = genesis();
    let second = Block {
        index: 9,
        timestamp: SECOND_TIME.to_string(),
        transactions: vec![],
        proof: 47788,
        previous_hash: GENESIS_HASH.to_string(),
    };
    let ledger = Blockchain::default();
    assert!(ledger.valid_chain(&[first, second]));
}

#[test]
fn copies_are_equal_to_what_they_copy() {
    let list = vec![transaction("A", "B", 1), transaction("C", "D", 2)];
    assert_eq!(clone_transactions(&list), list);
    let blocks = vec![genesis(), genesis()];
    assert_eq!(clone_blocks(&blocks), blocks);
    let one = transaction("x", "y", -3);
    assert_eq!(one.clone(), one);
}

#[test]
fn digest_has_sixty_four_characters() {
    assert_eq!(Blockchain::hash(&genesis()).len(), 64);
    assert_eq!(Blockchain::hash(&genesis()).chars().count(), 64);
}

#[test]
fn block_without_a_previous_hash_breaks_the_chain() {
    let mut ledger = Blockchain::new_at(GENESIS_TIME.to_string());
    assert!(ledger.valid_chain(&ledger.chain));
    let block = ledger.new_block_at(47788, None, SECOND_TIME.to_string());
    assert_eq!(block.previous_hash, "1");
    assert!(!ledger.valid_chain(&ledger.chain));
}

#[test]
fn wire_form_tells_the_order_of_transactions() {
    let one = Block {
        index: 2,
        timestamp: SECOND_TIME.to_string(),
        transactions: vec![transaction("A", "B", 1), transaction("C", "D", 2)],
        proof: 5,
        previous_hash: "abc".to_string(),
    };
    let mut other = one.clone();
    other.transactions.swap(0, 1);
    assert_ne!(canonical_json(&one), canonical_json(&other));
    assert_ne!(Blockchain::hash(&one), Blockchain::hash(&other));
    let mut shorter = one.clone();
    shorter.transactions.pop();
    assert_ne!(canonical_json(&one), canonical_json(&shorter));
    assert_ne!(Blockchain::hash(&one), Blockchain::hash(&shorter));
}

#[test]
fn wire_form_keeps_text_and_punctuation_apart() {
    // A sender that looks like the end of one field and the start of the
    // next is still one sender.
    let plain = Block {
        index: 1,
        timestamp: "t".to_string(),
        transactions: vec![transaction("a", "b", 1)],
        proof: 0,
        previous_hash: "h".to_string(),
    };
    let mut tricky = plain.clone();
    tricky.transactions[0].sender = "a\",\"recipient\":\"b".to_string();
    assert_ne!(canonical_json(&plain), canonical_json(&tricky));
    assert_eq!(
        canonical_json(&tricky),
        "{\"index\":1,\"timestamp\":\"t\",\"transactions\":[{\"sender\":\"a\\\",\\\"recipient\\\":\\\"b\",\"recipient\":\"b\",\"amount\":1}],\"proof\":0,\"previous_hash\":\"h\"}"
    );
}
