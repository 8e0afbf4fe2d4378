use blockchainlib::block::Block;
use blockchainlib::blockchain::{Blockchain, BlockValidationErr, BLOCK_SUBSIDY};
use blockchainlib::hashable::Hashable;
use blockchainlib::transaction::{Output, Transaction};

const EASY: u128 = 0x00ff_ffff_ffff_ffff_ffff_ffff_ffff_ffff;
const START: u128 = 1_700_000_000_000;

fn output(to_addr: &str, value: u64) -> Output {
    Output {
        to_addr: to_addr.to_owned(),
        value,
    }
}

fn coinbase(outputs: Vec<Output>) -> Transaction {
    Transaction {
        inputs: vec![],
        outputs,
    }
}

fn mined(
    index: u32,
    timestamp: u128,
    prev_block_hash: Vec<u8>,
    transactions: Vec<Transaction>,
) -> Block {
    let mut block = Block::new(index, timestamp, prev_block_hash, transactions, EASY);
    assert!(block.mine());
    block
}

fn genesis() -> Block {
    mined(
        0,
        START,
        vec![0; 32],
        vec![coinbase(vec![output("Alice", 50), output("Bob", 7)])],
    )
}

fn chain_with_genesis() -> Blockchain {
    let mut chain = Blockchain::new();
    assert_eq!(chain.update_with_block(genesis()), Ok(()));
    chain
}

fn last_hash(chain: &Blockchain) -> Vec<u8> {
    chain.blocks.last().unwrap().hash.clone()
}

/// A second block that spends Alice's 50 into 45 and pays `reward` to Chris.
fn second_block(chain: &Blockchain, reward: u64) -> Block {
    mined(
        1,
        START + 1,
        last_hash(chain),
        vec![
            coinbase(vec![output("Chris", reward)]),
            Transaction {
                inputs: vec![output("Alice", 50)],
                outputs: vec![output("Alice", 40), output("Bob", 5)],
            },
        ],
    )
}

#[test]
fn new_chain_is_empty() {
    let chain = Blockchain::new();
    assert!(chain.blocks.is_empty());
    assert!(chain.verify());
}

#[test]
fn subsidy_is_zero() {
    assert_eq!(BLOCK_SUBSIDY, 0);
}

#[test]
fn genesis_is_accepted() {
    let mut chain = Blockchain::new();
    let block = genesis();
    let hash = block.hash.clone();
    assert_eq!(chain.update_with_block(block), Ok(()));
    assert_eq!(chain.blocks.len(), 1);
    assert_eq!(chain.blocks[0].hash, hash);
    assert_eq!(chain.blocks[0].index, 0);
}

#[test]
fn genesis_may_pay_any_amount() {
    for amount in [0, 1, 57, u64::MAX] {
        let mut chain = Blockchain::new();
        let block = mined(
            0,
            START,
            vec![0; 32],
            vec![coinbase(vec![output("Alice", amount)])],
        );
        assert_eq!(chain.update_with_block(block), Ok(()));
    }
}

#[test]
fn genesis_without_transactions_is_accepted() {
    let mut chain = Blockchain::new();
    assert_eq!(
        chain.update_with_block(mined(0, START, vec![0; 32], vec![])),
        Ok(())
    );
    assert_eq!(chain.blocks.len(), 1);
}

#[test]
fn genesis_with_nonzero_predecessor_is_rejected() {
    let mut chain = Blockchain::new();
    let mut predecessor = vec![0; 32];
    predecessor[17] = 1;
    let block = mined(
        0,
        START,
        predecessor,
        vec![coinbase(vec![output("Alice", 50)])],
    );
    assert_eq!(
        chain.update_with_block(block),
        Err(BlockValidationErr::InvalidGenesisBlockFormat)
    );
    assert!(chain.blocks.is_empty());
}

#[test]
fn genesis_with_short_predecessor_is_rejected() {
    let mut chain = Blockchain::new();
    let block = mined(0, START, vec![0; 31], vec![coinbase(vec![])]);
    assert_eq!(
        chain.update_with_block(block),
        Err(BlockValidationErr::InvalidGenesisBlockFormat)
    );
}

#[test]
fn genesis_with_nonzero_index_is_rejected() {
    let mut chain = Blockchain::new();
    let block = mined(1, START, vec![0; 32], vec![coinbase(vec![])]);
    assert_eq!(
        chain.update_with_block(block),
        Err(BlockValidationErr::MismatchedIndex)
    );
}

#[test]
fn genesis_cannot_spend() {
    let mut chain = Blockchain::new();
    let block = mined(
        0,
        START,
        vec![0; 32],
        vec![
            coinbase(vec![output("Alice", 50)]),
            Transaction {
                inputs: vec![output("Alice", 50)],
                outputs: vec![],
            },
        ],
    );
    assert_eq!(
        chain.update_with_block(block),
        Err(BlockValidationErr::InvalidInput)
    );
}

#[test]
fn coinbase_shape_is_checked_first() {
    let mut chain = Blockchain::new();
    let mut predecessor = vec![0; 32];
    predecessor[0] = 9;
    let mut block = Block::new(
        5,
        START,
        predecessor,
        vec![Transaction {
            inputs: vec![output("Alice", 50)],
            outputs: vec![],
        }],
        0,
    );
    block.hash = vec![1; 32];
    assert_eq!(
        chain.update_with_block(block),
        Err(BlockValidationErr::InvalidCoinbaseTransaction)
    );
}

#[test]
fn wrong_index_is_rejected_whatever_else_holds() {
    for index in [0, 2, 3, u32::MAX] {
        let mut chain = chain_with_genesis();
        let block = mined(
            index,
            START + 1,
            last_hash(&chain),
            vec![coinbase(vec![])],
        );
        assert_eq!(
            chain.update_with_block(block),
            Err(BlockValidationErr::MismatchedIndex)
        );
        assert_eq!(chain.blocks.len(), 1);
    }
}

#[test]
fn wrong_index_comes_before_later_rules() {
    let mut chain = chain_with_genesis();
    let mut block = Block::new(7, START - 5, vec![3; 32], vec![coinbase(vec![])], 0);
    block.hash = vec![1; 32];
    assert_eq!(
        chain.update_with_block(block),
        Err(BlockValidationErr::MismatchedIndex)
    );
}

#[test]
fn wrong_predecessor_is_rejected() {
    let mut chain = chain_with_genesis();
    let mut predecessor = last_hash(&chain);
    predecessor[31] ^= 0x80;
    let block = mined(1, START + 1, predecessor, vec![coinbase(vec![])]);
    assert_eq!(
        chain.update_with_block(block),
        Err(BlockValidationErr::MismatchedPreviousHash)
    );
    assert_eq!(chain.blocks.len(), 1);
}

#[test]
fn older_block_is_rejected() {
    let mut chain = chain_with_genesis();
    let block = mined(1, START - 1, last_hash(&chain), vec![coinbase(vec![])]);
    assert_eq!(
        chain.update_with_block(block),
        Err(BlockValidationErr::AchronologicalTimestamp)
    );
    assert_eq!(chain.blocks.len(), 1);
}

#[test]
fn equal_timestamp_is_accepted() {
    let mut chain = chain_with_genesis();
    let block = mined(1, START, last_hash(&chain), vec![coinbase(vec![])]);
    assert_eq!(chain.update_with_block(block), Ok(()));
    assert_eq!(chain.blocks.len(), 2);
}

#[test]
fn unmined_block_is_rejected() {
    let mut chain = chain_with_genesis();
    let block = Block::new(
        1,
        START + 1,
        last_hash(&chain),
        vec![coinbase(vec![])],
        u128::MAX,
    );
    assert_eq!(
        chain.update_with_block(block),
        Err(BlockValidationErr::InvalidHash)
    );
}

#[test]
fn changed_field_after_mining_is_rejected() {
    let mut chain = chain_with_genesis();
    let mut block = mined(1, START + 1, last_hash(&chain), vec![coinbase(vec![])]);
    block.timestamp += 1;
    assert_eq!(
        chain.update_with_block(block),
        Err(BlockValidationErr::InvalidHash)
    );
}

#[test]
fn stored_hash_must_be_the_digest() {
    let mut chain = chain_with_genesis();
    let mut block = mined(1, START + 1, last_hash(&chain), vec![coinbase(vec![])]);
    // Still meets the difficulty, but is no longer the digest.
    block.hash[0] ^= 1;
    assert_eq!(
        chain.update_with_block(block),
        Err(BlockValidationErr::InvalidHash)
    );
}

#[test]
fn check_block_takes_the_digest_it_is_given() {
    let chain = chain_with_genesis();
    let block = mined(1, START + 1, last_hash(&chain), vec![coinbase(vec![])]);
    let digest = block.hash();
    assert_eq!(chain.check_block(&block, &digest), Ok(()));
    let mut other = digest.clone();
    other[3] ^= 1;
    assert_eq!(
        chain.check_block(&block, &other),
        Err(BlockValidationErr::InvalidHash)
    );
    assert_eq!(
        chain.check_block(&block, &vec![0; 32]),
        Err(BlockValidationErr::InvalidHash)
    );
}

#[test]
fn check_block_applies_the_difficulty_to_the_digest() {
    let chain = chain_with_genesis();
    let mut block = Block::new(1, START + 1, last_hash(&chain), vec![], 5);
    let mut digest = vec![0xee; 32];
    for byte in digest.iter_mut().skip(16) {
        *byte = 0;
    }
    digest[16] = 5;
    block.hash = digest.clone();
    assert_eq!(chain.check_block(&block, &digest), Ok(()));
    block.difficulty = 4;
    assert_eq!(
        chain.check_block(&block, &digest),
        Err(BlockValidationErr::InvalidHash)
    );
}

#[test]
fn check_linkage_reports_the_first_broken_rule() {
    let chain = chain_with_genesis();
    let hash = last_hash(&chain);
    let spend_first = vec![Transaction {
        inputs: vec![output("Alice", 50)],
        outputs: vec![],
    }];
    assert_eq!(
        chain.check_linkage(&Block::new(9, 0, vec![], spend_first, 0)),
        Err(BlockValidationErr::InvalidCoinbaseTransaction)
    );
    assert_eq!(
        chain.check_linkage(&Block::new(9, 0, vec![], vec![], 0)),
        Err(BlockValidationErr::MismatchedIndex)
    );
    assert_eq!(
        chain.check_linkage(&Block::new(1, 0, vec![], vec![], 0)),
        Err(BlockValidationErr::MismatchedPreviousHash)
    );
    assert_eq!(
        chain.check_linkage(&Block::new(1, 0, hash.clone(), vec![], 0)),
        Err(BlockValidationErr::AchronologicalTimestamp)
    );
    assert_eq!(
        chain.check_linkage(&Block::new(1, START, hash, vec![], 0)),
        Ok(())
    );
}

#[test]
fn index_after_the_largest_cannot_follow() {
    let mut chain = Blockchain::new();
    let mut last = Block::new(u32::MAX, START, vec![0; 32], vec![], EASY);
    last.hash = vec![5; 32];
    chain.blocks.push(last);
    for index in [0, u32::MAX] {
        assert_eq!(
            chain.check_linkage(&Block::new(index, START, vec![5; 32], vec![], EASY)),
            Err(BlockValidationErr::MismatchedIndex)
        );
    }
}

#[test]
fn invented_input_is_rejected() {
    let mut chain = chain_with_genesis();
    let block = mined(
        1,
        START + 1,
        last_hash(&chain),
        vec![
            coinbase(vec![]),
            Transaction {
                inputs: vec![output("Nobody", 363893)],
                outputs: vec![],
            },
        ],
    );
    assert_eq!(
        chain.update_with_block(block),
        Err(BlockValidationErr::InvalidInput)
    );
    assert_eq!(chain.blocks.len(), 1);
}

#[test]
fn input_must_match_address_and_value() {
    for input in [output("Alice", 49), output("alice", 50), output("Bob", 50)] {
        let mut chain = chain_with_genesis();
        let block = mined(
            1,
            START + 1,
            last_hash(&chain),
            vec![
                coinbase(vec![]),
                Transaction {
                    inputs: vec![input],
                    outputs: vec![],
                },
            ],
        );
        assert_eq!(
            chain.update_with_block(block),
            Err(BlockValidationErr::InvalidInput)
        );
    }
}

#[test]
fn outputs_of_the_same_block_cannot_be_spent() {
    let mut chain = chain_with_genesis();
    let block = mined(
        1,
        START + 1,
        last_hash(&chain),
        vec![
            coinbase(vec![output("Chris", 0)]),
            Transaction {
                inputs: vec![output("Chris", 0)],
                outputs: vec![],
            },
        ],
    );
    assert_eq!(
        chain.update_with_block(block),
        Err(BlockValidationErr::InvalidInput)
    );
}

#[test]
fn chain_records_every_output_of_every_block() {
    let mut chain = chain_with_genesis();
    let block = second_block(&chain, 5);
    assert_eq!(chain.update_with_block(block), Ok(()));
    for known in [
        output("Alice", 50),
        output("Bob", 7),
        output("Chris", 5),
        output("Alice", 40),
        output("Bob", 5),
    ] {
        assert!(chain.records(&known));
    }
    for unknown in [output("Alice", 45), output("Chris", 50), output("", 0)] {
        assert!(!chain.records(&unknown));
    }
    assert!(chain.blocks[1].pays(&output("Chris", 5)));
    assert!(!chain.blocks[1].pays(&output("Bob", 7)));
}

#[test]
fn overspending_is_rejected() {
    let mut chain = chain_with_genesis();
    let block = mined(
        1,
        START + 1,
        last_hash(&chain),
        vec![
            coinbase(vec![]),
            Transaction {
                inputs: vec![output("Alice", 50), output("Bob", 7)],
                outputs: vec![output("Chris", 58)],
            },
        ],
    );
    assert_eq!(
        chain.update_with_block(block),
        Err(BlockValidationErr::InsufficientInputValue)
    );
}

#[test]
fn first_failing_transaction_decides() {
    let overspend = Transaction {
        inputs: vec![output("Bob", 7)],
        outputs: vec![output("Bob", 8)],
    };
    let invented = Transaction {
        inputs: vec![output("Nobody", 1)],
        outputs: vec![],
    };

    let mut chain = chain_with_genesis();
    let block = mined(
        1,
        START + 1,
        last_hash(&chain),
        vec![coinbase(vec![]), overspend.clone(), invented.clone()],
    );
    assert_eq!(
        chain.update_with_block(block),
        Err(BlockValidationErr::InsufficientInputValue)
    );

    let block = mined(
        1,
        START + 1,
        last_hash(&chain),
        vec![coinbase(vec![]), invented, overspend],
    );
    assert_eq!(
        chain.update_with_block(block),
        Err(BlockValidationErr::InvalidInput)
    );
}

#[test]
fn spending_errors_come_before_the_coinbase_fee() {
    let mut chain = chain_with_genesis();
    let block = mined(
        1,
        START + 1,
        last_hash(&chain),
        vec![
            coinbase(vec![output("Chris", 1000)]),
            Transaction {
                inputs: vec![output("Bob", 7)],
                outputs: vec![output("Bob", 8)],
            },
        ],
    );
    assert_eq!(
        chain.update_with_block(block),
        Err(BlockValidationErr::InsufficientInputValue)
    );
}

#[test]
fn coinbase_paying_subsidy_plus_fees_is_accepted() {
    let mut chain = chain_with_genesis();
    let fees = 50 - 45;
    let block = second_block(&chain, BLOCK_SUBSIDY + fees);
    assert_eq!(chain.update_with_block(block), Ok(()));
    assert_eq!(chain.blocks.len(), 2);
}

#[test]
fn coinbase_paying_anything_else_is_rejected() {
    for reward in [0, 4, 6, 57, u64::MAX] {
        let mut chain = chain_with_genesis();
        let block = second_block(&chain, reward);
        assert_eq!(
            chain.update_with_block(block),
            Err(BlockValidationErr::InvalidCoinbaseTransactionFee)
        );
        assert_eq!(chain.blocks.len(), 1);
    }
}

#[test]
fn fees_add_up_over_all_spending_transactions() {
    let spends = vec![
        Transaction {
            inputs: vec![output("Alice", 50)],
            outputs: vec![output("Alice", 47)],
        },
        Transaction {
            inputs: vec![output("Bob", 7)],
            outputs: vec![output("Bob", 3)],
        },
    ];
    for reward in [6, 7, 8] {
        let mut chain = chain_with_genesis();
        let mut transactions = vec![coinbase(vec![output("Chris", reward)])];
        transactions.extend(spends.clone());
        let block = mined(1, START + 1, last_hash(&chain), transactions);
        let expected = if reward == 7 {
            Ok(())
        } else {
            Err(BlockValidationErr::InvalidCoinbaseTransactionFee)
        };
        assert_eq!(chain.update_with_block(block), expected);
    }
}

#[test]
fn block_without_transactions_owes_nothing() {
    let mut chain = chain_with_genesis();
    let block = mined(1, START + 1, last_hash(&chain), vec![]);
    assert_eq!(chain.update_with_block(block), Ok(()));
}

#[test]
fn check_ledger_reports_fee_mismatch_only_after_genesis() {
    let block = Block::new(0, 0, vec![], vec![coinbase(vec![output("Alice", 9)])], 0);
    assert_eq!(Blockchain::new().check_ledger(&block), Ok(()));
    assert_eq!(
        chain_with_genesis().check_ledger(&block),
        Err(BlockValidationErr::InvalidCoinbaseTransactionFee)
    );
}

#[test]
fn the_same_output_may_be_spent_twice() {
    let mut chain = chain_with_genesis();
    let spend = Transaction {
        inputs: vec![output("Bob", 7)],
        outputs: vec![output("Bob", 7)],
    };
    let block = mined(
        1,
        START + 1,
        last_hash(&chain),
        vec![coinbase(vec![]), spend.clone(), spend],
    );
    assert_eq!(chain.update_with_block(block), Ok(()));
}

#[test]
fn rejection_is_idempotent() {
    let mut chain = chain_with_genesis();
    let block = second_block(&chain, 1);
    let first = chain.update_with_block(block.clone());
    assert_eq!(chain.blocks.len(), 1);
    let second = chain.update_with_block(block);
    assert_eq!(chain.blocks.len(), 1);
    assert_eq!(first, Err(BlockValidationErr::InvalidCoinbaseTransactionFee));
    assert_eq!(first, second);
}

#[test]
fn rejection_leaves_the_chain_untouched() {
    let mut chain = chain_with_genesis();
    let hash = last_hash(&chain);
    let block = mined(1, START - 1, hash.clone(), vec![coinbase(vec![])]);
    assert!(chain.update_with_block(block).is_err());
    assert_eq!(chain.blocks.len(), 1);
    assert_eq!(chain.blocks[0].hash, hash);
    assert_eq!(chain.blocks[0].transactions[0].outputs[1].to_addr, "Bob");
    let block = second_block(&chain, 5);
    assert_eq!(chain.update_with_block(block), Ok(()));
}

#[test]
fn accepted_block_cannot_be_offered_again() {
    let mut chain = chain_with_genesis();
    let block = second_block(&chain, 5);
    assert_eq!(chain.update_with_block(block.clone()), Ok(()));
    assert_eq!(
        chain.update_with_block(block),
        Err(BlockValidationErr::MismatchedIndex)
    );
    assert_eq!(chain.blocks.len(), 2);
}

#[test]
fn replay_detects_a_changed_hash() {
    let mut chain = chain_with_genesis();
    let block = second_block(&chain, 5);
    assert_eq!(chain.update_with_block(block), Ok(()));

    for position in 0..2 {
        for byte in [0, 15, 16, 31] {
            let mut replay = Blockchain::new();
            let mut failed = None;
            for (i, accepted) in chain.blocks.iter().enumerate() {
                let mut block = accepted.clone();
                if i == position {
                    block.hash[byte] ^= 0x01;
                }
                if let Err(e) = replay.update_with_block(block) {
                    failed = Some((i, e));
                    break;
                }
            }
            assert_eq!(failed, Some((position, BlockValidationErr::InvalidHash)));
        }
    }
}

#[test]
fn replay_detects_a_changed_predecessor() {
    let mut chain = chain_with_genesis();
    let block = second_block(&chain, 5);
    assert_eq!(chain.update_with_block(block), Ok(()));

    for byte in [0, 15, 16, 31] {
        let mut replay = Blockchain::new();
        assert_eq!(replay.update_with_block(chain.blocks[0].clone()), Ok(()));
        let mut block = chain.blocks[1].clone();
        block.prev_block_hash[byte] ^= 0x01;
        assert_eq!(
            replay.update_with_block(block),
            Err(BlockValidationErr::MismatchedPreviousHash)
        );

        let mut replay = Blockchain::new();
        let mut block = chain.blocks[0].clone();
        block.prev_block_hash[byte] ^= 0x01;
        assert_eq!(
            replay.update_with_block(block),
            Err(BlockValidationErr::InvalidGenesisBlockFormat)
        );
    }
}

#[test]
fn replay_of_an_untouched_chain_succeeds() {
    let mut chain = chain_with_genesis();
    let block = second_block(&chain, 5);
    assert_eq!(chain.update_with_block(block), Ok(()));
    let mut replay = Blockchain::new();
    for accepted in chain.blocks.iter() {
        assert_eq!(replay.update_with_block(accepted.clone()), Ok(()));
    }
    assert_eq!(replay.blocks.len(), 2);
}

#[test]
fn chain_built_by_offers_verifies() {
    let mut chain = chain_with_genesis();
    assert!(chain.verify());
    let block = second_block(&chain, 5);
    assert_eq!(chain.update_with_block(block), Ok(()));
    assert!(chain.verify());
}

#[test]
fn verify_detects_each_broken_link() {
    let mut chain = chain_with_genesis();
    let block = second_block(&chain, 5);
    assert_eq!(chain.update_with_block(block), Ok(()));

    chain.blocks[1].index = 2;
    assert!(!chain.verify());
    chain.blocks[1].index = 1;
    assert!(chain.verify());

    chain.blocks[1].difficulty = 0;
    assert!(!chain.verify());
    chain.blocks[1].difficulty = EASY;

    chain.blocks[0].prev_block_hash[0] = 1;
    assert!(!chain.verify());
    chain.blocks[0].prev_block_hash[0] = 0;

    chain.blocks[1].timestamp = START - 1;
    assert!(!chain.verify());
    chain.blocks[1].timestamp = START + 1;

    chain.blocks[1].prev_block_hash[5] ^= 1;
    assert!(!chain.verify());
    chain.blocks[1].prev_block_hash[5] ^= 1;

    assert!(chain.verify());
}

#[test]
fn verify_recomputes_digests() {
    let mut chain = chain_with_genesis();
    chain.blocks[0].nonce += 1;
    assert_ne!(chain.blocks[0].hash, chain.blocks[0].hash());
    assert!(!chain.verify());
    chain.blocks[0].nonce -= 1;
    assert!(chain.verify());
}

#[test]
fn verify_detects_a_changed_hash_in_any_block() {
    let mut chain = chain_with_genesis();
    let block = second_block(&chain, 5);
    assert_eq!(chain.update_with_block(block), Ok(()));
    assert!(chain.verify());
    for position in 0..2 {
        for byte in 0..32 {
            chain.blocks[position].hash[byte] ^= 0x01;
            assert!(!chain.verify());
            chain.blocks[position].hash[byte] ^= 0x01;
        }
    }
    assert!(chain.verify());
}

#[test]
fn verify_detects_a_changed_field_in_the_last_block() {
    let mut chain = chain_with_genesis();
    let block = second_block(&chain, 5);
    assert_eq!(chain.update_with_block(block), Ok(()));

    chain.blocks[1].timestamp += 1;
    assert!(!chain.verify());
    chain.blocks[1].timestamp -= 1;

    chain.blocks[1].transactions[1].outputs[0].value -= 1;
    assert!(!chain.verify());
    chain.blocks[1].transactions[1].outputs[0].value += 1;

    chain.blocks[1].transactions[0].outputs[0].to_addr = "Chrit".to_owned();
    assert!(!chain.verify());
    chain.blocks[1].transactions[0].outputs[0].to_addr = "Chris".to_owned();

    assert!(chain.verify());
}

#[test]
fn verify_detects_a_wrong_coinbase_fee() {
    for reward in [0, 4, 6, 57, u64::MAX] {
        let mut chain = chain_with_genesis();
        let block = second_block(&chain, reward);
        chain.blocks.push(block);
        assert!(!chain.verify());
    }
    let mut chain = chain_with_genesis();
    let block = second_block(&chain, 5);
    chain.blocks.push(block);
    assert!(chain.verify());
}

#[test]
fn verify_detects_an_unrecorded_input() {
    let mut chain = chain_with_genesis();
    let block = mined(
        1,
        START + 1,
        last_hash(&chain),
        vec![
            coinbase(vec![]),
            Transaction {
                inputs: vec![output("Alice", 50), output("Nobody", 363893)],
                outputs: vec![],
            },
        ],
    );
    chain.blocks.push(block);
    assert!(!chain.verify());
}

#[test]
fn verify_detects_overspending() {
    let mut chain = chain_with_genesis();
    let block = mined(
        1,
        START + 1,
        last_hash(&chain),
        vec![
            coinbase(vec![]),
            Transaction {
                inputs: vec![output("Bob", 7)],
                outputs: vec![output("Bob", 8)],
            },
        ],
    );
    chain.blocks.push(block);
    assert!(!chain.verify());
}

#[test]
fn verify_detects_a_spending_coinbase() {
    let mut chain = Blockchain::new();
    let block = mined(
        0,
        START,
        vec![0; 32],
        vec![Transaction {
            inputs: vec![output("Alice", 50)],
            outputs: vec![],
        }],
    );
    chain.blocks.push(block);
    assert!(!chain.verify());
}

#[test]
fn verify_rejects_a_block_that_was_never_mined() {
    for difficulty in [0, EASY, u128::MAX] {
        let mut chain = Blockchain::new();
        chain
            .blocks
            .push(Block::new(0, START, vec![0; 32], vec![], difficulty));
        assert!(!chain.verify());
    }
}

#[test]
fn verify_leaves_the_chain_as_it_was() {
    let mut chain = chain_with_genesis();
    let block = second_block(&chain, 5);
    assert_eq!(chain.update_with_block(block), Ok(()));
    let hashes: Vec<Vec<u8>> = chain.blocks.iter().map(|b| b.hash.clone()).collect();
    assert!(chain.verify());
    assert!(chain.verify());
    assert_eq!(chain.blocks.len(), 2);
    assert_eq!(
        chain
            .blocks
            .iter()
            .map(|b| b.hash.clone())
            .collect::<Vec<_>>(),
        hashes
    );
}
