use std::time::{SystemTime, UNIX_EPOCH};

use blockchainlib::transaction::Output;
use blockchainlib::{
    check_difficulty, Block, BlockValidationErr, Blockchain, Hashable, Transaction,
};

const IMPOSSIBLE_DIFFICULTY: u128 = 0x0000_0000_0000_0000_0000_0000_0000_0000;
const DIFFICULTY: u128 = 0xffff_ffff_ffff_ffff_ffff_ffff_ffff_ffff;

struct BlockOutputConfig {
    unspent_output_value: u64,
    output_value: u64,
    expected_difference: u64,
}

fn genesis_block_hash() -> Vec<u8> {
    vec![0; 32]
}

fn current_time() -> u128 {
    SystemTime::now()
        .duration_since(UNIX_EPOCH)
        .expect("Failure to get the current time in milliseconds.")
        .as_millis()
}

fn create_coinbase_transaction() -> Transaction {
    Transaction {
        inputs: vec![],
        outputs: vec![],
    }
}

fn create_block_with_impossible_difficulty(
    index: u32,
    timestamp: u128,
    previous_block_hash: Vec<u8>,
    transactions: Vec<Transaction>,
) -> Block {
    let block = Block::new(
        index,
        timestamp,
        previous_block_hash,
        transactions,
        IMPOSSIBLE_DIFFICULTY,
    );
    assert_eq!(false, check_difficulty(&block.hash(), block.difficulty));

    block
}

fn create_block_with_valid_difficulty(
    index: u32,
    timestamp: u128,
    previous_block_hash: Vec<u8>,
    transactions: Vec<Transaction>,
) -> Block {
    let block = Block::new(index, timestamp, previous_block_hash, transactions, DIFFICULTY);
    assert_eq!(true, check_difficulty(&block.hash(), block.difficulty));

    block
}

fn add_block_to_blockchain(blockchain: &mut Blockchain, block: Block) {
    let original_length = blockchain.blocks.len();

    let result = blockchain.update_with_block(block);

    assert_eq!(true, result.is_ok());
    assert_eq!(Ok(()), result);
    assert_eq!(original_length + 1, blockchain.blocks.len());
}

fn assert_add_block_with_sufficient_inputs(config: BlockOutputConfig) {
    let timestamp = current_time();
    let genesis_block = create_block_with_valid_difficulty(
        0,
        timestamp,
        genesis_block_hash(),
        vec![Transaction {
            inputs: vec![],
            outputs: vec![
                Output {
                    to_address: "Alice".to_string(),
                    value: 1,
                },
                Output {
                    to_address: "Bob".to_string(),
                    value: 2,
                },
            ],
        }],
    );
    let mut blockchain = Blockchain::new();
    let block = create_block_with_valid_difficulty(
        1,
        timestamp + 1,
        genesis_block.hash.clone(),
        vec![
            Transaction {
                inputs: vec![],
                outputs: vec![Output {
                    to_address: "Chris".to_owned(),
                    value: config.unspent_output_value,
                }],
            },
            Transaction {
                inputs: vec![
                    Output {
                        to_address: "Alice".to_owned(),
                        value: 1,
                    },
                    Output {
                        to_address: "Bob".to_owned(),
                        value: 2,
                    },
                ],
                outputs: vec![Output {
                    to_address: "Chris".to_owned(),
                    value: config.output_value,
                }],
            },
        ],
    );
    assert!(block.transactions[1].input_value() >= block.transactions[1].output_value());
    assert_eq!(
        block.transactions[1].input_value(),
        block.transactions[1].output_value() + config.expected_difference
    );
    add_block_to_blockchain(&mut blockchain, genesis_block);
    add_block_to_blockchain(&mut blockchain, block);
}

#[test]
fn constructor_with_new() {
    let instance = Blockchain::new();

    assert_eq!(Vec::<Block>::new(), instance.blocks);
    assert_eq!(Vec::<Vec<u8>>::new(), instance.unspent_outputs);
}

#[test]
fn constructor_with_default() {
    let instance: Blockchain = Default::default();

    assert_eq!(Vec::<Block>::new(), instance.blocks);
    assert_eq!(Vec::<Vec<u8>>::new(), instance.unspent_outputs);
}

#[test]
fn add_block_with_invalid_previous_block_hash() {
    let wrong_block_hash = vec![];
    let genesis_block =
        create_block_with_valid_difficulty(0, current_time(), wrong_block_hash, vec![]);
    let mut blockchain = Blockchain::new();

    let result = blockchain.update_with_block(genesis_block);

    assert_eq!(true, result.is_err());
    assert_eq!(Err(BlockValidationErr::InvalidGenesisBlockFormat), result);
}

#[test]
fn add_block_with_index_as_one_to_empty_blockchain() {
    let wrong_index = 1;
    let genesis_block = Block::new(wrong_index, 2, vec![], vec![], 3);
    let mut blockchain = Blockchain::new();

    let result = blockchain.update_with_block(genesis_block);

    assert_eq!(true, result.is_err());
    assert_eq!(Err(BlockValidationErr::MismatchedIndex), result);
}

#[test]
fn add_block_with_index_as_zero_to_one_block_blockchain() {
    let timestamp = current_time();
    let genesis_block =
        create_block_with_valid_difficulty(0, timestamp, genesis_block_hash(), vec![]);
    let wrong_index = 0;
    let block = create_block_with_valid_difficulty(
        wrong_index,
        timestamp + 1,
        genesis_block.hash.clone(),
        vec![],
    );
    let mut blockchain = Blockchain::new();
    add_block_to_blockchain(&mut blockchain, genesis_block);

    let result = blockchain.update_with_block(block);

    assert_eq!(true, result.is_err());
    assert_eq!(Err(BlockValidationErr::MismatchedIndex), result);
}

#[test]
fn add_block_with_invalid_hash() {
    let timestamp = current_time();
    let genesis_block =
        create_block_with_valid_difficulty(0, timestamp, genesis_block_hash(), vec![]);
    let block = create_block_with_impossible_difficulty(
        1,
        timestamp + 1,
        genesis_block.hash.clone(),
        vec![],
    );
    let mut blockchain = Blockchain::new();
    add_block_to_blockchain(&mut blockchain, genesis_block);

    let result = blockchain.update_with_block(block);

    assert_eq!(true, result.is_err());
    assert_eq!(Err(BlockValidationErr::InvalidHash), result);
}

#[test]
fn add_block_with_timestamp_earlier_than_previous_timestamp() {
    let timestamp = current_time();
    let genesis_block =
        create_block_with_valid_difficulty(0, timestamp, genesis_block_hash(), vec![]);
    let wrong_timestamp = timestamp - 1;
    let block = create_block_with_valid_difficulty(
        1,
        wrong_timestamp,
        genesis_block.hash.clone(),
        vec![],
    );
    let mut blockchain = Blockchain::new();
    add_block_to_blockchain(&mut blockchain, genesis_block);

    let result = blockchain.update_with_block(block);

    assert_eq!(true, result.is_err());
    assert_eq!(Err(BlockValidationErr::AchronologicalTimestamp), result);
}

#[test]
fn add_block_with_timestamp_equal_to_previous_timestamp() {
    let timestamp = current_time();
    let genesis_block =
        create_block_with_valid_difficulty(0, timestamp, genesis_block_hash(), vec![]);
    let wrong_timestamp = timestamp - 1;
    let block = create_block_with_valid_difficulty(
        1,
        wrong_timestamp,
        genesis_block.hash.clone(),
        vec![],
    );
    let mut blockchain = Blockchain::new();
    add_block_to_blockchain(&mut blockchain, genesis_block);

    let result = blockchain.update_with_block(block);

    assert_eq!(true, result.is_err());
    assert_eq!(Err(BlockValidationErr::AchronologicalTimestamp), result);
}

#[test]
fn add_block_with_same_timestamp_as_previous() {
    let timestamp = current_time();
    let genesis_block =
        create_block_with_valid_difficulty(0, timestamp, genesis_block_hash(), vec![]);
    let block = create_block_with_valid_difficulty(
        1,
        timestamp,
        genesis_block.hash.clone(),
        vec![],
    );
    let mut blockchain = Blockchain::new();
    add_block_to_blockchain(&mut blockchain, genesis_block);

    let result = blockchain.update_with_block(block);

    assert_eq!(Err(BlockValidationErr::AchronologicalTimestamp), result);
}

#[test]
fn add_block_with_mismatched_previous_hash() {
    let timestamp = current_time();
    let genesis_block =
        create_block_with_valid_difficulty(0, timestamp, genesis_block_hash(), vec![]);
    let wrong_previous_hash = vec![1, 2, 3];
    let block =
        create_block_with_valid_difficulty(1, timestamp + 1, wrong_previous_hash, vec![]);
    let mut blockchain = Blockchain::new();
    add_block_to_blockchain(&mut blockchain, genesis_block);

    let result = blockchain.update_with_block(block);

    assert_eq!(true, result.is_err());
    assert_eq!(Err(BlockValidationErr::MismatchedPreviousHash), result);
}

#[test]
fn add_block_with_transaction_that_has_non_empty_inputs() {
    let timestamp = current_time();
    let wrong_inputs = vec![Output {
        to_address: "Alice".to_string(),
        value: 1,
    }];
    let genesis_block = create_block_with_valid_difficulty(
        0,
        timestamp,
        genesis_block_hash(),
        vec![Transaction {
            inputs: wrong_inputs,
            outputs: vec![],
        }],
    );
    let mut blockchain = Blockchain::new();

    let result = blockchain.update_with_block(genesis_block);

    assert_eq!(true, result.is_err());
    assert_eq!(Err(BlockValidationErr::InvalidCoinbaseTransaction), result);
}

#[test]
fn add_block_with_transactions_where_first_one_has_non_empty_inputs_case1() {
    let timestamp = current_time();
    let wrong_inputs = vec![Output {
        to_address: "Alice".to_string(),
        value: 1,
    }];
    let genesis_block = create_block_with_valid_difficulty(
        0,
        timestamp,
        genesis_block_hash(),
        vec![
            Transaction {
                inputs: wrong_inputs,
                outputs: vec![],
            },
            Transaction {
                inputs: vec![],
                outputs: vec![],
            },
            Transaction {
                inputs: vec![],
                outputs: vec![],
            },
        ],
    );
    let mut blockchain = Blockchain::new();

    let result = blockchain.update_with_block(genesis_block);

    assert_eq!(true, result.is_err());
    assert_eq!(Err(BlockValidationErr::InvalidCoinbaseTransaction), result);
}

#[test]
fn add_block_with_transactions_where_first_one_has_non_empty_inputs_case2() {
    let timestamp = current_time();
    let wrong_inputs = vec![Output {
        to_address: "Alice".to_string(),
        value: 1,
    }];
    let genesis_block = create_block_with_valid_difficulty(
        0,
        timestamp,
        genesis_block_hash(),
        vec![
            create_coinbase_transaction(),
            Transaction {
                inputs: vec![],
                outputs: vec![],
            },
            Transaction {
                inputs: vec![],
                outputs: vec![],
            },
        ],
    );
    let block = create_block_with_valid_difficulty(
        1,
        timestamp + 1,
        genesis_block.hash.clone(),
        vec![
            Transaction {
                inputs: wrong_inputs,
                outputs: vec![],
            },
            Transaction {
                inputs: vec![],
                outputs: vec![],
            },
            Transaction {
                inputs: vec![],
                outputs: vec![],
            },
        ],
    );
    let mut blockchain = Blockchain::new();
    add_block_to_blockchain(&mut blockchain, genesis_block);

    let result = blockchain.update_with_block(block);

    assert_eq!(true, result.is_err());
    assert_eq!(Err(BlockValidationErr::InvalidCoinbaseTransaction), result);
}

#[test]
fn add_block_with_outputs_less_than_fee_case1() {
    let timestamp = current_time();
    let genesis_block = create_block_with_valid_difficulty(
        0,
        timestamp,
        genesis_block_hash(),
        vec![Transaction {
            inputs: vec![],
            outputs: vec![Output {
                to_address: "Alice".to_string(),
                value: 1,
            }],
        }],
    );
    let mut blockchain = Blockchain::new();
    let block = create_block_with_valid_difficulty(
        1,
        timestamp + 1,
        genesis_block.hash.clone(),
        vec![
            create_coinbase_transaction(),
            Transaction {
                inputs: vec![Output {
                    to_address: "Alice".to_owned(),
                    value: 1,
                }],
                outputs: vec![],
            },
        ],
    );
    add_block_to_blockchain(&mut blockchain, genesis_block);

    let result = blockchain.update_with_block(block);

    assert_eq!(true, result.is_err());
    assert_eq!(
        Err(BlockValidationErr::FeeExceedsCoinbaseTransactionOutputValue),
        result
    );
}

#[test]
fn add_block_with_outputs_less_than_fee_case2() {
    let timestamp = current_time();
    let genesis_block = create_block_with_valid_difficulty(
        0,
        timestamp,
        genesis_block_hash(),
        vec![Transaction {
            inputs: vec![],
            outputs: vec![Output {
                to_address: "Alice".to_string(),
                value: 1,
            }],
        }],
    );
    let mut blockchain = Blockchain::new();
    let mut coinbase_transaction = create_coinbase_transaction();
    coinbase_transaction.outputs = vec![Output {
        to_address: "Chris".to_owned(),
        value: 0,
    }];
    let block = create_block_with_valid_difficulty(
        1,
        timestamp + 1,
        genesis_block.hash.clone(),
        vec![
            coinbase_transaction,
            Transaction {
                inputs: vec![Output {
                    to_address: "Alice".to_owned(),
                    value: 1,
                }],
                outputs: vec![],
            },
        ],
    );
    add_block_to_blockchain(&mut blockchain, genesis_block);

    let result = blockchain.update_with_block(block);

    assert_eq!(true, result.is_err());
    assert_eq!(
        Err(BlockValidationErr::FeeExceedsCoinbaseTransactionOutputValue),
        result
    );
}

#[test]
fn add_block_with_second_transaction_that_has_non_empty_inputs() {
    let timestamp = current_time();
    let genesis_block = create_block_with_valid_difficulty(
        0,
        timestamp,
        genesis_block_hash(),
        vec![
            create_coinbase_transaction(),
            Transaction {
                inputs: vec![Output {
                    to_address: "Alice".to_string(),
                    value: 1,
                }],
                outputs: vec![],
            },
        ],
    );
    let mut blockchain = Blockchain::new();

    let result = blockchain.update_with_block(genesis_block);

    assert_eq!(true, result.is_err());
    assert_eq!(Err(BlockValidationErr::InvalidInput), result);
}

#[test]
fn add_block_with_insufficient_inputs_case1() {
    let timestamp = current_time();
    let genesis_block = create_block_with_valid_difficulty(
        0,
        timestamp,
        genesis_block_hash(),
        vec![
            create_coinbase_transaction(),
            Transaction {
                inputs: vec![],
                outputs: vec![Output {
                    to_address: "Alice".to_string(),
                    value: 1,
                }],
            },
        ],
    );
    let mut blockchain = Blockchain::new();

    let result = blockchain.update_with_block(genesis_block);

    assert_eq!(true, result.is_err());
    assert_eq!(Err(BlockValidationErr::InsufficientInputValue), result);
}

#[test]
fn add_block_with_insufficient_inputs_case2() {
    let timestamp = current_time();
    let genesis_block = create_block_with_valid_difficulty(
        0,
        timestamp,
        genesis_block_hash(),
        vec![Transaction {
            inputs: vec![],
            outputs: vec![
                Output {
                    to_address: "Alice".to_string(),
                    value: 1,
                },
                Output {
                    to_address: "Bob".to_string(),
                    value: 2,
                },
            ],
        }],
    );
    let mut blockchain = Blockchain::new();
    let block = create_block_with_valid_difficulty(
        1,
        timestamp + 1,
        genesis_block.hash.clone(),
        vec![
            Transaction {
                inputs: vec![],
                outputs: vec![Output {
                    to_address: "Chris".to_owned(),
                    value: 4,
                }],
            },
            Transaction {
                inputs: vec![
                    Output {
                        to_address: "Alice".to_owned(),
                        value: 1,
                    },
                    Output {
                        to_address: "Bob".to_owned(),
                        value: 2,
                    },
                ],
                outputs: vec![Output {
                    to_address: "Chris".to_owned(),
                    value: 4,
                }],
            },
        ],
    );
    add_block_to_blockchain(&mut blockchain, genesis_block);

    let result = blockchain.update_with_block(block);

    assert_eq!(true, result.is_err());
    assert_eq!(Err(BlockValidationErr::InsufficientInputValue), result);
}

#[test]
fn add_block_with_exactly_sufficient_inputs() {
    assert_add_block_with_sufficient_inputs(BlockOutputConfig {
        unspent_output_value: 4,
        output_value: 3,
        expected_difference: 0,
    });
}

#[test]
fn add_block_with_more_than_sufficient_inputs_case1() {
    assert_add_block_with_sufficient_inputs(BlockOutputConfig {
        unspent_output_value: 4,
        output_value: 2,
        expected_difference: 1,
    });
}

#[test]
fn add_block_with_more_than_sufficient_inputs_case2() {
    assert_add_block_with_sufficient_inputs(BlockOutputConfig {
        unspent_output_value: 4,
        output_value: 1,
        expected_difference: 2,
    });
}

#[test]
fn add_block_with_more_than_sufficient_inputs_case3() {
    assert_add_block_with_sufficient_inputs(BlockOutputConfig {
        unspent_output_value: 4,
        output_value: 0,
        expected_difference: 3,
    });
}

#[test]
fn add_one_block_without_transactions_to_blockchain() {
    let timestamp = current_time();
    let genesis_block =
        create_block_with_valid_difficulty(0, timestamp, genesis_block_hash(), vec![]);
    let mut blockchain = Blockchain::new();

    add_block_to_blockchain(&mut blockchain, genesis_block);
}

#[test]
fn add_two_blocks_without_transactions_to_blockchain() {
    let timestamp = current_time();
    let genesis_block =
        create_block_with_valid_difficulty(0, timestamp, genesis_block_hash(), vec![]);
    let block = create_block_with_valid_difficulty(
        1,
        timestamp + 1,
        genesis_block.hash.clone(),
        vec![],
    );
    let mut blockchain = Blockchain::new();

    add_block_to_blockchain(&mut blockchain, genesis_block);
    add_block_to_blockchain(&mut blockchain, block);
}

#[test]
fn add_three_blocks_without_transactions_to_blockchain() {
    let timestamp = current_time();
    let genesis_block =
        create_block_with_valid_difficulty(0, timestamp, genesis_block_hash(), vec![]);
    let block1 = create_block_with_valid_difficulty(
        1,
        timestamp + 1,
        genesis_block.hash.clone(),
        vec![],
    );
    let block2 =
        create_block_with_valid_difficulty(2, timestamp + 2, block1.hash.clone(), vec![]);
    let mut blockchain = Blockchain::new();

    add_block_to_blockchain(&mut blockchain, genesis_block);
    add_block_to_blockchain(&mut blockchain, block1);
    add_block_to_blockchain(&mut blockchain, block2);
}

#[test]
fn add_one_block_with_one_transaction_to_blockchain() {
    let timestamp = current_time();
    let genesis_block = create_block_with_valid_difficulty(
        0,
        timestamp,
        genesis_block_hash(),
        vec![Transaction {
            inputs: vec![],
            outputs: vec![Output {
                to_address: "Alice".to_string(),
                value: 1,
            }],
        }],
    );
    let mut blockchain = Blockchain::new();
    let mut coinbase_transaction = create_coinbase_transaction();
    coinbase_transaction.outputs = vec![Output {
        to_address: "Chris".to_owned(),
        value: 1,
    }];
    let block = create_block_with_valid_difficulty(
        1,
        timestamp + 1,
        genesis_block.hash.clone(),
        vec![
            coinbase_transaction,
            Transaction {
                inputs: vec![Output {
                    to_address: "Alice".to_owned(),
                    value: 1,
                }],
                outputs: vec![],
            },
        ],
    );
    add_block_to_blockchain(&mut blockchain, genesis_block);
    add_block_to_blockchain(&mut blockchain, block);
}

#[test]
fn add_one_block_with_two_transactions_to_blockchain() {
    let timestamp = current_time();
    let genesis_block = create_block_with_valid_difficulty(
        0,
        timestamp,
        genesis_block_hash(),
        vec![Transaction {
            inputs: vec![],
            outputs: vec![
                Output {
                    to_address: "Alice".to_string(),
                    value: 1,
                },
                Output {
                    to_address: "Bob".to_owned(),
                    value: 2,
                },
            ],
        }],
    );
    let mut blockchain = Blockchain::new();
    let mut coinbase_transaction = create_coinbase_transaction();
    coinbase_transaction.outputs = vec![Output {
        to_address: "Chris".to_owned(),
        value: 3,
    }];
    let block = create_block_with_valid_difficulty(
        1,
        timestamp + 1,
        genesis_block.hash.clone(),
        vec![
            coinbase_transaction,
            Transaction {
                inputs: vec![Output {
                    to_address: "Alice".to_owned(),
                    value: 1,
                }],
                outputs: vec![],
            },
            Transaction {
                inputs: vec![Output {
                    to_address: "Bob".to_owned(),
                    value: 2,
                }],
                outputs: vec![],
            },
        ],
    );
    add_block_to_blockchain(&mut blockchain, genesis_block);
    add_block_to_blockchain(&mut blockchain, block);
}

#[test]
fn add_one_block_with_three_transactions_to_blockchain() {
    let timestamp = current_time();
    let genesis_block = create_block_with_valid_difficulty(
        0,
        timestamp,
        genesis_block_hash(),
        vec![Transaction {
            inputs: vec![],
            outputs: vec![
                Output {
                    to_address: "Alice".to_string(),
                    value: 1,
                },
                Output {
                    to_address: "Bob".to_owned(),
                    value: 2,
                },
                Output {
                    to_address: "John".to_owned(),
                    value: 3,
                },
            ],
        }],
    );
    let mut blockchain = Blockchain::new();
    let mut coinbase_transaction = create_coinbase_transaction();
    coinbase_transaction.outputs = vec![Output {
        to_address: "Chris".to_owned(),
        value: 6,
    }];
    let block = create_block_with_valid_difficulty(
        1,
        timestamp + 1,
        genesis_block.hash.clone(),
        vec![
            coinbase_transaction,
            Transaction {
                inputs: vec![Output {
                    to_address: "Alice".to_owned(),
                    value: 1,
                }],
                outputs: vec![],
            },
            Transaction {
                inputs: vec![Output {
                    to_address: "Bob".to_owned(),
                    value: 2,
                }],
                outputs: vec![],
            },
            Transaction {
                inputs: vec![Output {
                    to_address: "John".to_owned(),
                    value: 3,
                }],
                outputs: vec![],
            },
        ],
    );
    add_block_to_blockchain(&mut blockchain, genesis_block);
    add_block_to_blockchain(&mut blockchain, block);
}

#[test]
fn mid_block_spend_is_rejected() {
    let timestamp = current_time();
    let genesis_block = create_block_with_valid_difficulty(
        0,
        timestamp,
        genesis_block_hash(),
        vec![Transaction {
            inputs: vec![],
            outputs: vec![Output {
                to_address: "Alice".to_string(),
                value: 1,
            }],
        }],
    );
    let mut blockchain = Blockchain::new();
    // The second transaction spends an output created by the block's own
    // first (coinbase) transaction; the unspent set is not updated
    // mid-block, so the spend must be rejected.
    let block = create_block_with_valid_difficulty(
        1,
        timestamp + 1,
        genesis_block.hash.clone(),
        vec![
            Transaction {
                inputs: vec![],
                outputs: vec![Output {
                    to_address: "Chris".to_owned(),
                    value: 1,
                }],
            },
            Transaction {
                inputs: vec![Output {
                    to_address: "Chris".to_owned(),
                    value: 1,
                }],
                outputs: vec![],
            },
        ],
    );
    add_block_to_blockchain(&mut blockchain, genesis_block);

    let result = blockchain.update_with_block(block);

    assert_eq!(Err(BlockValidationErr::InvalidInput), result);
}

#[test]
fn fee_accounting_updates_unspent_outputs() {
    let timestamp = current_time();
    let genesis_block = create_block_with_valid_difficulty(
        0,
        timestamp,
        genesis_block_hash(),
        vec![Transaction {
            inputs: vec![],
            outputs: vec![
                Output {
                    to_address: "Alice".to_string(),
                    value: 1,
                },
                Output {
                    to_address: "Bob".to_string(),
                    value: 2,
                },
            ],
        }],
    );
    let mut blockchain = Blockchain::new();
    let block = create_block_with_valid_difficulty(
        1,
        timestamp + 1,
        genesis_block.hash.clone(),
        vec![
            Transaction {
                inputs: vec![],
                outputs: vec![Output {
                    to_address: "Chris".to_owned(),
                    value: 3,
                }],
            },
            Transaction {
                inputs: vec![
                    Output {
                        to_address: "Alice".to_owned(),
                        value: 1,
                    },
                    Output {
                        to_address: "Bob".to_owned(),
                        value: 2,
                    },
                ],
                outputs: vec![Output {
                    to_address: "Chris".to_owned(),
                    value: 2,
                }],
            },
        ],
    );
    add_block_to_blockchain(&mut blockchain, genesis_block);

    let result = blockchain.update_with_block(block);

    assert_eq!(Ok(()), result);
    let chris_3 = Output {
        to_address: "Chris".to_owned(),
        value: 3,
    }
    .hash();
    let chris_2 = Output {
        to_address: "Chris".to_owned(),
        value: 2,
    }
    .hash();
    let alice_1 = Output {
        to_address: "Alice".to_owned(),
        value: 1,
    }
    .hash();
    let bob_2 = Output {
        to_address: "Bob".to_owned(),
        value: 2,
    }
    .hash();
    assert!(blockchain.unspent_outputs.contains(&chris_3));
    assert!(blockchain.unspent_outputs.contains(&chris_2));
    assert!(!blockchain.unspent_outputs.contains(&alice_1));
    assert!(!blockchain.unspent_outputs.contains(&bob_2));
}
