use jormungandr::address::{Address, Discrimination, Kind};
use jormungandr::blockcfg::{
    AuthenticatedTransaction, Block, BlockDate, ChainLength, ConfigParam, ConsensusVersion,
    Fragment, Header, Input, Output, Payload, SignedUpdateProposal, UpdateProposal, UtxoPointer,
    Value, Witness,
};
use jormungandr::explorer::error::Error;
use jormungandr::explorer::indexing::{
    Addresses, Blocks, ChainLengths, EpochData, Epochs, ExplorerBlock, ExplorerInput,
    ExplorerOutput, ExplorerTransaction, Transactions,
};
use jormungandr::explorer::state::State;
use jormungandr::explorer::{
    apply_block_to_addresses, apply_block_to_blocks, apply_block_to_chain_lengths,
    apply_block_to_epochs, apply_block_to_transactions, BlockchainConfig,
};
use jormungandr::key::Digest;

fn id(n: u8) -> Digest {
    let mut bytes = [0u8; 32];
    bytes[0] = n;
    Digest(bytes)
}

fn address(n: u8) -> Address {
    Address(Discrimination::Production, Kind::Single([n; 32]))
}

fn tx(outputs: Vec<(u8, u64)>) -> AuthenticatedTransaction {
    AuthenticatedTransaction {
        inputs: vec![],
        outputs: outputs
            .into_iter()
            .map(|(a, v)| Output { address: address(a), value: Value(v) })
            .collect(),
        witnesses: vec![],
    }
}

fn raw_block(n: u8, parent: u8, length: u32, epoch: u32, contents: Vec<Fragment>) -> Block {
    Block {
        header: Header {
            hash: id(n),
            parent_hash: id(parent),
            chain_length: ChainLength(length),
            date: BlockDate { epoch, slot_id: 0 },
        },
        contents,
    }
}

fn project(block: &Block) -> ExplorerBlock {
    ExplorerBlock::resolve_from(
        block,
        Discrimination::Production,
        &Transactions::new(),
        &Blocks::new(),
    )
    .unwrap()
}

#[test]
fn projection_copies_the_header_and_keeps_the_indexed_fragments() {
    let proposal = UpdateProposal {
        max_number_of_transactions_per_block: None,
        bootstrap_key_slots_percentage: None,
        consensus_version: None,
        bft_leaders: None,
        allow_account_creation: None,
        linear_fees: None,
        slot_duration: None,
        epoch_stability_depth: None,
    };
    let contents = vec![
        Fragment { id: id(100), payload: Payload::Initial(vec![]) },
        Fragment { id: id(101), payload: Payload::Transaction(tx(vec![(1, 1)])) },
        Fragment { id: id(102), payload: Payload::OldUtxoDeclaration(vec![]) },
        Fragment { id: id(103), payload: Payload::OwnerStakeDelegation(tx(vec![])) },
        Fragment { id: id(104), payload: Payload::StakeDelegation(tx(vec![(2, 2)])) },
        Fragment { id: id(105), payload: Payload::PoolRegistration(tx(vec![])) },
        Fragment { id: id(106), payload: Payload::PoolManagement(tx(vec![])) },
        Fragment {
            id: id(107),
            payload: Payload::UpdateProposal(SignedUpdateProposal {
                proposal,
                proposer_id: [0; 32],
                signature: vec![],
            }),
        },
        Fragment { id: id(108), payload: Payload::UpdateVote },
    ];
    let b = project(&raw_block(4, 3, 7, 2, contents));
    assert_eq!(b.id(), id(4));
    assert_eq!(b.parent_hash, id(3));
    assert_eq!(b.chain_length(), ChainLength(7));
    assert_eq!(b.date(), BlockDate { epoch: 2, slot_id: 0 });
    let ids: Vec<Digest> = b.transactions.iter().map(|t| t.id()).collect();
    assert_eq!(ids, vec![id(101), id(103), id(104), id(105), id(106)]);
    assert_eq!(
        b.transactions[2].outputs(),
        &vec![ExplorerOutput { address: address(2), value: Value(2) }]
    );
}

#[test]
fn later_fragment_of_one_identifier_stands() {
    let contents = vec![
        Fragment { id: id(1), payload: Payload::Transaction(tx(vec![(1, 1)])) },
        Fragment { id: id(2), payload: Payload::Transaction(tx(vec![(2, 2)])) },
        Fragment { id: id(1), payload: Payload::Transaction(tx(vec![(3, 3)])) },
    ];
    let b = project(&raw_block(1, 0, 1, 0, contents));
    assert_eq!(b.transactions.len(), 2);
    assert_eq!(b.transactions[0].id(), id(1));
    assert_eq!(
        b.transactions[0].outputs(),
        &vec![ExplorerOutput { address: address(3), value: Value(3) }]
    );
    assert_eq!(b.transactions[1].id(), id(2));
}

#[test]
fn inputs_are_paired_with_witnesses_by_position() {
    let auth = AuthenticatedTransaction {
        inputs: vec![
            Input::Account([1; 32], Value(1)),
            Input::Account([2; 32], Value(2)),
            Input::Account([3; 32], Value(3)),
            Input::Account([4; 32], Value(4)),
            Input::Utxo(UtxoPointer { transaction_id: id(9), output_index: 0, value: Value(5) }),
        ],
        outputs: vec![],
        witnesses: vec![Witness::Account, Witness::Utxo, Witness::OldUtxo, Witness::Account],
    };
    let t = ExplorerTransaction::from(
        &id(7),
        &auth,
        Discrimination::Test,
        &Transactions::new(),
        &Blocks::new(),
    )
    .unwrap();
    assert_eq!(t.id(), id(7));
    assert_eq!(
        t.inputs(),
        &vec![
            ExplorerInput {
                address: Address(Discrimination::Test, Kind::Account([1; 32])),
                value: Value(1)
            },
            ExplorerInput {
                address: Address(Discrimination::Test, Kind::Account([4; 32])),
                value: Value(4)
            },
        ]
    );
    assert!(t.outputs().is_empty());
}

#[test]
fn unresolved_utxo_input_fails() {
    let auth = AuthenticatedTransaction {
        inputs: vec![Input::Utxo(UtxoPointer {
            transaction_id: id(9),
            output_index: 0,
            value: Value(5),
        })],
        outputs: vec![],
        witnesses: vec![Witness::Utxo],
    };
    let r = ExplorerTransaction::from(
        &id(7),
        &auth,
        Discrimination::Test,
        &Transactions::new(),
        &Blocks::new(),
    );
    assert_eq!(r, Err(Error::Internal));
    let block = raw_block(
        1,
        0,
        1,
        0,
        vec![Fragment { id: id(7), payload: Payload::Transaction(auth) }],
    );
    let r = ExplorerBlock::resolve_from(
        &block,
        Discrimination::Test,
        &Transactions::new(),
        &Blocks::new(),
    );
    assert_eq!(r, Err(Error::Internal));
}

#[test]
fn utxo_input_resolves_through_both_indexes() {
    let b1 = project(&raw_block(
        1,
        0,
        1,
        0,
        vec![Fragment { id: id(50), payload: Payload::Transaction(tx(vec![(1, 10), (2, 20)])) }],
    ));
    let transactions = apply_block_to_transactions(Transactions::new(), &b1).unwrap();
    let blocks = apply_block_to_blocks(Blocks::new(), &b1).unwrap();
    let auth = AuthenticatedTransaction {
        inputs: vec![Input::Utxo(UtxoPointer {
            transaction_id: id(50),
            output_index: 1,
            value: Value(0),
        })],
        outputs: vec![],
        witnesses: vec![Witness::Multisig],
    };
    let t = ExplorerTransaction::from(&id(51), &auth, Discrimination::Test, &transactions, &blocks)
        .unwrap();
    assert_eq!(t.inputs(), &vec![ExplorerInput { address: address(2), value: Value(20) }]);
    let only_transactions =
        ExplorerTransaction::from(&id(51), &auth, Discrimination::Test, &transactions, &Blocks::new());
    assert_eq!(only_transactions, Err(Error::Internal));
}

#[test]
fn transactions_index() {
    let b1 = project(&raw_block(
        1,
        0,
        1,
        0,
        vec![
            Fragment { id: id(50), payload: Payload::Transaction(tx(vec![])) },
            Fragment { id: id(51), payload: Payload::Transaction(tx(vec![])) },
        ],
    ));
    let t = apply_block_to_transactions(Transactions::new(), &b1).unwrap();
    assert_eq!(t.lookup(&id(50)), Some(&id(1)));
    assert_eq!(t.lookup(&id(51)), Some(&id(1)));
    assert_eq!(t.lookup(&id(52)), None);
    let b2 = project(&raw_block(
        2,
        1,
        2,
        0,
        vec![
            Fragment { id: id(60), payload: Payload::Transaction(tx(vec![])) },
            Fragment { id: id(51), payload: Payload::Transaction(tx(vec![])) },
            Fragment { id: id(50), payload: Payload::Transaction(tx(vec![])) },
        ],
    ));
    assert_eq!(
        apply_block_to_transactions(t.clone(), &b2).err(),
        Some(Error::TransactionAlreadyExists(id(51)))
    );
    assert_eq!(t.lookup(&id(60)), None);
}

#[test]
fn blocks_and_chain_lengths_indexes() {
    let b1 = project(&raw_block(1, 0, 1, 0, vec![]));
    let blocks = apply_block_to_blocks(Blocks::new(), &b1).unwrap();
    assert_eq!(blocks.lookup(&id(1)), Some(&b1));
    assert_eq!(
        apply_block_to_blocks(blocks.clone(), &b1).err(),
        Some(Error::BlockAlreadyExists(id(1)))
    );
    let lengths = apply_block_to_chain_lengths(ChainLengths::new(), &b1).unwrap();
    assert_eq!(lengths.lookup(&ChainLength(1)), Some(&id(1)));
    let other = project(&raw_block(2, 0, 1, 0, vec![]));
    assert_eq!(
        apply_block_to_chain_lengths(lengths, &other).err(),
        Some(Error::ChainLengthBlockAlreadyExists(1))
    );
}

#[test]
fn epochs_index_counts_from_zero() {
    let b1 = project(&raw_block(1, 0, 1, 3, vec![]));
    let b2 = project(&raw_block(2, 1, 2, 3, vec![]));
    let b3 = project(&raw_block(3, 2, 3, 4, vec![]));
    let e = apply_block_to_epochs(Epochs::new(), &b1).unwrap();
    assert_eq!(
        e.lookup(&3),
        Some(&EpochData { first_block: id(1), last_block: id(1), total_blocks: 0 })
    );
    let e = apply_block_to_epochs(e, &b2).unwrap();
    assert_eq!(
        e.lookup(&3),
        Some(&EpochData { first_block: id(1), last_block: id(2), total_blocks: 1 })
    );
    let e = apply_block_to_epochs(e, &b3).unwrap();
    assert_eq!(
        e.lookup(&3),
        Some(&EpochData { first_block: id(1), last_block: id(2), total_blocks: 1 })
    );
    assert_eq!(
        e.lookup(&4),
        Some(&EpochData { first_block: id(3), last_block: id(3), total_blocks: 0 })
    );
}

#[test]
fn addresses_index_holds_inputs_and_outputs() {
    let auth = AuthenticatedTransaction {
        inputs: vec![Input::Account([9; 32], Value(3))],
        outputs: vec![
            Output { address: address(1), value: Value(1) },
            Output { address: address(1), value: Value(2) },
        ],
        witnesses: vec![Witness::Account],
    };
    let b1 = project(&raw_block(
        1,
        0,
        1,
        0,
        vec![
            Fragment { id: id(50), payload: Payload::Transaction(auth) },
            Fragment { id: id(51), payload: Payload::Transaction(tx(vec![(1, 5), (2, 6)])) },
        ],
    ));
    let a = apply_block_to_addresses(Addresses::new(), &b1).unwrap();
    let account = Address(Discrimination::Production, Kind::Account([9; 32]));
    let at_one = a.lookup(&address(1)).unwrap();
    assert!(at_one.contains(&id(50)) && at_one.contains(&id(51)));
    let at_two = a.lookup(&address(2)).unwrap();
    assert!(!at_two.contains(&id(50)) && at_two.contains(&id(51)));
    let at_account = a.lookup(&account).unwrap();
    assert!(at_account.contains(&id(50)) && !at_account.contains(&id(51)));
    assert!(a.lookup(&address(3)).is_none());
}

#[test]
fn snapshot_derivation() {
    let b0 = project(&raw_block(0, 0, 0, 0, vec![]));
    let start = State::genesis(&b0);
    assert_eq!(start.find_block_by_chain_length(ChainLength(0)), Some(id(0)));
    let b1 = project(&raw_block(
        1,
        0,
        1,
        0,
        vec![Fragment { id: id(50), payload: Payload::Transaction(tx(vec![(1, 5)])) }],
    ));
    let next = start.derive(&b1).ok().unwrap();
    assert_eq!(next.find_block_by_transaction(&id(50)), Some(id(1)));
    assert_eq!(next.get_block(&id(1)), Some(b1));
    assert!(next.names(&address(1), &id(50)));
    assert_eq!(
        next.get_epoch(0),
        Some(EpochData { first_block: id(0), last_block: id(1), total_blocks: 1 })
    );
    assert_eq!(start.find_block_by_transaction(&id(50)), None);
    assert_eq!(start.get_block(&id(1)), None);
    assert_eq!(
        start.get_epoch(0),
        Some(EpochData { first_block: id(0), last_block: id(0), total_blocks: 0 })
    );
    let same_height = project(&raw_block(2, 0, 1, 0, vec![]));
    assert_eq!(next.derive(&same_height).err(), Some(Error::ChainLengthBlockAlreadyExists(1)));
}

#[test]
fn config_takes_the_first_of_each_setting() {
    let params = vec![
        ConfigParam::SlotDuration(10),
        ConfigParam::ConsensusVersion(ConsensusVersion::GenesisPraos),
        ConfigParam::Discrimination(Discrimination::Test),
        ConfigParam::Discrimination(Discrimination::Production),
        ConfigParam::ConsensusVersion(ConsensusVersion::Bft),
    ];
    assert_eq!(
        BlockchainConfig::from_config_params(&params),
        Ok(BlockchainConfig {
            discrimination: Discrimination::Test,
            consensus_version: ConsensusVersion::GenesisPraos
        })
    );
    assert_eq!(
        BlockchainConfig::from_config_params(&vec![]),
        Err(Error::BootstrapError("the discrimination to be present".to_owned()))
    );
}
