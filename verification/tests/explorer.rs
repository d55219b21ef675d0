use jormungandr::address::{Address, Discrimination, Kind};
use jormungandr::blockcfg::{
    AuthenticatedTransaction, Block, BlockDate, ChainLength, ConfigParam, ConsensusVersion,
    Fragment, Header, HeaderHash, Input, Output, Payload, UtxoPointer, Value, Witness,
};
use jormungandr::explorer::error::Error;
use jormungandr::explorer::indexing::{EpochData, ExplorerInput, ExplorerOutput};
use jormungandr::explorer::{Explorer, ExplorerDB};
use jormungandr::intercom::ExplorerMsg;
use jormungandr::utils::task::Input as ServiceInput;
use jormungandr::key::Digest;

fn id(n: u8) -> Digest {
    let mut bytes = [0u8; 32];
    bytes[0] = n;
    bytes[31] = n;
    Digest(bytes)
}

fn tx_id(n: u8) -> Digest {
    let mut bytes = [0xeeu8; 32];
    bytes[0] = n;
    Digest(bytes)
}

fn address(n: u8) -> Address {
    let mut key = [0u8; 32];
    key[0] = n;
    Address(Discrimination::Test, Kind::Single(key))
}

fn header(hash: HeaderHash, parent: HeaderHash, chain_length: u32, epoch: u32) -> Header {
    Header {
        hash,
        parent_hash: parent,
        chain_length: ChainLength(chain_length),
        date: BlockDate { epoch, slot_id: chain_length },
    }
}

fn initial() -> Fragment {
    Fragment {
        id: tx_id(200),
        payload: Payload::Initial(vec![
            ConfigParam::Block0Date(123456789),
            ConfigParam::Discrimination(Discrimination::Test),
            ConfigParam::ConsensusVersion(ConsensusVersion::Bft),
            ConfigParam::SlotDuration(15),
        ]),
    }
}

fn genesis_block() -> Block {
    Block { header: header(id(0), id(0), 0, 0), contents: vec![initial()] }
}

fn transfer(n: u8, inputs: Vec<Input>, witnesses: Vec<Witness>, outputs: Vec<(u8, u64)>) -> Fragment {
    Fragment {
        id: tx_id(n),
        payload: Payload::Transaction(AuthenticatedTransaction {
            inputs,
            outputs: outputs
                .into_iter()
                .map(|(a, v)| Output { address: address(a), value: Value(v) })
                .collect(),
            witnesses,
        }),
    }
}

fn block(n: u8, parent: u8, chain_length: u32, contents: Vec<Fragment>) -> Block {
    Block { header: header(id(n), id(parent), chain_length, 0), contents }
}

fn block_one() -> Block {
    block(1, 0, 1, vec![transfer(1, vec![], vec![], vec![(0xa, 10), (0xb, 5)])])
}

fn block_two() -> Block {
    let spend = Input::Utxo(UtxoPointer {
        transaction_id: tx_id(1),
        output_index: 0,
        value: Value(10),
    });
    block(2, 1, 2, vec![transfer(2, vec![spend], vec![Witness::Account], vec![(0xc, 10)])])
}

fn started() -> ExplorerDB {
    ExplorerDB::genesis(&genesis_block()).expect("the genesis block to be indexed")
}

#[test]
fn genesis_only() {
    let b0 = genesis_block();
    let db = ExplorerDB::bootstrap(b0.clone(), Some(id(0)), Some(vec![])).unwrap();
    let kept = db.get_block(&id(0)).expect("the genesis block to be kept");
    assert_eq!(kept.id, id(0));
    assert_eq!(kept.chain_length, ChainLength(0));
    assert!(kept.transactions.is_empty());
    assert_eq!(db.get_block(&id(1)), None);
    assert_eq!(db.find_block_by_chain_length(ChainLength(0)), Some(id(0)));
    assert_eq!(db.find_block_by_chain_length(ChainLength(1)), None);
    assert_eq!(db.find_block_by_transaction(&tx_id(200)), None);
    assert_eq!(db.find_block_by_transaction(&tx_id(1)), None);
    assert_eq!(
        db.get_epoch(0),
        Some(EpochData { first_block: id(0), last_block: id(0), total_blocks: 0 })
    );
    assert_eq!(db.get_epoch(1), None);
    assert_eq!(db.longest_chain_tip(), b0.header);
    assert!(db.is_indexed(&id(0)));
}

#[test]
fn one_transaction() {
    let mut db = started();
    let root = db.apply_block(block_one()).unwrap();
    assert_eq!(root.hash(), id(1));
    assert_eq!(db.find_block_by_transaction(&tx_id(1)), Some(id(1)));
    assert!(db.address_names(&address(0xa), &tx_id(1)));
    assert!(db.address_names(&address(0xb), &tx_id(1)));
    assert!(!db.address_names(&address(0xc), &tx_id(1)));
    assert!(!db.address_names(&address(0xa), &tx_id(2)));
    assert_eq!(
        db.get_epoch(0),
        Some(EpochData { first_block: id(0), last_block: id(1), total_blocks: 1 })
    );
    assert_eq!(db.find_block_by_chain_length(ChainLength(1)), Some(id(1)));
    assert_eq!(db.find_block_by_chain_length(ChainLength(0)), Some(id(0)));
    assert_eq!(db.longest_chain_tip(), block_one().header);
    let kept = db.get_block(&id(1)).unwrap();
    assert_eq!(kept.parent_hash, id(0));
    assert_eq!(kept.transactions.len(), 1);
    assert_eq!(kept.transactions[0].id(), tx_id(1));
    assert!(kept.transactions[0].inputs().is_empty());
    assert_eq!(
        kept.transactions[0].outputs(),
        &vec![
            ExplorerOutput { address: address(0xa), value: Value(10) },
            ExplorerOutput { address: address(0xb), value: Value(5) },
        ]
    );
}

#[test]
fn utxo_resolution() {
    let mut db = started();
    db.apply_block(block_one()).unwrap();
    db.apply_block(block_two()).unwrap();
    let kept = db.get_block(&id(2)).unwrap();
    assert_eq!(
        kept.transactions[0].inputs(),
        &vec![ExplorerInput { address: address(0xa), value: Value(10) }]
    );
    assert!(db.address_names(&address(0xa), &tx_id(1)));
    assert!(db.address_names(&address(0xa), &tx_id(2)));
    assert!(db.address_names(&address(0xc), &tx_id(2)));
    assert!(!db.address_names(&address(0xb), &tx_id(2)));
    assert_eq!(db.find_block_by_transaction(&tx_id(2)), Some(id(2)));
    assert_eq!(
        db.get_epoch(0),
        Some(EpochData { first_block: id(0), last_block: id(2), total_blocks: 2 })
    );
}

#[test]
fn utxo_resolution_takes_the_value_of_the_output() {
    let mut db = started();
    db.apply_block(block_one()).unwrap();
    let spend = Input::Utxo(UtxoPointer {
        transaction_id: tx_id(1),
        output_index: 1,
        value: Value(999),
    });
    let b2 = block(2, 1, 2, vec![transfer(2, vec![spend], vec![Witness::Utxo], vec![])]);
    db.apply_block(b2).unwrap();
    let kept = db.get_block(&id(2)).unwrap();
    assert_eq!(
        kept.transactions[0].inputs(),
        &vec![ExplorerInput { address: address(0xb), value: Value(5) }]
    );
}

#[test]
fn fork() {
    let mut db = started();
    db.apply_block(block_one()).unwrap();
    let b2 = block(2, 1, 2, vec![]);
    let b2_prime = block(12, 1, 2, vec![]);
    db.apply_block(b2.clone()).unwrap();
    db.apply_block(b2_prime.clone()).unwrap();
    assert!(db.is_indexed(&id(2)));
    assert!(db.is_indexed(&id(12)));
    assert_eq!(db.longest_chain_tip(), b2.header);
    assert_eq!(db.find_block_by_chain_length(ChainLength(2)), Some(id(2)));
    let b3_prime = block(13, 12, 3, vec![]);
    db.apply_block(b3_prime.clone()).unwrap();
    assert_eq!(db.longest_chain_tip(), b3_prime.header);
    assert_eq!(db.find_block_by_chain_length(ChainLength(2)), Some(id(12)));
    assert_eq!(db.find_block_by_chain_length(ChainLength(3)), Some(id(13)));
    assert_eq!(db.get_block(&id(2)), None);
    assert!(db.get_block(&id(12)).is_some());
}

#[test]
fn duplicate_transaction() {
    let mut db = started();
    db.apply_block(block(1, 0, 1, vec![])).unwrap();
    let b2 = block(2, 1, 2, vec![transfer(1, vec![], vec![], vec![(0xa, 10), (0xb, 5)])]);
    db.apply_block(b2.clone()).unwrap();
    let b3 = block(3, 2, 3, vec![transfer(1, vec![], vec![], vec![(0xa, 10), (0xb, 5)])]);
    assert_eq!(db.apply_block(b3), Err(Error::TransactionAlreadyExists(tx_id(1))));
    assert!(!db.is_indexed(&id(3)));
    assert_eq!(db.find_block_by_chain_length(ChainLength(3)), None);
    assert_eq!(db.find_block_by_transaction(&tx_id(1)), Some(id(2)));
    assert_eq!(db.longest_chain_tip(), b2.header);
}

#[test]
fn transaction_of_another_branch_is_no_duplicate() {
    let mut db = started();
    db.apply_block(block_one()).unwrap();
    let sibling = block(11, 0, 1, vec![transfer(1, vec![], vec![], vec![(0xa, 10)])]);
    db.apply_block(sibling).unwrap();
    assert!(db.is_indexed(&id(11)));
    assert_eq!(db.find_block_by_transaction(&tx_id(1)), Some(id(1)));
}

fn chain() -> Vec<Block> {
    vec![
        block_one(),
        block_two(),
        block(3, 2, 3, vec![transfer(3, vec![], vec![], vec![(0xa, 1)])]),
        Block { header: header(id(4), id(3), 4, 1), contents: vec![] },
        Block {
            header: header(id(5), id(4), 5, 1),
            contents: vec![transfer(
                5,
                vec![Input::Account([7u8; 32], Value(3))],
                vec![Witness::Account],
                vec![(0xd, 3)],
            )],
        },
    ]
}

#[test]
fn bootstrap_replay() {
    let db = ExplorerDB::bootstrap(genesis_block(), Some(id(5)), Some(chain())).unwrap();
    let mut step = started();
    for b in chain() {
        step.apply_block(b).unwrap();
    }
    for n in 0..6u8 {
        assert!(db.is_indexed(&id(n)));
        assert!(step.is_indexed(&id(n)));
        assert_eq!(db.get_block(&id(n)), step.get_block(&id(n)));
        assert!(db.get_block(&id(n)).is_some());
        assert_eq!(db.find_block_by_chain_length(ChainLength(n as u32)), Some(id(n)));
        assert_eq!(step.find_block_by_chain_length(ChainLength(n as u32)), Some(id(n)));
    }
    assert!(!db.is_indexed(&id(6)));
    assert_eq!(db.longest_chain_tip(), chain()[4].header);
    assert_eq!(step.longest_chain_tip(), chain()[4].header);
    for e in 0..3u32 {
        assert_eq!(db.get_epoch(e), step.get_epoch(e));
    }
    assert_eq!(
        db.get_epoch(0),
        Some(EpochData { first_block: id(0), last_block: id(3), total_blocks: 3 })
    );
    assert_eq!(
        db.get_epoch(1),
        Some(EpochData { first_block: id(4), last_block: id(5), total_blocks: 1 })
    );
    for t in [1u8, 2, 3, 5] {
        assert_eq!(db.find_block_by_transaction(&tx_id(t)), Some(id(t)));
        assert_eq!(step.find_block_by_transaction(&tx_id(t)), Some(id(t)));
    }
    let account = Address(Discrimination::Test, Kind::Account([7u8; 32]));
    assert!(db.address_names(&account, &tx_id(5)));
    assert!(db.address_names(&address(0xa), &tx_id(3)));
}

#[test]
fn unknown_parent_is_refused() {
    let mut db = started();
    let orphan = block(9, 8, 9, vec![]);
    assert_eq!(db.apply_block(orphan), Err(Error::AncestorNotFound(id(9))));
    assert!(!db.is_indexed(&id(9)));
    assert!(db.is_indexed(&id(0)));
    assert_eq!(db.longest_chain_tip(), genesis_block().header);
    assert_eq!(db.find_block_by_chain_length(ChainLength(9)), None);
}

#[test]
fn block_on_its_own_branch_is_refused() {
    let mut db = started();
    db.apply_block(block(1, 0, 1, vec![])).unwrap();
    db.apply_block(block(2, 1, 2, vec![])).unwrap();
    let again = block(1, 2, 3, vec![]);
    assert_eq!(db.apply_block(again), Err(Error::BlockAlreadyExists(id(1))));
    assert_eq!(db.longest_chain_tip().hash, id(2));
    let kept = db.get_block(&id(1)).unwrap();
    assert_eq!(kept.parent_hash, id(0));
    assert_eq!(kept.chain_length, ChainLength(1));
    assert_eq!(db.find_block_by_chain_length(ChainLength(3)), None);
}

#[test]
fn same_block_from_the_same_parent_keeps_the_first_snapshot() {
    let mut db = started();
    db.apply_block(block_one()).unwrap();
    let root = db.apply_block(block_one()).unwrap();
    assert_eq!(root.hash(), id(1));
    assert_eq!(db.find_block_by_transaction(&tx_id(1)), Some(id(1)));
    assert_eq!(
        db.get_epoch(0),
        Some(EpochData { first_block: id(0), last_block: id(1), total_blocks: 1 })
    );
}

#[test]
fn chain_length_taken_on_the_branch_is_refused() {
    let mut db = started();
    db.apply_block(block(1, 0, 1, vec![])).unwrap();
    let same_height = block(2, 1, 1, vec![]);
    assert_eq!(db.apply_block(same_height), Err(Error::ChainLengthBlockAlreadyExists(1)));
    assert!(!db.is_indexed(&id(2)));
}

#[test]
fn transaction_is_looked_at_before_the_block() {
    let mut db = started();
    db.apply_block(block_one()).unwrap();
    let both = block(1, 1, 1, vec![transfer(1, vec![], vec![], vec![])]);
    assert_eq!(db.apply_block(both), Err(Error::TransactionAlreadyExists(tx_id(1))));
}

#[test]
fn tip_moves_to_longer_only() {
    let mut db = started();
    db.apply_block(block(1, 0, 1, vec![])).unwrap();
    assert_eq!(db.longest_chain_tip().hash, id(1));
    db.apply_block(block(11, 0, 1, vec![])).unwrap();
    assert_eq!(db.longest_chain_tip().hash, id(1));
    db.apply_block(block(12, 11, 2, vec![])).unwrap();
    assert_eq!(db.longest_chain_tip().hash, id(12));
    db.apply_block(block(2, 1, 2, vec![])).unwrap();
    assert_eq!(db.longest_chain_tip().hash, id(12));
}

#[test]
fn unresolved_input_is_an_internal_failure() {
    let mut db = started();
    let spend = Input::Utxo(UtxoPointer {
        transaction_id: tx_id(77),
        output_index: 0,
        value: Value(1),
    });
    let b1 = block(1, 0, 1, vec![transfer(1, vec![spend], vec![Witness::Utxo], vec![])]);
    assert_eq!(db.apply_block(b1), Err(Error::Internal));
    assert!(!db.is_indexed(&id(1)));
    db.apply_block(block_one()).unwrap();
    let past_the_end = Input::Utxo(UtxoPointer {
        transaction_id: tx_id(1),
        output_index: 2,
        value: Value(1),
    });
    let b2 = block(2, 1, 2, vec![transfer(2, vec![past_the_end], vec![Witness::Utxo], vec![])]);
    assert_eq!(db.apply_block(b2), Err(Error::Internal));
}

#[test]
fn input_is_resolved_against_the_parent_branch_only() {
    let mut db = started();
    db.apply_block(block_one()).unwrap();
    let spend = Input::Utxo(UtxoPointer {
        transaction_id: tx_id(1),
        output_index: 0,
        value: Value(10),
    });
    let sibling = block(11, 0, 1, vec![transfer(2, vec![spend], vec![Witness::Utxo], vec![])]);
    assert_eq!(db.apply_block(sibling), Err(Error::Internal));
}

#[test]
fn genesis_transactions_are_not_in_the_addresses() {
    let b0 = Block {
        header: header(id(0), id(0), 0, 0),
        contents: vec![initial(), transfer(1, vec![], vec![], vec![(0xa, 100)])],
    };
    let db = ExplorerDB::genesis(&b0).unwrap();
    assert_eq!(db.find_block_by_transaction(&tx_id(1)), Some(id(0)));
    assert!(!db.address_names(&address(0xa), &tx_id(1)));
    assert_eq!(db.get_block(&id(0)).unwrap().transactions.len(), 1);
}

#[test]
fn bootstrap_failures() {
    let no_initial = Block { header: header(id(0), id(0), 0, 0), contents: vec![] };
    assert_eq!(
        ExplorerDB::bootstrap(no_initial, Some(id(0)), Some(vec![])).err(),
        Some(Error::BootstrapError(
            "the Initial fragment to be present in the genesis block".to_owned()
        ))
    );
    let no_discrimination = Block {
        header: header(id(0), id(0), 0, 0),
        contents: vec![Fragment {
            id: tx_id(200),
            payload: Payload::Initial(vec![ConfigParam::ConsensusVersion(
                ConsensusVersion::GenesisPraos,
            )]),
        }],
    };
    assert_eq!(
        ExplorerDB::genesis(&no_discrimination).err(),
        Some(Error::BootstrapError("the discrimination to be present".to_owned()))
    );
    let no_consensus = Block {
        header: header(id(0), id(0), 0, 0),
        contents: vec![Fragment {
            id: tx_id(200),
            payload: Payload::Initial(vec![ConfigParam::Discrimination(
                Discrimination::Production,
            )]),
        }],
    };
    assert_eq!(
        ExplorerDB::genesis(&no_consensus).err(),
        Some(Error::BootstrapError("consensus version to be present".to_owned()))
    );
    assert_eq!(
        ExplorerDB::bootstrap(genesis_block(), None, Some(vec![])).err(),
        Some(Error::BootstrapError("Couldn't read the HEAD tag from storage".to_owned()))
    );
    assert_eq!(
        ExplorerDB::bootstrap(genesis_block(), Some(id(0)), None).err(),
        Some(Error::BootstrapError("Couldn't iterate from Block0 to HEAD".to_owned()))
    );
    let broken = vec![block_one(), block(9, 8, 2, vec![])];
    assert_eq!(
        ExplorerDB::bootstrap(genesis_block(), Some(id(9)), Some(broken)).err(),
        Some(Error::AncestorNotFound(id(9)))
    );
}

#[test]
fn account_inputs_take_the_discrimination_of_the_chain() {
    let mut db = started();
    let inputs = vec![
        Input::Account([1u8; 32], Value(4)),
        Input::Account([2u8; 32], Value(6)),
        Input::Account([3u8; 32], Value(8)),
    ];
    let witnesses = vec![Witness::Account, Witness::Multisig, Witness::Account];
    let b1 = block(1, 0, 1, vec![transfer(1, inputs, witnesses, vec![(0xa, 18)])]);
    db.apply_block(b1).unwrap();
    let kept = db.get_block(&id(1)).unwrap();
    assert_eq!(
        kept.transactions[0].inputs(),
        &vec![
            ExplorerInput {
                address: Address(Discrimination::Test, Kind::Account([1u8; 32])),
                value: Value(4)
            },
            ExplorerInput {
                address: Address(Discrimination::Test, Kind::Account([3u8; 32])),
                value: Value(8)
            },
        ]
    );
    assert!(db.address_names(&Address(Discrimination::Test, Kind::Account([1u8; 32])), &tx_id(1)));
    assert!(!db.address_names(&Address(Discrimination::Test, Kind::Account([2u8; 32])), &tx_id(1)));
    assert!(!db
        .address_names(&Address(Discrimination::Production, Kind::Account([1u8; 32])), &tx_id(1)));
}

#[test]
fn service_indexes_new_blocks_and_goes_on_after_a_failure() {
    let mut explorer = Explorer::new(started());
    assert_eq!(explorer.handle_input(ServiceInput::Input(ExplorerMsg::NewBlock(block_one()))), None);
    assert!(explorer.db.is_indexed(&id(1)));
    let orphan = block(9, 8, 9, vec![]);
    assert_eq!(
        explorer.handle_input(ServiceInput::Input(ExplorerMsg::NewBlock(orphan))),
        Some(Error::AncestorNotFound(id(9)))
    );
    assert_eq!(explorer.handle_input(ServiceInput::Shutdown), None);
    assert_eq!(explorer.db.longest_chain_tip().hash, id(1));
    assert_eq!(explorer.handle_input(ServiceInput::Input(ExplorerMsg::NewBlock(block_two()))), None);
    assert_eq!(explorer.db.longest_chain_tip().hash, id(2));
    let context = explorer.context();
    assert_eq!(context.settings.address_bech32_prefix, "ca");
    assert_eq!(context.db.longest_chain_tip().hash, id(2));
    assert_eq!(context.db.find_block_by_transaction(&tx_id(2)), Some(id(2)));
}

#[test]
fn a_handle_on_the_explorer_is_a_snapshot() {
    let mut db = started();
    db.apply_block(block_one()).unwrap();
    let seen = db.clone();
    db.apply_block(block_two()).unwrap();
    assert_eq!(seen.longest_chain_tip().hash, id(1));
    assert!(!seen.is_indexed(&id(2)));
    assert_eq!(seen.find_block_by_transaction(&tx_id(2)), None);
    assert_eq!(db.find_block_by_transaction(&tx_id(2)), Some(id(2)));
}
