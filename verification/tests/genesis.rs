use jormungandr::address::{Address, Discrimination, Kind};
use jormungandr::blockcfg::{
    block_0_get_initial, block_0_get_slot_duration, block_0_get_slots_per_epoch,
    block_0_get_start_time, AuthenticatedTransaction, Block, Block0Error, Block0Malformed,
    BlockDate, Certificate, ChainLength, ConfigParam, ConsensusVersion, Fragment, Header, Input,
    LinearFee, Milli, OldAddress, Output, Payload, SignedUpdateProposal, UpdateProposal, Value,
};
use jormungandr::jcli_app::block::yaml::{
    BlockchainConfiguration, Error, Genesis, InitialCertificate, InitialLinearFee, InitialUTxO,
    LegacyUTxO, ParamName, Update,
};
use jormungandr::jcli_app::transaction::{path_to_path_buf, CommonFees, CommonTransaction};
use std::path::PathBuf;
use jormungandr::key::Digest;
use jormungandr::rest::{QueryParams, MAX_COUNT};

fn block_of(payloads: Vec<Payload>) -> Block {
    let contents = payloads
        .into_iter()
        .enumerate()
        .map(|(i, payload)| Fragment { id: Digest([i as u8; 32]), payload })
        .collect();
    Block {
        header: Header {
            hash: Digest([0xb0; 32]),
            parent_hash: Digest([0; 32]),
            chain_length: ChainLength(0),
            date: BlockDate { epoch: 0, slot_id: 0 },
        },
        contents,
    }
}

fn fund(n: u8, value: u64) -> InitialUTxO {
    InitialUTxO { address: Address(Discrimination::Test, Kind::Single([n; 32])), value: Value(value) }
}

fn genesis() -> Genesis {
    Genesis {
        blockchain_configuration: BlockchainConfiguration {
            block0_date: 123456789,
            discrimination: Discrimination::Test,
            block0_consensus: ConsensusVersion::Bft,
            slots_per_epoch: Some(5),
            slot_duration: 15,
            epoch_stability_depth: Some(10),
            consensus_leader_ids: vec![[0xbc; 32], [0xf4; 32]],
            consensus_genesis_praos_param_d: Some(Milli(222)),
            consensus_genesis_praos_param_f: Some(Milli(444)),
        },
        initial_setting: Update {
            max_number_of_transactions_per_block: Some(255),
            bootstrap_key_slots_percentage: Some(4),
            allow_account_creation: Some(true),
            linear_fee: Some(InitialLinearFee { coefficient: 1, constant: 2, certificate: 4 }),
        },
        initial_funds: vec![fund(0x83, 10000)],
        initial_certs: vec![InitialCertificate(Certificate(vec![4, 0, 0, 0, 0xd5, 0x01]))],
        legacy_funds: vec![
            LegacyUTxO { address: OldAddress(b"48mDfYyQn21iyEPzCfkATEHTwZBcZJqXhRJezmswfvc6".to_vec()), value: Value(123) },
            LegacyUTxO { address: OldAddress(b"48mDfYyQn21iyEPzCfkATEHTwZBcZJqXhRJezmswfvc6".to_vec()), value: Value(456) },
        ],
    }
}

#[test]
fn conversion_to_and_from_message_preserves_data() {
    let genesis = genesis();
    let block = block_of(genesis.to_block([0xad; 32]));
    let new_genesis = Genesis::from_block(&block).expect("Failed to build genesis");
    assert_eq!(
        genesis, new_genesis,
        "\nGenesis has changed after conversions:\n{:?}\n",
        new_genesis
    );
}

#[test]
fn genesis_block_lists_settings_proposal_funds_legacy_and_certificates() {
    let contents = genesis().to_block([0xad; 32]);
    assert_eq!(contents.len(), 5);
    assert_eq!(
        contents[0],
        Payload::Initial(vec![
            ConfigParam::Block0Date(123456789),
            ConfigParam::Discrimination(Discrimination::Test),
            ConfigParam::ConsensusVersion(ConsensusVersion::Bft),
            ConfigParam::SlotsPerEpoch(5),
            ConfigParam::SlotDuration(15),
            ConfigParam::EpochStabilityDepth(10),
            ConfigParam::ConsensusLeaderId([0xbc; 32]),
            ConfigParam::ConsensusLeaderId([0xf4; 32]),
            ConfigParam::ConsensusGenesisPraosParamD(Milli(222)),
            ConfigParam::ConsensusGenesisPraosActiveSlotsCoeff(Milli(444)),
        ])
    );
    assert_eq!(
        contents[1],
        Payload::UpdateProposal(SignedUpdateProposal {
            proposal: UpdateProposal {
                max_number_of_transactions_per_block: Some(255),
                bootstrap_key_slots_percentage: Some(4),
                consensus_version: None,
                bft_leaders: None,
                allow_account_creation: Some(true),
                linear_fees: Some(LinearFee { constant: 2, coefficient: 1, certificate: 4 }),
                slot_duration: None,
                epoch_stability_depth: None,
            },
            proposer_id: [0xad; 32],
            signature: vec![],
        })
    );
    assert_eq!(
        contents[2],
        Payload::Transaction(AuthenticatedTransaction {
            inputs: vec![],
            outputs: vec![Output {
                address: Address(Discrimination::Test, Kind::Single([0x83; 32])),
                value: Value(10000)
            }],
            witnesses: vec![],
        })
    );
    assert!(matches!(&contents[3], Payload::OldUtxoDeclaration(addrs) if addrs.len() == 2));
    assert_eq!(contents[4], Payload::Certificate(Certificate(vec![4, 0, 0, 0, 0xd5, 0x01])));
}

fn sizes(max: Option<u32>, funds: u8) -> Vec<usize> {
    let mut g = genesis();
    g.initial_setting.max_number_of_transactions_per_block = max;
    g.initial_funds = (0..funds).map(|n| fund(n, n as u64)).collect();
    g.legacy_funds = vec![];
    g.initial_certs = vec![];
    let contents = g.to_block([0; 32]);
    let again = Genesis::from_block(&block_of(contents.clone())).unwrap();
    assert_eq!(again, g);
    contents[2..]
        .iter()
        .map(|p| match p {
            Payload::Transaction(tx) => tx.outputs.len(),
            _ => panic!("only transactions follow the proposal"),
        })
        .collect()
}

#[test]
fn funds_go_into_messages_of_the_allowed_size() {
    assert_eq!(sizes(Some(3), 0), Vec::<usize>::new());
    assert_eq!(sizes(Some(3), 2), vec![2]);
    assert_eq!(sizes(Some(3), 3), vec![3]);
    assert_eq!(sizes(Some(3), 7), vec![3, 3, 1]);
    assert_eq!(sizes(Some(2), 5), vec![2, 2, 1]);
    assert_eq!(sizes(Some(1), 5), vec![5]);
    assert_eq!(sizes(Some(0), 5), vec![5]);
    assert_eq!(sizes(None, 200), vec![200]);
}

#[test]
fn from_ents_refuses_duplicates_and_gaps() {
    let full = vec![
        ConfigParam::Block0Date(1),
        ConfigParam::Discrimination(Discrimination::Production),
        ConfigParam::ConsensusVersion(ConsensusVersion::GenesisPraos),
        ConfigParam::SlotDuration(2),
    ];
    let c = BlockchainConfiguration::from_ents(&full).unwrap();
    assert_eq!(c.block0_date, 1);
    assert_eq!(c.discrimination, Discrimination::Production);
    assert_eq!(c.block0_consensus, ConsensusVersion::GenesisPraos);
    assert_eq!(c.slot_duration, 2);
    assert_eq!(c.slots_per_epoch, None);
    assert_eq!(c.epoch_stability_depth, None);
    assert!(c.consensus_leader_ids.is_empty());
    assert_eq!(c.to_ents(), full);
    let missing = [
        ParamName::Block0Date,
        ParamName::Discrimination,
        ParamName::Block0Consensus,
        ParamName::SlotDuration,
    ];
    for (i, name) in missing.iter().enumerate() {
        let mut ents = full.clone();
        ents.remove(i);
        assert_eq!(
            BlockchainConfiguration::from_ents(&ents),
            Err(Error::InitConfigParamMissing { name: *name })
        );
    }
    assert_eq!(
        BlockchainConfiguration::from_ents(&vec![]),
        Err(Error::InitConfigParamMissing { name: ParamName::Block0Date })
    );
    let repeats = vec![
        (ConfigParam::Block0Date(9), ParamName::Block0Date),
        (ConfigParam::Discrimination(Discrimination::Test), ParamName::Discrimination),
        (ConfigParam::ConsensusVersion(ConsensusVersion::Bft), ParamName::ConsensusVersion),
        (ConfigParam::SlotDuration(9), ParamName::SlotDuration),
    ];
    for (param, name) in repeats {
        let mut ents = full.clone();
        ents.push(param);
        assert_eq!(
            BlockchainConfiguration::from_ents(&ents),
            Err(Error::InitConfigParamDuplicate { name })
        );
    }
    let optional = vec![
        (ConfigParam::SlotsPerEpoch(9), ParamName::SlotsPerEpoch),
        (ConfigParam::EpochStabilityDepth(9), ParamName::EpochStabilityDepth),
        (ConfigParam::ConsensusGenesisPraosParamD(Milli(9)), ParamName::ConsensusGenesisPraosParamD),
        (
            ConfigParam::ConsensusGenesisPraosActiveSlotsCoeff(Milli(9)),
            ParamName::ConsensusGenesisPraosParamF,
        ),
    ];
    for (param, name) in optional {
        let once = vec![param];
        assert_eq!(
            BlockchainConfiguration::from_ents(&once),
            Err(Error::InitConfigParamMissing { name: ParamName::Block0Date })
        );
        let twice = vec![param, ConfigParam::ConsensusLeaderId([1; 32]), param];
        assert_eq!(
            BlockchainConfiguration::from_ents(&twice),
            Err(Error::InitConfigParamDuplicate { name })
        );
    }
    assert_eq!(ParamName::Block0Consensus.as_str(), "Block0Consensus");
    assert_eq!(ParamName::ConsensusGenesisPraosParamF.as_str(), "ConsensusGenesisPraosParamF");
}

#[test]
fn from_block_failures() {
    assert_eq!(Genesis::from_block(&block_of(vec![])), Err(Error::FirstBlock0MessageNotInit));
    assert_eq!(
        Genesis::from_block(&block_of(vec![Payload::UpdateVote])),
        Err(Error::FirstBlock0MessageNotInit)
    );
    let mut contents = genesis().to_block([0; 32]);
    let settings = contents[0].clone();
    assert_eq!(
        Genesis::from_block(&block_of(vec![settings.clone()])),
        Err(Error::SecondBlock0MessageNotUpdateProposal)
    );
    assert_eq!(
        Genesis::from_block(&block_of(vec![settings.clone(), settings.clone()])),
        Err(Error::SecondBlock0MessageNotUpdateProposal)
    );
    assert_eq!(
        Genesis::from_block(&block_of(vec![Payload::Initial(vec![]), contents[1].clone()])),
        Err(Error::InitConfigParamMissing { name: ParamName::Block0Date })
    );
    contents[2] = Payload::Transaction(AuthenticatedTransaction {
        inputs: vec![Input::Account([1; 32], Value(1))],
        outputs: vec![],
        witnesses: vec![],
    });
    assert_eq!(Genesis::from_block(&block_of(contents)), Err(Error::InitUtxoHasInput));
}

#[test]
fn from_block_stops_each_run_at_the_first_other_message() {
    let mut contents = genesis().to_block([0; 32]);
    let certificate = contents[4].clone();
    let funds = contents[2].clone();
    contents.insert(3, certificate);
    contents.push(funds);
    let g = Genesis::from_block(&block_of(contents)).unwrap();
    assert_eq!(g.initial_funds.len(), 1);
    assert!(g.legacy_funds.is_empty());
    assert_eq!(g.initial_certs.len(), 1);
}

#[test]
fn update_round_trip() {
    let update = Update {
        max_number_of_transactions_per_block: None,
        bootstrap_key_slots_percentage: Some(7),
        allow_account_creation: None,
        linear_fee: Some(InitialLinearFee { coefficient: 3, constant: 5, certificate: 8 }),
    };
    match update.to_message([2; 32]) {
        Payload::UpdateProposal(signed) => {
            assert_eq!(signed.proposer_id, [2; 32]);
            assert_eq!(
                signed.proposal.linear_fees,
                Some(LinearFee { constant: 5, coefficient: 3, certificate: 8 })
            );
            assert_eq!(Update::from_proposal(&signed.proposal), update);
        }
        _ => panic!("a proposal is expected"),
    }
}

#[test]
fn block_0_readers() {
    let block = block_of(genesis().to_block([0; 32]));
    assert_eq!(block_0_get_initial(&block).map(|p| p.len()), Ok(10));
    assert_eq!(block_0_get_start_time(&block), Ok(123456789));
    assert_eq!(block_0_get_slots_per_epoch(&block), Ok(Some(5)));
    assert_eq!(
        block_0_get_slot_duration(&block),
        Err(Block0Error::Malformed(Block0Malformed::NoSlotDuration))
    );
    let empty = block_of(vec![]);
    let no_settings = Err(Block0Error::Malformed(Block0Malformed::NoInitialSettings));
    assert_eq!(block_0_get_initial(&empty).map(|p| p.len()), no_settings.clone().map(|_: u64| 0));
    assert_eq!(block_0_get_start_time(&empty), no_settings);
    assert_eq!(
        block_0_get_slots_per_epoch(&empty),
        Err(Block0Error::Malformed(Block0Malformed::NoInitialSettings))
    );
    let bare = block_of(vec![Payload::Initial(vec![ConfigParam::SlotDuration(1)])]);
    assert_eq!(
        block_0_get_start_time(&bare),
        Err(Block0Error::Malformed(Block0Malformed::NoStartTime))
    );
    assert_eq!(block_0_get_slots_per_epoch(&bare), Ok(None));
}

fn proposal(slot_duration: Option<u8>) -> Payload {
    Payload::UpdateProposal(SignedUpdateProposal {
        proposal: UpdateProposal {
            max_number_of_transactions_per_block: None,
            bootstrap_key_slots_percentage: None,
            consensus_version: None,
            bft_leaders: None,
            allow_account_creation: None,
            linear_fees: None,
            slot_duration,
            epoch_stability_depth: None,
        },
        proposer_id: [0; 32],
        signature: vec![],
    })
}

#[test]
fn slot_duration_is_that_of_the_last_proposal() {
    let block = block_of(vec![proposal(Some(10)), Payload::UpdateVote, proposal(Some(20))]);
    assert_eq!(block_0_get_slot_duration(&block), Ok(20));
    let block = block_of(vec![proposal(Some(10)), proposal(None)]);
    assert_eq!(
        block_0_get_slot_duration(&block),
        Err(Block0Error::Malformed(Block0Malformed::NoSlotDuration))
    );
    let block = block_of(vec![proposal(Some(255)), Payload::UpdateVote]);
    assert_eq!(block_0_get_slot_duration(&block), Ok(255));
}

#[test]
fn count_of_a_request() {
    assert_eq!(MAX_COUNT, 100);
    assert_eq!(QueryParams { count: None }.get_count(), 1);
    assert_eq!(QueryParams { count: Some(0) }.get_count(), 0);
    assert_eq!(QueryParams { count: Some(7) }.get_count(), 7);
    assert_eq!(QueryParams { count: Some(100) }.get_count(), 100);
    assert_eq!(QueryParams { count: Some(101) }.get_count(), 100);
    assert_eq!(QueryParams { count: Some(usize::MAX) }.get_count(), 100);
}

#[test]
fn fees_of_the_command_line() {
    let fees = CommonFees { constant: 1, coefficient: 2, certificate: 3 };
    assert_eq!(fees.linear_fee(), LinearFee { constant: 1, coefficient: 2, certificate: 3 });
    assert_eq!(LinearFee::new(4, 5, 6), LinearFee { constant: 4, coefficient: 5, certificate: 6 });
}

#[test]
fn path_of_an_option() {
    assert_eq!(path_to_path_buf(&None), PathBuf::new());
    assert_eq!(path_to_path_buf(&Some(PathBuf::from("a/b.tx"))), PathBuf::from("a/b.tx"));
    let common = CommonTransaction { staging_file: Some(PathBuf::from("staging")) };
    assert_eq!(path_to_path_buf(&common.staging_file), PathBuf::from("staging"));
}
