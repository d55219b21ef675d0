//! The description of a chain, and the genesis block that says the same.

use crate::address::{Address, Discrimination};
use crate::blockcfg::{
    AuthenticatedTransaction, Block, Certificate, ConfigParam, ConsensusVersion, Fragment,
    LinearFee, Milli, OldAddress, Output, Payload, SignedUpdateProposal, UpdateProposal, Value,
};
use vstd::prelude::*;

verus! {

/// The settings of a chain that never change.
#[derive(Clone, Debug, PartialEq, Eq)]
pub struct BlockchainConfiguration {
    pub block0_date: u64,
    pub discrimination: Discrimination,
    pub block0_consensus: ConsensusVersion,
    pub slots_per_epoch: Option<u64>,
    pub slot_duration: u8,
    pub epoch_stability_depth: Option<u32>,
    pub consensus_leader_ids: Vec<[u8; 32]>,
    pub consensus_genesis_praos_param_d: Option<Milli>,
    pub consensus_genesis_praos_param_f: Option<Milli>,
}

/// What a `BlockchainConfiguration` holds.
pub struct BlockchainConfigurationView {
    pub block0_date: u64,
    pub discrimination: Discrimination,
    pub block0_consensus: ConsensusVersion,
    pub slots_per_epoch: Option<u64>,
    pub slot_duration: u8,
    pub epoch_stability_depth: Option<u32>,
    pub consensus_leader_ids: Seq<[u8; 32]>,
    pub consensus_genesis_praos_param_d: Option<Milli>,
    pub consensus_genesis_praos_param_f: Option<Milli>,
}

impl View for BlockchainConfiguration {
    type V = BlockchainConfigurationView;

    open spec fn view(&self) -> BlockchainConfigurationView {
        BlockchainConfigurationView {
            block0_date: self.block0_date,
            discrimination: self.discrimination,
            block0_consensus: self.block0_consensus,
            slots_per_epoch: self.slots_per_epoch,
            slot_duration: self.slot_duration,
            epoch_stability_depth: self.epoch_stability_depth,
            consensus_leader_ids: self.consensus_leader_ids@,
            consensus_genesis_praos_param_d: self.consensus_genesis_praos_param_d,
            consensus_genesis_praos_param_f: self.consensus_genesis_praos_param_f,
        }
    }
}

/// Why a genesis block cannot be turned into the description of a chain.
#[derive(Clone, Copy, Debug, PartialEq, Eq)]
pub enum Error {
    FirstBlock0MessageNotInit,
    SecondBlock0MessageNotUpdateProposal,
    InitUtxoHasInput,
    InitConfigParamMissing { name: ParamName },
    InitConfigParamDuplicate { name: ParamName },
}

/// The settings that a genesis block gives at most once, by their names.
#[derive(Clone, Copy, Debug, PartialEq, Eq)]
pub enum ParamName {
    Block0Date,
    Discrimination,
    ConsensusVersion,
    Block0Consensus,
    SlotsPerEpoch,
    SlotDuration,
    EpochStabilityDepth,
    ConsensusGenesisPraosParamD,
    ConsensusGenesisPraosParamF,
}

/// The name that a setting is reported under when the block gives it twice,
/// or `None` for a leader, of which it may give many.
pub open spec fn spec_name(param: ConfigParam) -> Option<ParamName> {
    match param {
        ConfigParam::Block0Date(_) => Some(ParamName::Block0Date),
        ConfigParam::ConsensusVersion(_) => Some(ParamName::ConsensusVersion),
        ConfigParam::Discrimination(_) => Some(ParamName::Discrimination),
        ConfigParam::SlotsPerEpoch(_) => Some(ParamName::SlotsPerEpoch),
        ConfigParam::SlotDuration(_) => Some(ParamName::SlotDuration),
        ConfigParam::EpochStabilityDepth(_) => Some(ParamName::EpochStabilityDepth),
        ConfigParam::ConsensusLeaderId(_) => None,
        ConfigParam::ConsensusGenesisPraosParamD(_) => Some(ParamName::ConsensusGenesisPraosParamD),
        ConfigParam::ConsensusGenesisPraosActiveSlotsCoeff(_) => Some(
            ParamName::ConsensusGenesisPraosParamF,
        ),
    }
}

/// The last setting of this name among the first `n`.
pub open spec fn spec_param(ents: Seq<ConfigParam>, n: nat, name: ParamName) -> Option<ConfigParam>
    decreases n,
{
    if n == 0 {
        None
    } else if spec_name(ents[n - 1]) == Some(name) {
        Some(ents[n - 1])
    } else {
        spec_param(ents, (n - 1) as nat, name)
    }
}

/// The setting at `i` has the name of a setting before it.
pub open spec fn spec_repeats(ents: Seq<ConfigParam>, i: nat) -> bool {
    spec_name(ents[i as int]) matches Some(name) && spec_param(ents, i, name) is Some
}

/// The place of the first setting among the first `n` that repeats a name,
/// or `n` if none does.
pub open spec fn spec_first_repeat(ents: Seq<ConfigParam>, n: nat) -> nat
    decreases n,
{
    if n == 0 {
        0
    } else {
        let before = spec_first_repeat(ents, (n - 1) as nat);
        if before < n - 1 {
            before
        } else if spec_repeats(ents, (n - 1) as nat) {
            (n - 1) as nat
        } else {
            n
        }
    }
}

/// The leaders among the first `n` settings, in their order.
pub open spec fn spec_leaders(ents: Seq<ConfigParam>, n: nat) -> Seq<[u8; 32]>
    decreases n,
{
    if n == 0 {
        Seq::empty()
    } else {
        match ents[n - 1] {
            ConfigParam::ConsensusLeaderId(id) => spec_leaders(ents, (n - 1) as nat).push(id),
            _ => spec_leaders(ents, (n - 1) as nat),
        }
    }
}

/// The description of the chain that the settings of a genesis block give:
/// no name may come twice, and the start date, the discrimination, the
/// consensus and the slot duration must be there.
pub open spec fn spec_from_ents(ents: Seq<ConfigParam>) -> Result<
    BlockchainConfigurationView,
    Error,
> {
    let n = ents.len();
    let repeat = spec_first_repeat(ents, n);
    if repeat < n {
        Err(Error::InitConfigParamDuplicate { name: spec_name(ents[repeat as int])->0 })
    } else if spec_param(ents, n, ParamName::Block0Date) is None {
        Err(Error::InitConfigParamMissing { name: ParamName::Block0Date })
    } else if spec_param(ents, n, ParamName::Discrimination) is None {
        Err(Error::InitConfigParamMissing { name: ParamName::Discrimination })
    } else if spec_param(ents, n, ParamName::ConsensusVersion) is None {
        Err(Error::InitConfigParamMissing { name: ParamName::Block0Consensus })
    } else if spec_param(ents, n, ParamName::SlotDuration) is None {
        Err(Error::InitConfigParamMissing { name: ParamName::SlotDuration })
    } else {
        Ok(
            BlockchainConfigurationView {
                block0_date: spec_param(ents, n, ParamName::Block0Date)->0->Block0Date_0,
                discrimination: spec_param(ents, n, ParamName::Discrimination)->0->Discrimination_0,
                block0_consensus: spec_param(
                    ents,
                    n,
                    ParamName::ConsensusVersion,
                )->0->ConsensusVersion_0,
                slots_per_epoch: match spec_param(ents, n, ParamName::SlotsPerEpoch) {
                    Some(ConfigParam::SlotsPerEpoch(v)) => Some(v),
                    _ => None,
                },
                slot_duration: spec_param(ents, n, ParamName::SlotDuration)->0->SlotDuration_0,
                epoch_stability_depth: match spec_param(ents, n, ParamName::EpochStabilityDepth) {
                    Some(ConfigParam::EpochStabilityDepth(v)) => Some(v),
                    _ => None,
                },
                consensus_leader_ids: spec_leaders(ents, n),
                consensus_genesis_praos_param_d: match spec_param(
                    ents,
                    n,
                    ParamName::ConsensusGenesisPraosParamD,
                ) {
                    Some(ConfigParam::ConsensusGenesisPraosParamD(v)) => Some(v),
                    _ => None,
                },
                consensus_genesis_praos_param_f: match spec_param(
                    ents,
                    n,
                    ParamName::ConsensusGenesisPraosParamF,
                ) {
                    Some(ConfigParam::ConsensusGenesisPraosActiveSlotsCoeff(v)) => Some(v),
                    _ => None,
                },
            },
        )
    }
}

/// What has been found before the first repeat stays the first repeat.
proof fn lemma_first_repeat_stays(ents: Seq<ConfigParam>, n: nat, m: nat)
    requires
        n <= m,
        spec_first_repeat(ents, n) < n,
    ensures
        spec_first_repeat(ents, m) == spec_first_repeat(ents, n),
    decreases m,
{
    if n < m {
        lemma_first_repeat_stays(ents, n, (m - 1) as nat);
    }
}


impl ParamName {
    /// The name as it is written in a message.
    pub fn as_str(&self) -> (r: &'static str)
        ensures
            r@ == match *self {
                ParamName::Block0Date => "Block0Date"@,
                ParamName::Discrimination => "Discrimination"@,
                ParamName::ConsensusVersion => "ConsensusVersion"@,
                ParamName::Block0Consensus => "Block0Consensus"@,
                ParamName::SlotsPerEpoch => "SlotsPerEpoch"@,
                ParamName::SlotDuration => "SlotDuration"@,
                ParamName::EpochStabilityDepth => "EpochStabilityDepth"@,
                ParamName::ConsensusGenesisPraosParamD => "ConsensusGenesisPraosParamD"@,
                ParamName::ConsensusGenesisPraosParamF => "ConsensusGenesisPraosParamF"@,
            },
    {
        match self {
            ParamName::Block0Date => "Block0Date",
            ParamName::Discrimination => "Discrimination",
            ParamName::ConsensusVersion => "ConsensusVersion",
            ParamName::Block0Consensus => "Block0Consensus",
            ParamName::SlotsPerEpoch => "SlotsPerEpoch",
            ParamName::SlotDuration => "SlotDuration",
            ParamName::EpochStabilityDepth => "EpochStabilityDepth",
            ParamName::ConsensusGenesisPraosParamD => "ConsensusGenesisPraosParamD",
            ParamName::ConsensusGenesisPraosParamF => "ConsensusGenesisPraosParamF",
        }
    }
}

impl BlockchainConfiguration {
    /// The description of the chain that the settings of a genesis block
    /// give. Fails with `InitConfigParamDuplicate` on the first setting that
    /// repeats a name, and with `InitConfigParamMissing` where the start
    /// date, the discrimination, the consensus or the slot duration is not
    /// there, looked for in this order.
    pub fn from_ents(ents: &Vec<ConfigParam>) -> (r: Result<BlockchainConfiguration, Error>)
        ensures
            match r {
                Ok(c) => spec_from_ents(ents@) == Ok::<BlockchainConfigurationView, Error>(c@),
                Err(e) => spec_from_ents(ents@) == Err::<BlockchainConfigurationView, Error>(e),
            },
    {
        let mut block0_date: Option<u64> = None;
        let mut discrimination: Option<Discrimination> = None;
        let mut block0_consensus: Option<ConsensusVersion> = None;
        let mut slots_per_epoch: Option<u64> = None;
        let mut slot_duration: Option<u8> = None;
        let mut epoch_stability_depth: Option<u32> = None;
        let mut consensus_leader_ids: Vec<[u8; 32]> = Vec::new();
        let mut consensus_genesis_praos_param_d: Option<Milli> = None;
        let mut consensus_genesis_praos_param_f: Option<Milli> = None;
        let mut i: usize = 0;
        while i < ents.len()
            invariant
                i <= ents.len(),
                spec_first_repeat(ents@, i as nat) == i,
                consensus_leader_ids@ == spec_leaders(ents@, i as nat),
                match spec_param(ents@, i as nat, ParamName::Block0Date) {
                    Some(p) => p == ConfigParam::Block0Date(block0_date->0) && block0_date is Some,
                    None => block0_date is None,
                },
                match spec_param(ents@, i as nat, ParamName::Discrimination) {
                    Some(p) => p == ConfigParam::Discrimination(discrimination->0)
                        && discrimination is Some,
                    None => discrimination is None,
                },
                match spec_param(ents@, i as nat, ParamName::ConsensusVersion) {
                    Some(p) => p == ConfigParam::ConsensusVersion(block0_consensus->0)
                        && block0_consensus is Some,
                    None => block0_consensus is None,
                },
                match spec_param(ents@, i as nat, ParamName::SlotsPerEpoch) {
                    Some(p) => p == ConfigParam::SlotsPerEpoch(slots_per_epoch->0)
                        && slots_per_epoch is Some,
                    None => slots_per_epoch is None,
                },
                match spec_param(ents@, i as nat, ParamName::SlotDuration) {
                    Some(p) => p == ConfigParam::SlotDuration(slot_duration->0)
                        && slot_duration is Some,
                    None => slot_duration is None,
                },
                match spec_param(ents@, i as nat, ParamName::EpochStabilityDepth) {
                    Some(p) => p == ConfigParam::EpochStabilityDepth(epoch_stability_depth->0)
                        && epoch_stability_depth is Some,
                    None => epoch_stability_depth is None,
                },
                match spec_param(ents@, i as nat, ParamName::ConsensusGenesisPraosParamD) {
                    Some(p) => p == ConfigParam::ConsensusGenesisPraosParamD(
                        consensus_genesis_praos_param_d->0,
                    ) && consensus_genesis_praos_param_d is Some,
                    None => consensus_genesis_praos_param_d is None,
                },
                match spec_param(ents@, i as nat, ParamName::ConsensusGenesisPraosParamF) {
                    Some(p) => p == ConfigParam::ConsensusGenesisPraosActiveSlotsCoeff(
                        consensus_genesis_praos_param_f->0,
                    ) && consensus_genesis_praos_param_f is Some,
                    None => consensus_genesis_praos_param_f is None,
                },
            decreases ents.len() - i,
        {
            let duplicate: Option<ParamName> = match &ents[i] {
                ConfigParam::Block0Date(param) => {
                    let seen = block0_date.is_some();
                    block0_date = Some(*param);
                    if seen {
                        Some(ParamName::Block0Date)
                    } else {
                        None
                    }
                },
                ConfigParam::ConsensusVersion(param) => {
                    let seen = block0_consensus.is_some();
                    block0_consensus = Some(*param);
                    if seen {
                        Some(ParamName::ConsensusVersion)
                    } else {
                        None
                    }
                },
                ConfigParam::Discrimination(param) => {
                    let seen = discrimination.is_some();
                    discrimination = Some(*param);
                    if seen {
                        Some(ParamName::Discrimination)
                    } else {
                        None
                    }
                },
                ConfigParam::SlotsPerEpoch(param) => {
                    let seen = slots_per_epoch.is_some();
                    slots_per_epoch = Some(*param);
                    if seen {
                        Some(ParamName::SlotsPerEpoch)
                    } else {
                        None
                    }
                },
                ConfigParam::SlotDuration(param) => {
                    let seen = slot_duration.is_some();
                    slot_duration = Some(*param);
                    if seen {
                        Some(ParamName::SlotDuration)
                    } else {
                        None
                    }
                },
                ConfigParam::EpochStabilityDepth(param) => {
                    let seen = epoch_stability_depth.is_some();
                    epoch_stability_depth = Some(*param);
                    if seen {
                        Some(ParamName::EpochStabilityDepth)
                    } else {
                        None
                    }
                },
                ConfigParam::ConsensusLeaderId(param) => {
                    consensus_leader_ids.push(*param);
                    None
                },
                ConfigParam::ConsensusGenesisPraosParamD(param) => {
                    let seen = consensus_genesis_praos_param_d.is_some();
                    consensus_genesis_praos_param_d = Some(*param);
                    if seen {
                        Some(ParamName::ConsensusGenesisPraosParamD)
                    } else {
                        None
                    }
                },
                ConfigParam::ConsensusGenesisPraosActiveSlotsCoeff(param) => {
                    let seen = consensus_genesis_praos_param_f.is_some();
                    consensus_genesis_praos_param_f = Some(*param);
                    if seen {
                        Some(ParamName::ConsensusGenesisPraosParamF)
                    } else {
                        None
                    }
                },
            };
            match duplicate {
                Some(name) => {
                    proof {
                        assert(spec_repeats(ents@, i as nat));
                        assert(spec_first_repeat(ents@, (i + 1) as nat) == i);
                        lemma_first_repeat_stays(ents@, (i + 1) as nat, ents@.len());
                    }
                    return Err(Error::InitConfigParamDuplicate { name });
                },
                None => {},
            }
            proof {
                assert(!spec_repeats(ents@, i as nat));
            }
            i += 1;
        }
        let block0_date = match block0_date {
            Some(v) => v,
            None => {
                return Err(Error::InitConfigParamMissing { name: ParamName::Block0Date });
            },
        };
        let discrimination = match discrimination {
            Some(v) => v,
            None => {
                return Err(Error::InitConfigParamMissing { name: ParamName::Discrimination });
            },
        };
        let block0_consensus = match block0_consensus {
            Some(v) => v,
            None => {
                return Err(Error::InitConfigParamMissing { name: ParamName::Block0Consensus });
            },
        };
        let slot_duration = match slot_duration {
            Some(v) => v,
            None => {
                return Err(Error::InitConfigParamMissing { name: ParamName::SlotDuration });
            },
        };
        Ok(
            BlockchainConfiguration {
                block0_date,
                discrimination,
                block0_consensus,
                slots_per_epoch,
                slot_duration,
                epoch_stability_depth,
                consensus_leader_ids,
                consensus_genesis_praos_param_d,
                consensus_genesis_praos_param_f,
            },
        )
    }
}


/// A setting, if there is a value for it.
pub open spec fn spec_optional<T>(value: Option<T>, make: spec_fn(T) -> ConfigParam) -> Seq<
    ConfigParam,
> {
    match value {
        Some(v) => seq![make(v)],
        None => Seq::empty(),
    }
}

/// The settings that describe a chain, in the order in which a genesis
/// block gives them.
pub open spec fn spec_to_ents(c: BlockchainConfigurationView) -> Seq<ConfigParam> {
    seq![
        ConfigParam::Block0Date(c.block0_date),
        ConfigParam::Discrimination(c.discrimination),
        ConfigParam::ConsensusVersion(c.block0_consensus),
    ] + spec_optional(c.slots_per_epoch, |v: u64| ConfigParam::SlotsPerEpoch(v)) + seq![
        ConfigParam::SlotDuration(c.slot_duration),
    ] + spec_optional(c.epoch_stability_depth, |v: u32| ConfigParam::EpochStabilityDepth(v))
        + Seq::new(
        c.consensus_leader_ids.len(),
        |i: int| ConfigParam::ConsensusLeaderId(c.consensus_leader_ids[i]),
    ) + spec_optional(
        c.consensus_genesis_praos_param_d,
        |v: Milli| ConfigParam::ConsensusGenesisPraosParamD(v),
    ) + spec_optional(
        c.consensus_genesis_praos_param_f,
        |v: Milli| ConfigParam::ConsensusGenesisPraosActiveSlotsCoeff(v),
    )
}

impl BlockchainConfiguration {
    /// The settings that describe the chain, as a genesis block gives them.
    pub fn to_ents(self) -> (r: Vec<ConfigParam>)
        ensures
            r@ == spec_to_ents(self@),
    {
        self.ents()
    }

    fn ents(&self) -> (r: Vec<ConfigParam>)
        ensures
            r@ == spec_to_ents(self@),
    {
        let ghost c = self@;
        let BlockchainConfiguration {
            block0_date,
            discrimination,
            block0_consensus,
            slots_per_epoch,
            slot_duration,
            epoch_stability_depth,
            consensus_leader_ids,
            consensus_genesis_praos_param_d,
            consensus_genesis_praos_param_f,
        } = self;
        let block0_date = *block0_date;
        let discrimination = *discrimination;
        let block0_consensus = *block0_consensus;
        let slots_per_epoch = *slots_per_epoch;
        let slot_duration = *slot_duration;
        let epoch_stability_depth = *epoch_stability_depth;
        let consensus_genesis_praos_param_d = *consensus_genesis_praos_param_d;
        let consensus_genesis_praos_param_f = *consensus_genesis_praos_param_f;
        let mut initial_ents: Vec<ConfigParam> = Vec::new();
        initial_ents.push(ConfigParam::Block0Date(block0_date));
        initial_ents.push(ConfigParam::Discrimination(discrimination));
        initial_ents.push(ConfigParam::ConsensusVersion(block0_consensus));
        if let Some(slots_per_epoch) = slots_per_epoch {
            initial_ents.push(ConfigParam::SlotsPerEpoch(slots_per_epoch))
        }
        initial_ents.push(ConfigParam::SlotDuration(slot_duration));
        if let Some(epoch_stability_depth) = epoch_stability_depth {
            initial_ents.push(ConfigParam::EpochStabilityDepth(epoch_stability_depth))
        }
        let ghost head = initial_ents@;
        proof {
            assert(head =~= seq![
                ConfigParam::Block0Date(c.block0_date),
                ConfigParam::Discrimination(c.discrimination),
                ConfigParam::ConsensusVersion(c.block0_consensus),
            ] + spec_optional(c.slots_per_epoch, |v: u64| ConfigParam::SlotsPerEpoch(v)) + seq![
                ConfigParam::SlotDuration(c.slot_duration),
            ] + spec_optional(
                c.epoch_stability_depth,
                |v: u32| ConfigParam::EpochStabilityDepth(v),
            ));
        }
        let mut i: usize = 0;
        while i < consensus_leader_ids.len()
            invariant
                i <= consensus_leader_ids.len(),
                consensus_leader_ids@ == c.consensus_leader_ids,
                initial_ents@ == head + Seq::new(
                    i as nat,
                    |j: int| ConfigParam::ConsensusLeaderId(c.consensus_leader_ids[j]),
                ),
            decreases consensus_leader_ids.len() - i,
        {
            initial_ents.push(ConfigParam::ConsensusLeaderId(consensus_leader_ids[i]));
            i += 1;
            proof {
                assert(initial_ents@ =~= head + Seq::new(
                    i as nat,
                    |j: int| ConfigParam::ConsensusLeaderId(c.consensus_leader_ids[j]),
                ));
            }
        }
        let ghost middle = initial_ents@;
        if let Some(consensus_genesis_praos_param_d) = consensus_genesis_praos_param_d {
            initial_ents.push(
                ConfigParam::ConsensusGenesisPraosParamD(consensus_genesis_praos_param_d),
            )
        }
        if let Some(consensus_genesis_praos_param_f) = consensus_genesis_praos_param_f {
            initial_ents.push(
                ConfigParam::ConsensusGenesisPraosActiveSlotsCoeff(consensus_genesis_praos_param_f),
            )
        }
        proof {
            assert(initial_ents@ =~= middle + spec_optional(
                c.consensus_genesis_praos_param_d,
                |v: Milli| ConfigParam::ConsensusGenesisPraosParamD(v),
            ) + spec_optional(
                c.consensus_genesis_praos_param_f,
                |v: Milli| ConfigParam::ConsensusGenesisPraosActiveSlotsCoeff(v),
            ));
        }
        initial_ents
    }
}

/// The fee of a transaction as a description of a chain gives it.
#[derive(Clone, Copy, Debug, PartialEq, Eq)]
pub struct InitialLinearFee {
    pub coefficient: u64,
    pub constant: u64,
    pub certificate: u64,
}

/// The settings of a chain that may change later, with the value that each
/// starts with, where the description gives one.
#[derive(Clone, Copy, Debug, PartialEq, Eq)]
pub struct Update {
    pub max_number_of_transactions_per_block: Option<u32>,
    pub bootstrap_key_slots_percentage: Option<u8>,
    pub allow_account_creation: Option<bool>,
    pub linear_fee: Option<InitialLinearFee>,
}

/// The fee in a description.
pub open spec fn spec_initial_fee(fee: LinearFee) -> InitialLinearFee {
    InitialLinearFee {
        constant: fee.constant,
        coefficient: fee.coefficient,
        certificate: fee.certificate,
    }
}

/// What a proposal says of the settings that a description holds.
pub open spec fn spec_from_proposal(proposal: UpdateProposal) -> Update {
    Update {
        max_number_of_transactions_per_block: proposal.max_number_of_transactions_per_block,
        bootstrap_key_slots_percentage: proposal.bootstrap_key_slots_percentage,
        allow_account_creation: proposal.allow_account_creation,
        linear_fee: match proposal.linear_fees {
            Some(fee) => Some(spec_initial_fee(fee)),
            None => None,
        },
    }
}

impl Update {
    /// The proposal that sets the initial values, made by `proposer_id` and
    /// left unsigned: it says nothing of the consensus, of the leaders, of
    /// the slot duration and of the stability depth.
    pub fn to_message(self, proposer_id: [u8; 32]) -> (r: Payload)
        ensures
            r matches Payload::UpdateProposal(signed) && {
                &&& signed.proposer_id == proposer_id
                &&& signed.signature@ == Seq::<u8>::empty()
                &&& spec_from_proposal(signed.proposal) == self
                &&& signed.proposal.consensus_version is None
                &&& signed.proposal.bft_leaders is None
                &&& signed.proposal.slot_duration is None
                &&& signed.proposal.epoch_stability_depth is None
            },
    {
        let proposal = UpdateProposal {
            max_number_of_transactions_per_block: self.max_number_of_transactions_per_block,
            bootstrap_key_slots_percentage: self.bootstrap_key_slots_percentage,
            consensus_version: None,
            bft_leaders: None,
            allow_account_creation: self.allow_account_creation,
            linear_fees: match self.linear_fee {
                Some(linear_fee) => Some(
                    LinearFee {
                        constant: linear_fee.constant,
                        coefficient: linear_fee.coefficient,
                        certificate: linear_fee.certificate,
                    },
                ),
                None => None,
            },
            slot_duration: None,
            epoch_stability_depth: None,
        };
        Payload::UpdateProposal(SignedUpdateProposal { proposal, proposer_id, signature: Vec::new() })
    }

    /// What a proposal says of the settings that a description holds.
    pub fn from_proposal(update_proposal: &UpdateProposal) -> (r: Update)
        ensures
            r == spec_from_proposal(*update_proposal),
    {
        Update {
            max_number_of_transactions_per_block: update_proposal.max_number_of_transactions_per_block,
            bootstrap_key_slots_percentage: update_proposal.bootstrap_key_slots_percentage,
            allow_account_creation: update_proposal.allow_account_creation,
            linear_fee: match update_proposal.linear_fees {
                Some(linear_fee) => Some(
                    InitialLinearFee {
                        constant: linear_fee.constant,
                        coefficient: linear_fee.coefficient,
                        certificate: linear_fee.certificate,
                    },
                ),
                None => None,
            },
        }
    }
}


// ---------------------------------------------------------------------
// The description of a chain and its genesis block
// ---------------------------------------------------------------------
/// A certificate that the chain starts with.
#[derive(Clone, Debug, PartialEq, Eq)]
pub struct InitialCertificate(pub Certificate);

/// Value that the chain starts with, at an address.
#[derive(Clone, Copy, Debug, PartialEq, Eq)]
pub struct InitialUTxO {
    pub address: Address,
    pub value: Value,
}

/// Value that the chain takes over from the chain it follows.
#[derive(Clone, Debug, PartialEq, Eq)]
pub struct LegacyUTxO {
    pub address: OldAddress,
    pub value: Value,
}

/// The description of a chain, from which its genesis block is made.
#[derive(Clone, Debug, PartialEq, Eq)]
pub struct Genesis {
    pub blockchain_configuration: BlockchainConfiguration,
    pub initial_setting: Update,
    pub initial_funds: Vec<InitialUTxO>,
    pub initial_certs: Vec<InitialCertificate>,
    pub legacy_funds: Vec<LegacyUTxO>,
}

/// What a `Genesis` holds.
pub struct GenesisView {
    pub blockchain_configuration: BlockchainConfigurationView,
    pub initial_setting: Update,
    pub initial_funds: Seq<InitialUTxO>,
    pub initial_certs: Seq<Seq<u8>>,
    pub legacy_funds: Seq<(Seq<u8>, Value)>,
}

/// The bytes of each certificate.
pub open spec fn spec_certs(certs: Seq<InitialCertificate>) -> Seq<Seq<u8>> {
    Seq::new(certs.len(), |i: int| certs[i].0.0@)
}

/// The bytes of the address and the value of each legacy fund.
pub open spec fn spec_legacy(funds: Seq<LegacyUTxO>) -> Seq<(Seq<u8>, Value)> {
    Seq::new(funds.len(), |i: int| (funds[i].address.0@, funds[i].value))
}

/// The bytes of the address and the value of each declared fund.
pub open spec fn spec_declared(addrs: Seq<(OldAddress, Value)>) -> Seq<(Seq<u8>, Value)> {
    Seq::new(addrs.len(), |i: int| (addrs[i].0.0@, addrs[i].1))
}

/// Each fund as the output of a transaction.
pub open spec fn spec_outputs(funds: Seq<InitialUTxO>) -> Seq<Output> {
    Seq::new(funds.len(), |i: int| Output { address: funds[i].address, value: funds[i].value })
}

/// Each output of a transaction as a fund.
pub open spec fn spec_utxos(outputs: Seq<Output>) -> Seq<InitialUTxO> {
    Seq::new(
        outputs.len(),
        |i: int| InitialUTxO { address: outputs[i].address, value: outputs[i].value },
    )
}

impl View for Genesis {
    type V = GenesisView;

    open spec fn view(&self) -> GenesisView {
        GenesisView {
            blockchain_configuration: self.blockchain_configuration@,
            initial_setting: self.initial_setting,
            initial_funds: self.initial_funds@,
            initial_certs: spec_certs(self.initial_certs@),
            legacy_funds: spec_legacy(self.legacy_funds@),
        }
    }
}

/// What a proposal holds.
pub struct UpdateProposalView {
    pub settings: Update,
    pub consensus_version: Option<ConsensusVersion>,
    pub bft_leaders: Option<Seq<[u8; 32]>>,
    pub slot_duration: Option<u8>,
    pub epoch_stability_depth: Option<u32>,
    pub proposer_id: [u8; 32],
    pub signature: Seq<u8>,
}

/// What a fragment of a genesis block says.
pub enum MessageView {
    Initial(Seq<ConfigParam>),
    UpdateProposal(UpdateProposalView),
    Transaction { inputs: nat, outputs: Seq<Output>, witnesses: nat },
    OldUtxoDeclaration(Seq<(Seq<u8>, Value)>),
    Certificate(Seq<u8>),
    Other,
}

/// What a fragment says, as far as a description of a chain goes.
pub open spec fn spec_message(payload: Payload) -> MessageView {
    match payload {
        Payload::Initial(ents) => MessageView::Initial(ents@),
        Payload::UpdateProposal(signed) => MessageView::UpdateProposal(
            UpdateProposalView {
                settings: spec_from_proposal(signed.proposal),
                consensus_version: signed.proposal.consensus_version,
                bft_leaders: match signed.proposal.bft_leaders {
                    Some(leaders) => Some(leaders@),
                    None => None,
                },
                slot_duration: signed.proposal.slot_duration,
                epoch_stability_depth: signed.proposal.epoch_stability_depth,
                proposer_id: signed.proposer_id,
                signature: signed.signature@,
            },
        ),
        Payload::Transaction(tx) => MessageView::Transaction {
            inputs: tx.inputs@.len(),
            outputs: tx.outputs@,
            witnesses: tx.witnesses@.len(),
        },
        Payload::OldUtxoDeclaration(addrs) => MessageView::OldUtxoDeclaration(spec_declared(addrs@)),
        Payload::Certificate(cert) => MessageView::Certificate(cert.0@),
        _ => MessageView::Other,
    }
}

/// What each of the payloads says.
pub open spec fn spec_messages(payloads: Seq<Payload>) -> Seq<MessageView> {
    Seq::new(payloads.len(), |i: int| spec_message(payloads[i]))
}

/// What each fragment of a block says.
pub open spec fn spec_block_messages(contents: Seq<Fragment>) -> Seq<MessageView> {
    Seq::new(contents.len(), |i: int| spec_message(contents[i].payload))
}

/// How many items go into the first message: all of them where the limit is
/// under two or is not reached, and else as many as the limit says.
pub open spec fn spec_chunk_len(items: nat, max: nat) -> nat {
    if 2 <= max && max < items {
        max
    } else {
        items
    }
}

/// The items in messages of at most `max` each, in their order. A limit
/// under two puts them all into one message.
pub open spec fn spec_chunks<T>(items: Seq<T>, max: nat) -> Seq<Seq<T>>
    decreases items.len(),
{
    if items.len() == 0 {
        Seq::empty()
    } else {
        let n = spec_chunk_len(items.len(), max);
        seq![items.take(n as int)] + spec_chunks(items.skip(n as int), max)
    }
}

/// A transaction that gives these funds, from nothing.
pub open spec fn spec_funding(outputs: Seq<Output>) -> MessageView {
    MessageView::Transaction { inputs: 0, outputs, witnesses: 0 }
}

/// The limit on the outputs of one message that a description sets: 255
/// where it sets none.
pub open spec fn spec_limit(settings: Update) -> nat {
    match settings.max_number_of_transactions_per_block {
        Some(n) => n as nat,
        None => 255,
    }
}

/// The messages of the genesis block of a chain: its settings, the proposal
/// of its initial values, its funds, its legacy funds and its certificates.
pub open spec fn spec_to_messages(g: GenesisView, proposer_id: [u8; 32]) -> Seq<MessageView> {
    let funds = spec_chunks(spec_outputs(g.initial_funds), spec_limit(g.initial_setting));
    let legacy = spec_chunks(g.legacy_funds, spec_limit(g.initial_setting));
    seq![
        MessageView::Initial(spec_to_ents(g.blockchain_configuration)),
        MessageView::UpdateProposal(
            UpdateProposalView {
                settings: g.initial_setting,
                consensus_version: None,
                bft_leaders: None,
                slot_duration: None,
                epoch_stability_depth: None,
                proposer_id,
                signature: Seq::empty(),
            },
        ),
    ] + Seq::new(funds.len(), |i: int| spec_funding(funds[i])) + Seq::new(
        legacy.len(),
        |i: int| MessageView::OldUtxoDeclaration(legacy[i]),
    ) + Seq::new(g.initial_certs.len(), |i: int| MessageView::Certificate(g.initial_certs[i]))
}

/// A copy of some bytes.
fn copy_bytes(v: &Vec<u8>) -> (r: Vec<u8>)
    ensures
        r@ == v@,
{
    let mut out: Vec<u8> = Vec::new();
    let mut i: usize = 0;
    while i < v.len()
        invariant
            i <= v.len(),
            out@ == v@.take(i as int),
        decreases v.len() - i,
    {
        out.push(v[i]);
        i += 1;
        proof {
            assert(out@ =~= v@.take(i as int));
        }
    }
    proof {
        assert(v@.take(v@.len() as int) =~= v@);
    }
    out
}

proof fn lemma_chunks_step<T>(items: Seq<T>, max: nat, k0: int, k: int)
    requires
        0 <= k0 < k <= items.len(),
        k - k0 == spec_chunk_len((items.len() - k0) as nat, max),
    ensures
        spec_chunks(items.skip(k0), max) == seq![items.subrange(k0, k)] + spec_chunks(
            items.skip(k),
            max,
        ),
{
    let rest = items.skip(k0);
    let n = spec_chunk_len(rest.len(), max);
    assert(rest.take(n as int) =~= items.subrange(k0, k));
    assert(rest.skip(n as int) =~= items.skip(k));
}

impl Genesis {
    fn to_initial_messages(&self, max_output_per_message: usize) -> (messages: Vec<Payload>)
        ensures
            spec_messages(messages@) == Seq::new(
                spec_chunks(spec_outputs(self.initial_funds@), max_output_per_message as nat).len(),
                |i: int|
                    spec_funding(
                        spec_chunks(
                            spec_outputs(self.initial_funds@),
                            max_output_per_message as nat,
                        )[i],
                    ),
            ),
    {
        let ghost items = spec_outputs(self.initial_funds@);
        let ghost max = max_output_per_message as nat;
        let mut messages: Vec<Payload> = Vec::new();
        let ghost mut done: Seq<Seq<Output>> = Seq::empty();
        let mut k: usize = 0;
        proof {
            assert(items.skip(0) =~= items);
            assert(done + spec_chunks(items.skip(0), max) =~= spec_chunks(items, max));
        }
        while k < self.initial_funds.len()
            invariant
                k <= self.initial_funds.len(),
                items == spec_outputs(self.initial_funds@),
                max == max_output_per_message as nat,
                done + spec_chunks(items.skip(k as int), max) == spec_chunks(items, max),
                spec_messages(messages@) == Seq::new(done.len(), |i: int| spec_funding(done[i])),
            decreases self.initial_funds.len() - k,
        {
            let ghost k0 = k as int;
            let mut outputs: Vec<Output> = Vec::new();
            let utxo = &self.initial_funds[k];
            outputs.push(Output { address: utxo.address, value: utxo.value });
            k += 1;
            proof {
                assert(outputs@ =~= items.subrange(k0, k as int));
            }
            while k < self.initial_funds.len()
                invariant_except_break
                    !(2 <= max <= k - k0),
                invariant
                    0 <= k0 < k <= self.initial_funds.len(),
                    items == spec_outputs(self.initial_funds@),
                    items.len() == self.initial_funds@.len(),
                    max == max_output_per_message as nat,
                    outputs@.len() == k - k0,
                    outputs@ == items.subrange(k0, k as int),
                ensures
                    k - k0 == spec_chunk_len((items.len() - k0) as nat, max),
                decreases self.initial_funds.len() - k,
            {
                let utxo = &self.initial_funds[k];
                outputs.push(Output { address: utxo.address, value: utxo.value });
                k += 1;
                proof {
                    assert(outputs@ =~= items.subrange(k0, k as int));
                }
                if outputs.len() == max_output_per_message {
                    break;
                }
            }
            let ghost chunk = outputs@;
            let transaction = AuthenticatedTransaction {
                inputs: Vec::new(),
                outputs,
                witnesses: Vec::new(),
            };
            let ghost before = spec_messages(messages@);
            messages.push(Payload::Transaction(transaction));
            proof {
                lemma_chunks_step(items, max, k0, k as int);
                let longer = done.push(chunk);
                assert(longer + spec_chunks(items.skip(k as int), max) =~= done + (seq![chunk]
                    + spec_chunks(items.skip(k as int), max)));
                assert(spec_messages(messages@) =~= before.push(spec_funding(chunk)));
                assert(spec_messages(messages@) =~= Seq::new(
                    longer.len(),
                    |i: int| spec_funding(longer[i]),
                ));
                done = longer;
            }
        }
        proof {
            assert(items.skip(items.len() as int) =~= Seq::<Output>::empty());
            assert(done + spec_chunks(items.skip(k as int), max) =~= done);
        }
        messages
    }
}


impl Genesis {
    fn to_legacy_messages(&self, max_output_per_message: usize) -> (messages: Vec<Payload>)
        ensures
            spec_messages(messages@) == Seq::new(
                spec_chunks(spec_legacy(self.legacy_funds@), max_output_per_message as nat).len(),
                |i: int|
                    MessageView::OldUtxoDeclaration(
                        spec_chunks(spec_legacy(self.legacy_funds@), max_output_per_message as nat)[i],
                    ),
            ),
    {
        let ghost items = spec_legacy(self.legacy_funds@);
        let ghost max = max_output_per_message as nat;
        let mut messages: Vec<Payload> = Vec::new();
        let ghost mut done: Seq<Seq<(Seq<u8>, Value)>> = Seq::empty();
        let mut k: usize = 0;
        proof {
            assert(items.skip(0) =~= items);
            assert(done + spec_chunks(items.skip(0), max) =~= spec_chunks(items, max));
        }
        while k < self.legacy_funds.len()
            invariant
                k <= self.legacy_funds.len(),
                items == spec_legacy(self.legacy_funds@),
                max == max_output_per_message as nat,
                done + spec_chunks(items.skip(k as int), max) == spec_chunks(items, max),
                spec_messages(messages@) == Seq::new(
                    done.len(),
                    |i: int| MessageView::OldUtxoDeclaration(done[i]),
                ),
            decreases self.legacy_funds.len() - k,
        {
            let ghost k0 = k as int;
            let mut outputs: Vec<(OldAddress, Value)> = Vec::new();
            let utxo = &self.legacy_funds[k];
            outputs.push((OldAddress(copy_bytes(&utxo.address.0)), utxo.value));
            k += 1;
            proof {
                assert(spec_declared(outputs@) =~= items.subrange(k0, k as int));
            }
            while k < self.legacy_funds.len()
                invariant_except_break
                    !(2 <= max <= k - k0),
                invariant
                    0 <= k0 < k <= self.legacy_funds.len(),
                    items == spec_legacy(self.legacy_funds@),
                    items.len() == self.legacy_funds@.len(),
                    max == max_output_per_message as nat,
                    outputs@.len() == k - k0,
                    spec_declared(outputs@) == items.subrange(k0, k as int),
                ensures
                    k - k0 == spec_chunk_len((items.len() - k0) as nat, max),
                decreases self.legacy_funds.len() - k,
            {
                let utxo = &self.legacy_funds[k];
                outputs.push((OldAddress(copy_bytes(&utxo.address.0)), utxo.value));
                k += 1;
                proof {
                    assert(spec_declared(outputs@) =~= items.subrange(k0, k as int));
                }
                if outputs.len() == max_output_per_message {
                    break;
                }
            }
            let ghost chunk = spec_declared(outputs@);
            let ghost before = spec_messages(messages@);
            messages.push(Payload::OldUtxoDeclaration(outputs));
            proof {
                lemma_chunks_step(items, max, k0, k as int);
                let longer = done.push(chunk);
                assert(longer + spec_chunks(items.skip(k as int), max) =~= done + (seq![chunk]
                    + spec_chunks(items.skip(k as int), max)));
                assert(spec_messages(messages@) =~= before.push(
                    MessageView::OldUtxoDeclaration(chunk),
                ));
                assert(spec_messages(messages@) =~= Seq::new(
                    longer.len(),
                    |i: int| MessageView::OldUtxoDeclaration(longer[i]),
                ));
                done = longer;
            }
        }
        proof {
            assert(items.skip(items.len() as int) =~= Seq::<(Seq<u8>, Value)>::empty());
            assert(done + spec_chunks(items.skip(k as int), max) =~= done);
        }
        messages
    }

    fn to_certificate_messages(&self) -> (messages: Vec<Payload>)
        ensures
            spec_messages(messages@) == Seq::new(
                self.initial_certs@.len(),
                |i: int| MessageView::Certificate(spec_certs(self.initial_certs@)[i]),
            ),
    {
        let mut messages: Vec<Payload> = Vec::new();
        let mut i: usize = 0;
        while i < self.initial_certs.len()
            invariant
                i <= self.initial_certs.len(),
                spec_messages(messages@) == Seq::new(
                    i as nat,
                    |j: int| MessageView::Certificate(spec_certs(self.initial_certs@)[j]),
                ),
            decreases self.initial_certs.len() - i,
        {
            let ghost before = spec_messages(messages@);
            let cert = Certificate(copy_bytes(&self.initial_certs[i].0.0));
            messages.push(Payload::Certificate(cert));
            proof {
                assert(spec_messages(messages@) =~= before.push(
                    MessageView::Certificate(spec_certs(self.initial_certs@)[i as int]),
                ));
            }
            i += 1;
            proof {
                assert(spec_messages(messages@) =~= Seq::new(
                    i as nat,
                    |j: int| MessageView::Certificate(spec_certs(self.initial_certs@)[j]),
                ));
            }
        }
        messages
    }

    /// The contents of the genesis block of the chain: its settings, the
    /// proposal of its initial values, made by `proposer_id`, then its
    /// funds, its legacy funds and its certificates. Funds go into messages
    /// of as many outputs as the description allows in a block, or of 255
    /// where it does not say.
    pub fn to_block(&self, proposer_id: [u8; 32]) -> (contents: Vec<Payload>)
        ensures
            spec_messages(contents@) == spec_to_messages(self@, proposer_id),
    {
        let max: usize = match self.initial_setting.max_number_of_transactions_per_block {
            Some(n) => n as usize,
            None => 255,
        };
        let mut contents: Vec<Payload> = Vec::new();
        contents.push(Payload::Initial(self.blockchain_configuration.ents()));
        contents.push(self.initial_setting.to_message(proposer_id));
        let ghost head = spec_messages(contents@);
        let mut funds = self.to_initial_messages(max);
        let ghost funds_view = spec_messages(funds@);
        let mut legacy = self.to_legacy_messages(max);
        let ghost legacy_view = spec_messages(legacy@);
        let mut certs = self.to_certificate_messages();
        let ghost certs_view = spec_messages(certs@);
        contents.append(&mut funds);
        contents.append(&mut legacy);
        contents.append(&mut certs);
        proof {
            assert(spec_messages(contents@) =~= head + funds_view + legacy_view + certs_view);
            assert(head =~= seq![
                MessageView::Initial(spec_to_ents(self@.blockchain_configuration)),
                MessageView::UpdateProposal(
                    UpdateProposalView {
                        settings: self.initial_setting,
                        consensus_version: None,
                        bft_leaders: None,
                        slot_duration: None,
                        epoch_stability_depth: None,
                        proposer_id,
                        signature: Seq::empty(),
                    },
                ),
            ]);
            assert(max as nat == spec_limit(self.initial_setting));
        }
        contents
    }
}


// ---------------------------------------------------------------------
// Reading a genesis block
// ---------------------------------------------------------------------
/// Where the run of transactions that starts at `i` ends.
pub open spec fn spec_funds_end(msgs: Seq<MessageView>, i: nat) -> nat
    decreases msgs.len() - i,
{
    if i < msgs.len() && msgs[i as int] is Transaction {
        spec_funds_end(msgs, i + 1)
    } else {
        i
    }
}

/// The outputs of the run of transactions that starts at `i`, as funds.
pub open spec fn spec_funds(msgs: Seq<MessageView>, i: nat) -> Seq<InitialUTxO>
    decreases msgs.len() - i,
{
    if i < msgs.len() && msgs[i as int] is Transaction {
        spec_utxos(msgs[i as int]->outputs) + spec_funds(msgs, i + 1)
    } else {
        Seq::empty()
    }
}

/// A transaction of the run that starts at `i` has an input.
pub open spec fn spec_funds_have_input(msgs: Seq<MessageView>, i: nat) -> bool
    decreases msgs.len() - i,
{
    if i < msgs.len() && msgs[i as int] is Transaction {
        msgs[i as int]->inputs > 0 || spec_funds_have_input(msgs, i + 1)
    } else {
        false
    }
}

/// Where the run of legacy declarations that starts at `i` ends.
pub open spec fn spec_legacy_end(msgs: Seq<MessageView>, i: nat) -> nat
    decreases msgs.len() - i,
{
    if i < msgs.len() && msgs[i as int] is OldUtxoDeclaration {
        spec_legacy_end(msgs, i + 1)
    } else {
        i
    }
}

/// The funds of the run of legacy declarations that starts at `i`.
pub open spec fn spec_legacy_funds(msgs: Seq<MessageView>, i: nat) -> Seq<(Seq<u8>, Value)>
    decreases msgs.len() - i,
{
    if i < msgs.len() && msgs[i as int] is OldUtxoDeclaration {
        msgs[i as int]->OldUtxoDeclaration_0 + spec_legacy_funds(msgs, i + 1)
    } else {
        Seq::empty()
    }
}

/// The certificates of the run of certificates that starts at `i`.
pub open spec fn spec_initial_certs(msgs: Seq<MessageView>, i: nat) -> Seq<Seq<u8>>
    decreases msgs.len() - i,
{
    if i < msgs.len() && msgs[i as int] is Certificate {
        seq![msgs[i as int]->Certificate_0] + spec_initial_certs(msgs, i + 1)
    } else {
        Seq::empty()
    }
}

/// The description of the chain that the messages of a genesis block give:
/// the first must be the settings and the second a proposal; then come the
/// transactions that give the funds, none of which may have an input, then
/// the legacy declarations, then the certificates.
pub open spec fn spec_from_messages(msgs: Seq<MessageView>) -> Result<GenesisView, Error> {
    if msgs.len() == 0 || !(msgs[0] is Initial) {
        Err(Error::FirstBlock0MessageNotInit)
    } else {
        match spec_from_ents(msgs[0]->Initial_0) {
            Err(e) => Err(e),
            Ok(blockchain_configuration) => if msgs.len() < 2 || !(msgs[1] is UpdateProposal) {
                Err(Error::SecondBlock0MessageNotUpdateProposal)
            } else if spec_funds_have_input(msgs, 2) {
                Err(Error::InitUtxoHasInput)
            } else {
                let funds_end = spec_funds_end(msgs, 2);
                let legacy_end = spec_legacy_end(msgs, funds_end);
                Ok(
                    GenesisView {
                        blockchain_configuration,
                        initial_setting: msgs[1]->UpdateProposal_0.settings,
                        initial_funds: spec_funds(msgs, 2),
                        initial_certs: spec_initial_certs(msgs, legacy_end),
                        legacy_funds: spec_legacy_funds(msgs, funds_end),
                    },
                )
            },
        }
    }
}

/// The funds that the transactions from `start` on give, and where they
/// end. Fails with `InitUtxoHasInput` on a transaction that has an input.
fn get_initial_utxos(contents: &Vec<Fragment>, start: usize) -> (r: Result<
    (Vec<InitialUTxO>, usize),
    Error,
>)
    requires
        start <= contents.len(),
    ensures
        match r {
            Ok((funds, end)) => {
                &&& !spec_funds_have_input(spec_block_messages(contents@), start as nat)
                &&& end == spec_funds_end(spec_block_messages(contents@), start as nat)
                &&& funds@ == spec_funds(spec_block_messages(contents@), start as nat)
                &&& start <= end <= contents.len()
            },
            Err(e) => e == Error::InitUtxoHasInput && spec_funds_have_input(
                spec_block_messages(contents@),
                start as nat,
            ),
        },
{
    let ghost msgs = spec_block_messages(contents@);
    let mut vec: Vec<InitialUTxO> = Vec::new();
    let mut i: usize = start;
    proof {
        assert(vec@ + spec_funds(msgs, i as nat) =~= spec_funds(msgs, start as nat));
    }
    loop
        invariant
            start <= i <= contents.len(),
            msgs == spec_block_messages(contents@),
            spec_funds_end(msgs, i as nat) == spec_funds_end(msgs, start as nat),
            spec_funds_have_input(msgs, i as nat) == spec_funds_have_input(msgs, start as nat),
            vec@ + spec_funds(msgs, i as nat) == spec_funds(msgs, start as nat),
        decreases contents.len() - i,
    {
        if i >= contents.len() {
            proof {
                assert(vec@ + Seq::<InitialUTxO>::empty() =~= vec@);
            }
            return Ok((vec, i));
        }
        let transaction = match &contents[i].payload {
            Payload::Transaction(transaction) => transaction,
            _ => {
                proof {
                    assert(vec@ + Seq::<InitialUTxO>::empty() =~= vec@);
                }
                return Ok((vec, i));
            },
        };
        if transaction.inputs.len() != 0 {
            return Err(Error::InitUtxoHasInput);
        }
        let ghost before = vec@;
        let ghost outs = spec_utxos(transaction.outputs@);
        let mut o: usize = 0;
        while o < transaction.outputs.len()
            invariant
                o <= transaction.outputs.len(),
                outs == spec_utxos(transaction.outputs@),
                vec@ == before + outs.take(o as int),
            decreases transaction.outputs.len() - o,
        {
            let output = &transaction.outputs[o];
            vec.push(InitialUTxO { address: output.address, value: output.value });
            o += 1;
            proof {
                assert(vec@ =~= before + outs.take(o as int));
            }
        }
        proof {
            assert(outs.take(outs.len() as int) =~= outs);
            assert(msgs[i as int]->outputs == transaction.outputs@);
            assert((before + outs) + spec_funds(msgs, (i + 1) as nat) =~= before + (outs
                + spec_funds(msgs, (i + 1) as nat)));
        }
        i += 1;
    }
}

/// The funds that the legacy declarations from `start` on give, and where
/// they end.
fn get_legacy_utxos(contents: &Vec<Fragment>, start: usize) -> (r: (Vec<LegacyUTxO>, usize))
    requires
        start <= contents.len(),
    ensures
        r.1 == spec_legacy_end(spec_block_messages(contents@), start as nat),
        spec_legacy(r.0@) == spec_legacy_funds(spec_block_messages(contents@), start as nat),
        start <= r.1 <= contents.len(),
{
    let ghost msgs = spec_block_messages(contents@);
    let mut vec: Vec<LegacyUTxO> = Vec::new();
    let mut i: usize = start;
    proof {
        assert(spec_legacy(vec@) + spec_legacy_funds(msgs, i as nat) =~= spec_legacy_funds(
            msgs,
            start as nat,
        ));
    }
    loop
        invariant
            start <= i <= contents.len(),
            msgs == spec_block_messages(contents@),
            spec_legacy_end(msgs, i as nat) == spec_legacy_end(msgs, start as nat),
            spec_legacy(vec@) + spec_legacy_funds(msgs, i as nat) == spec_legacy_funds(
                msgs,
                start as nat,
            ),
        decreases contents.len() - i,
    {
        if i >= contents.len() {
            proof {
                assert(spec_legacy(vec@) + Seq::<(Seq<u8>, Value)>::empty() =~= spec_legacy(vec@));
            }
            return (vec, i);
        }
        let old_decls = match &contents[i].payload {
            Payload::OldUtxoDeclaration(old_decls) => old_decls,
            _ => {
                proof {
                    assert(spec_legacy(vec@) + Seq::<(Seq<u8>, Value)>::empty() =~= spec_legacy(
                        vec@,
                    ));
                }
                return (vec, i);
            },
        };
        let ghost before = spec_legacy(vec@);
        let ghost decls = spec_declared(old_decls@);
        let mut o: usize = 0;
        while o < old_decls.len()
            invariant
                o <= old_decls.len(),
                decls == spec_declared(old_decls@),
                spec_legacy(vec@) == before + decls.take(o as int),
            decreases old_decls.len() - o,
        {
            let entry = &old_decls[o];
            let legacy_utxo = LegacyUTxO {
                address: OldAddress(copy_bytes(&entry.0.0)),
                value: entry.1,
            };
            let ghost sofar = spec_legacy(vec@);
            vec.push(legacy_utxo);
            o += 1;
            proof {
                assert(spec_legacy(vec@) =~= sofar.push(decls[o - 1]));
                assert(spec_legacy(vec@) =~= before + decls.take(o as int));
            }
        }
        proof {
            assert(decls.take(decls.len() as int) =~= decls);
            assert(msgs[i as int]->OldUtxoDeclaration_0 == decls);
            assert((before + decls) + spec_legacy_funds(msgs, (i + 1) as nat) =~= before + (decls
                + spec_legacy_funds(msgs, (i + 1) as nat)));
        }
        i += 1;
    }
}

/// The certificates from `start` on.
fn get_initial_certs(contents: &Vec<Fragment>, start: usize) -> (r: Vec<InitialCertificate>)
    requires
        start <= contents.len(),
    ensures
        spec_certs(r@) == spec_initial_certs(spec_block_messages(contents@), start as nat),
{
    let ghost msgs = spec_block_messages(contents@);
    let mut vec: Vec<InitialCertificate> = Vec::new();
    let mut i: usize = start;
    proof {
        assert(spec_certs(vec@) + spec_initial_certs(msgs, i as nat) =~= spec_initial_certs(
            msgs,
            start as nat,
        ));
    }
    loop
        invariant
            start <= i <= contents.len(),
            msgs == spec_block_messages(contents@),
            spec_certs(vec@) + spec_initial_certs(msgs, i as nat) == spec_initial_certs(
                msgs,
                start as nat,
            ),
        decreases contents.len() - i,
    {
        if i >= contents.len() {
            proof {
                assert(spec_certs(vec@) + Seq::<Seq<u8>>::empty() =~= spec_certs(vec@));
            }
            return vec;
        }
        let cert = match &contents[i].payload {
            Payload::Certificate(cert) => cert,
            _ => {
                proof {
                    assert(spec_certs(vec@) + Seq::<Seq<u8>>::empty() =~= spec_certs(vec@));
                }
                return vec;
            },
        };
        let ghost before = spec_certs(vec@);
        vec.push(InitialCertificate(Certificate(copy_bytes(&cert.0))));
        proof {
            assert(spec_certs(vec@) =~= before + seq![cert.0@]);
            assert((before + seq![cert.0@]) + spec_initial_certs(msgs, (i + 1) as nat) =~= before
                + (seq![cert.0@] + spec_initial_certs(msgs, (i + 1) as nat)));
        }
        i += 1;
    }
}

impl Genesis {
    /// The description of the chain that a genesis block is of. Fails with
    /// `FirstBlock0MessageNotInit` where the block does not start with its
    /// settings, as `from_ents` does on the settings, with
    /// `SecondBlock0MessageNotUpdateProposal` where no proposal follows
    /// them, and with `InitUtxoHasInput` where a transaction that gives
    /// funds has an input.
    pub fn from_block(block: &Block) -> (r: Result<Genesis, Error>)
        ensures
            match r {
                Ok(g) => spec_from_messages(spec_block_messages(block.contents@)) == Ok::<
                    GenesisView,
                    Error,
                >(g@),
                Err(e) => spec_from_messages(spec_block_messages(block.contents@)) == Err::<
                    GenesisView,
                    Error,
                >(e),
            },
    {
        let ghost msgs = spec_block_messages(block.contents@);
        if block.contents.len() == 0 {
            return Err(Error::FirstBlock0MessageNotInit);
        }
        let blockchain_configuration = match &block.contents[0].payload {
            Payload::Initial(initial) => match BlockchainConfiguration::from_ents(initial) {
                Ok(c) => c,
                Err(e) => {
                    return Err(e);
                },
            },
            _ => {
                return Err(Error::FirstBlock0MessageNotInit);
            },
        };
        if block.contents.len() < 2 {
            return Err(Error::SecondBlock0MessageNotUpdateProposal);
        }
        let initial_setting = match &block.contents[1].payload {
            Payload::UpdateProposal(upd) => Update::from_proposal(&upd.proposal),
            _ => {
                return Err(Error::SecondBlock0MessageNotUpdateProposal);
            },
        };
        let (initial_funds, funds_end) = match get_initial_utxos(&block.contents, 2) {
            Ok(found) => found,
            Err(e) => {
                return Err(e);
            },
        };
        let (legacy_funds, legacy_end) = get_legacy_utxos(&block.contents, funds_end);
        let initial_certs = get_initial_certs(&block.contents, legacy_end);
        Ok(
            Genesis {
                blockchain_configuration,
                initial_setting,
                initial_funds,
                legacy_funds,
                initial_certs,
            },
        )
    }
}

} // verus!
