//! Blocks as the node hands them on once it has validated them, and what
//! a genesis block says of its chain.

use crate::address::{Address, Discrimination};
use crate::hamt::HashKey;
use crate::key::Digest;
use vstd::prelude::*;

verus! {

/// The identifier of a block: the digest of its header.
pub type HeaderHash = Digest;

/// The identifier of a fragment: the digest of its bytes.
pub type FragmentId = Digest;

/// The number of an epoch.
pub type Epoch = u32;

/// The distance of a block from the genesis block, which is at 0.
#[derive(Clone, Copy, Debug, PartialEq, Eq)]
pub struct ChainLength(pub u32);

impl ChainLength {
    pub fn as_u32(&self) -> (n: u32)
        ensures
            n == self.0,
    {
        self.0
    }
}

impl HashKey for ChainLength {
    open spec fn spec_hash(&self) -> u64 {
        self.0 as u64
    }

    fn hash(&self) -> (h: u64) {
        self.0 as u64
    }

    fn same(&self, other: &Self) -> (b: bool) {
        self.0 == other.0
    }
}

/// The slot a block was made for.
#[derive(Clone, Copy, Debug, PartialEq, Eq)]
pub struct BlockDate {
    pub epoch: Epoch,
    pub slot_id: u32,
}

/// An amount of coin.
#[derive(Clone, Copy, Debug, PartialEq, Eq)]
pub struct Value(pub u64);

/// The consensus protocol that a chain starts with.
#[derive(Clone, Copy, Debug, PartialEq, Eq)]
pub enum ConsensusVersion {
    Bft,
    GenesisPraos,
}

/// A thousandth.
#[derive(Clone, Copy, Debug, PartialEq, Eq)]
pub struct Milli(pub u64);

/// One setting of the chain, as the genesis block declares it.
#[derive(Clone, Copy, Debug, PartialEq, Eq)]
pub enum ConfigParam {
    Block0Date(u64),
    Discrimination(Discrimination),
    ConsensusVersion(ConsensusVersion),
    SlotsPerEpoch(u64),
    SlotDuration(u8),
    EpochStabilityDepth(u32),
    ConsensusLeaderId([u8; 32]),
    ConsensusGenesisPraosParamD(Milli),
    ConsensusGenesisPraosActiveSlotsCoeff(Milli),
}

/// The settings that the `Initial` fragment of a genesis block carries.
pub type ConfigParams = Vec<ConfigParam>;

/// A reference to one output of an earlier transaction.
#[derive(Clone, Copy, Debug, PartialEq, Eq)]
pub struct UtxoPointer {
    pub transaction_id: FragmentId,
    pub output_index: u8,
    pub value: Value,
}

/// Where a transaction takes value from.
#[derive(Clone, Copy, Debug, PartialEq, Eq)]
pub enum Input {
    /// From an account, named by its public key.
    Account([u8; 32], Value),
    /// From an unspent output.
    Utxo(UtxoPointer),
}

/// The kind of proof that authorises one input.
#[derive(Clone, Copy, Debug, PartialEq, Eq)]
pub enum Witness {
    Utxo,
    Account,
    OldUtxo,
    Multisig,
}

/// Where a transaction sends value to.
#[derive(Clone, Copy, Debug, PartialEq, Eq)]
pub struct Output {
    pub address: Address,
    pub value: Value,
}

/// A transaction with one witness for each input, in the same order.
#[derive(Clone, Debug, PartialEq, Eq)]
pub struct AuthenticatedTransaction {
    pub inputs: Vec<Input>,
    pub outputs: Vec<Output>,
    pub witnesses: Vec<Witness>,
}

/// A fee that grows with the size of a transaction: a constant, a
/// coefficient for each input and output, and a charge for a certificate.
#[derive(Clone, Copy, Debug, PartialEq, Eq)]
pub struct LinearFee {
    pub constant: u64,
    pub coefficient: u64,
    pub certificate: u64,
}

impl LinearFee {
    pub fn new(constant: u64, coefficient: u64, certificate: u64) -> (r: LinearFee)
        ensures
            r == (LinearFee { constant, coefficient, certificate }),
    {
        LinearFee { constant, coefficient, certificate }
    }
}

/// The settings that a proposal asks to change: each one is left as it is
/// where the proposal says nothing of it.
#[derive(Clone, Debug, PartialEq, Eq)]
pub struct UpdateProposal {
    pub max_number_of_transactions_per_block: Option<u32>,
    pub bootstrap_key_slots_percentage: Option<u8>,
    pub consensus_version: Option<ConsensusVersion>,
    pub bft_leaders: Option<Vec<[u8; 32]>>,
    pub allow_account_creation: Option<bool>,
    pub linear_fees: Option<LinearFee>,
    pub slot_duration: Option<u8>,
    pub epoch_stability_depth: Option<u32>,
}

/// A proposal with the leader that makes it and the bytes of its signature.
#[derive(Clone, Debug, PartialEq, Eq)]
pub struct SignedUpdateProposal {
    pub proposal: UpdateProposal,
    pub proposer_id: [u8; 32],
    pub signature: Vec<u8>,
}

/// An address of the chain that this one follows, as its bytes.
#[derive(Clone, Debug, PartialEq, Eq)]
pub struct OldAddress(pub Vec<u8>);

/// A certificate, as its bytes.
#[derive(Clone, Debug, PartialEq, Eq)]
pub struct Certificate(pub Vec<u8>);

/// What a fragment carries.
#[derive(Clone, Debug, PartialEq, Eq)]
pub enum Payload {
    Initial(ConfigParams),
    OldUtxoDeclaration(Vec<(OldAddress, Value)>),
    Transaction(AuthenticatedTransaction),
    Certificate(Certificate),
    OwnerStakeDelegation(AuthenticatedTransaction),
    StakeDelegation(AuthenticatedTransaction),
    PoolRegistration(AuthenticatedTransaction),
    PoolManagement(AuthenticatedTransaction),
    UpdateProposal(SignedUpdateProposal),
    UpdateVote,
}

/// One item of a block's contents, with its identifier.
#[derive(Clone, Debug, PartialEq, Eq)]
pub struct Fragment {
    pub id: FragmentId,
    pub payload: Payload,
}

/// What the header of a block says of it.
#[derive(Clone, Copy, Debug, PartialEq, Eq)]
pub struct Header {
    pub hash: HeaderHash,
    pub parent_hash: HeaderHash,
    pub chain_length: ChainLength,
    pub date: BlockDate,
}

impl Header {
    pub fn hash(&self) -> (h: HeaderHash)
        ensures
            h == self.hash,
    {
        self.hash
    }

    pub fn block_parent_hash(&self) -> (h: HeaderHash)
        ensures
            h == self.parent_hash,
    {
        self.parent_hash
    }

    pub fn chain_length(&self) -> (l: ChainLength)
        ensures
            l == self.chain_length,
    {
        self.chain_length
    }

    pub fn block_date(&self) -> (d: BlockDate)
        ensures
            d == self.date,
    {
        self.date
    }
}

/// A validated block.
#[derive(Clone, Debug, PartialEq, Eq)]
pub struct Block {
    pub header: Header,
    pub contents: Vec<Fragment>,
}

impl Block {
    pub fn id(&self) -> (h: HeaderHash)
        ensures
            h == self.header.hash,
    {
        self.header.hash
    }

    pub fn parent_id(&self) -> (h: HeaderHash)
        ensures
            h == self.header.parent_hash,
    {
        self.header.parent_hash
    }

    pub fn chain_length(&self) -> (l: ChainLength)
        ensures
            l == self.header.chain_length,
    {
        self.header.chain_length
    }
}


// ---------------------------------------------------------------------
// What a genesis block says of the chain
// ---------------------------------------------------------------------
/// What is missing in a genesis block.
#[derive(Clone, Copy, Debug, PartialEq, Eq)]
pub enum Block0Malformed {
    NoInitialSettings,
    NoStartTime,
    NoDiscrimination,
    NoSlotDuration,
}

/// Why a genesis block cannot be read.
#[derive(Clone, Copy, Debug, PartialEq, Eq)]
pub enum Block0Error {
    Malformed(Block0Malformed),
}

/// The settings of the first `Initial` fragment among the fragments.
pub open spec fn spec_block_0_initial(contents: Seq<Fragment>) -> Option<ConfigParams>
    decreases contents.len(),
{
    if contents.len() == 0 {
        None
    } else {
        match contents[0].payload {
            Payload::Initial(params) => Some(params),
            _ => spec_block_0_initial(contents.drop_first()),
        }
    }
}

/// The slot duration that the fragments leave in force: what the last
/// proposal among them says of it, which may be nothing.
pub open spec fn spec_slot_duration(contents: Seq<Fragment>) -> Option<u8>
    decreases contents.len(),
{
    if contents.len() == 0 {
        None
    } else {
        match contents.last().payload {
            Payload::UpdateProposal(signed) => signed.proposal.slot_duration,
            _ => spec_slot_duration(contents.drop_last()),
        }
    }
}

/// The first number of slots per epoch among the settings.
pub open spec fn spec_slots_per_epoch(params: Seq<ConfigParam>) -> Option<u64>
    decreases params.len(),
{
    if params.len() == 0 {
        None
    } else {
        match params[0] {
            ConfigParam::SlotsPerEpoch(slots) => Some(slots),
            _ => spec_slots_per_epoch(params.drop_first()),
        }
    }
}

/// The first start date among the settings, in seconds since the epoch of
/// Unix.
pub open spec fn spec_start_time(params: Seq<ConfigParam>) -> Option<u64>
    decreases params.len(),
{
    if params.len() == 0 {
        None
    } else {
        match params[0] {
            ConfigParam::Block0Date(date) => Some(date),
            _ => spec_start_time(params.drop_first()),
        }
    }
}

/// The settings of the first `Initial` fragment of a genesis block. Fails
/// with `NoInitialSettings` where the block has none.
pub fn block_0_get_initial(block: &Block) -> (r: Result<&ConfigParams, Block0Error>)
    ensures
        match r {
            Ok(params) => spec_block_0_initial(block.contents@) == Some(*params),
            Err(e) => spec_block_0_initial(block.contents@) is None && e == Block0Error::Malformed(
                Block0Malformed::NoInitialSettings,
            ),
        },
{
    let mut i: usize = 0;
    proof {
        assert(block.contents@.skip(0) =~= block.contents@);
    }
    while i < block.contents.len()
        invariant
            i <= block.contents.len(),
            spec_block_0_initial(block.contents@) == spec_block_0_initial(
                block.contents@.skip(i as int),
            ),
        decreases block.contents.len() - i,
    {
        proof {
            assert(block.contents@.skip(i as int).drop_first() =~= block.contents@.skip(i + 1));
            assert(block.contents@.skip(i as int)[0] == block.contents@[i as int]);
        }
        match &block.contents[i].payload {
            Payload::Initial(init) => {
                return Ok(init);
            },
            _ => {},
        }
        i += 1;
    }
    Err(Block0Error::Malformed(Block0Malformed::NoInitialSettings))
}

/// The duration of a slot, in seconds: what the last proposal of the
/// genesis block says of it. Fails with `NoSlotDuration` where the block has
/// no proposal or the last one says nothing of it.
pub fn block_0_get_slot_duration(block: &Block) -> (r: Result<u64, Block0Error>)
    ensures
        match r {
            Ok(seconds) => spec_slot_duration(block.contents@) == Some(seconds as u8) && seconds
                <= u8::MAX,
            Err(e) => spec_slot_duration(block.contents@) is None && e == Block0Error::Malformed(
                Block0Malformed::NoSlotDuration,
            ),
        },
{
    let mut duration: Option<u8> = None;
    let mut i: usize = 0;
    proof {
        assert(block.contents@.take(0) =~= Seq::<Fragment>::empty());
    }
    while i < block.contents.len()
        invariant
            i <= block.contents.len(),
            duration == spec_slot_duration(block.contents@.take(i as int)),
        decreases block.contents.len() - i,
    {
        proof {
            assert(block.contents@.take(i + 1).drop_last() =~= block.contents@.take(i as int));
            assert(block.contents@.take(i + 1).last() == block.contents@[i as int]);
        }
        match &block.contents[i].payload {
            Payload::UpdateProposal(signed) => {
                duration = signed.proposal.slot_duration;
            },
            _ => {},
        }
        i += 1;
    }
    proof {
        assert(block.contents@.take(block.contents@.len() as int) =~= block.contents@);
    }
    match duration {
        Some(duration) => Ok(duration as u64),
        None => Err(Block0Error::Malformed(Block0Malformed::NoSlotDuration)),
    }
}

/// The number of slots per epoch: the first that the settings of the
/// genesis block give, if they give one. Fails with `NoInitialSettings`
/// where the block has no `Initial` fragment.
pub fn block_0_get_slots_per_epoch(block: &Block) -> (r: Result<Option<u64>, Block0Error>)
    ensures
        match r {
            Ok(slots) => spec_block_0_initial(block.contents@) matches Some(params)
                && slots == spec_slots_per_epoch(params@),
            Err(e) => spec_block_0_initial(block.contents@) is None && e == Block0Error::Malformed(
                Block0Malformed::NoInitialSettings,
            ),
        },
{
    let ents = match block_0_get_initial(block) {
        Ok(ents) => ents,
        Err(e) => {
            return Err(e);
        },
    };
    let mut i: usize = 0;
    proof {
        assert(ents@.skip(0) =~= ents@);
    }
    while i < ents.len()
        invariant
            i <= ents.len(),
            spec_block_0_initial(block.contents@) == Some(*ents),
            spec_slots_per_epoch(ents@) == spec_slots_per_epoch(ents@.skip(i as int)),
        decreases ents.len() - i,
    {
        proof {
            assert(ents@.skip(i as int).drop_first() =~= ents@.skip(i + 1));
            assert(ents@.skip(i as int)[0] == ents@[i as int]);
        }
        match &ents[i] {
            ConfigParam::SlotsPerEpoch(slots) => {
                return Ok(Some(*slots));
            },
            _ => {},
        }
        i += 1;
    }
    Ok(None)
}

/// When the chain starts, in seconds since the epoch of Unix: the first
/// start date that the settings of the genesis block give. Fails with
/// `NoInitialSettings` where the block has no `Initial` fragment and with
/// `NoStartTime` where its settings give no start date.
pub fn block_0_get_start_time(block: &Block) -> (r: Result<u64, Block0Error>)
    ensures
        match r {
            Ok(seconds) => spec_block_0_initial(block.contents@) matches Some(params)
                && spec_start_time(params@) == Some(seconds),
            Err(e) => match spec_block_0_initial(block.contents@) {
                None => e == Block0Error::Malformed(Block0Malformed::NoInitialSettings),
                Some(params) => spec_start_time(params@) is None && e == Block0Error::Malformed(
                    Block0Malformed::NoStartTime,
                ),
            },
        },
{
    let ents = match block_0_get_initial(block) {
        Ok(ents) => ents,
        Err(e) => {
            return Err(e);
        },
    };
    let mut i: usize = 0;
    proof {
        assert(ents@.skip(0) =~= ents@);
    }
    while i < ents.len()
        invariant
            i <= ents.len(),
            spec_block_0_initial(block.contents@) == Some(*ents),
            spec_start_time(ents@) == spec_start_time(ents@.skip(i as int)),
        decreases ents.len() - i,
    {
        proof {
            assert(ents@.skip(i as int).drop_first() =~= ents@.skip(i + 1));
            assert(ents@.skip(i as int)[0] == ents@[i as int]);
        }
        match &ents[i] {
            ConfigParam::Block0Date(date) => {
                return Ok(*date);
            },
            _ => {},
        }
        i += 1;
    }
    Err(Block0Error::Malformed(Block0Malformed::NoStartTime))
}

} // verus!
