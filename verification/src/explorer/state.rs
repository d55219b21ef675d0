//! Snapshots: the five indexes at one block, and what ties them to the
//! branch that the block ends.

use super::error::Error;
use super::indexing::{
    blocks_wf, spec_has_tx, spec_resolve_from, Addresses, Blocks, ChainLengths, EpochData, Epochs,
    ExplorerBlock, ExplorerBlockView, ExplorerTransactionView, Transactions,
};
use super::set::HamtSet;
use super::{
    apply_block_to_addresses, apply_block_to_blocks, apply_block_to_chain_lengths,
    apply_block_to_epochs, apply_block_to_transactions, lemma_first_known, sets_wf,
    spec_first_known, spec_naming, spec_touched,
};
use crate::address::{Address, Discrimination};
use crate::blockcfg::{Block, ChainLength, Epoch, FragmentId, HeaderHash};
use vstd::prelude::*;
use vstd::set_lib::{lemma_int_range, lemma_len_subset, set_int_range};

verus! {

// ---------------------------------------------------------------------
// Branches
// ---------------------------------------------------------------------
/// A block of this identifier is on the branch.
pub open spec fn on_branch(branch: Seq<ExplorerBlockView>, id: HeaderHash) -> bool {
    exists|i: int| 0 <= i < branch.len() && (#[trigger] branch[i]).id == id
}

/// A block of this chain length is on the branch.
pub open spec fn at_height(branch: Seq<ExplorerBlockView>, length: ChainLength) -> bool {
    exists|i: int| 0 <= i < branch.len() && (#[trigger] branch[i]).chain_length == length
}

/// A block of the branch holds this transaction.
pub open spec fn holds_tx(branch: Seq<ExplorerBlockView>, id: FragmentId) -> bool {
    exists|i: int| 0 <= i < branch.len() && spec_has_tx((#[trigger] branch[i]).transactions, id)
}

/// How many blocks of the branch are of this epoch.
pub open spec fn epoch_count(branch: Seq<ExplorerBlockView>, epoch: Epoch) -> nat
    decreases branch.len(),
{
    if branch.len() == 0 {
        0
    } else {
        epoch_count(branch.drop_last(), epoch) + if branch.last().date.epoch == epoch {
            1nat
        } else {
            0nat
        }
    }
}

/// The first block of this epoch on the branch.
pub open spec fn epoch_first(branch: Seq<ExplorerBlockView>, epoch: Epoch) -> HeaderHash
    decreases branch.len(),
{
    if branch.len() == 0 {
        arbitrary()
    } else if epoch_count(branch.drop_last(), epoch) > 0 {
        epoch_first(branch.drop_last(), epoch)
    } else {
        branch.last().id
    }
}

/// The last block of this epoch on the branch.
pub open spec fn epoch_last(branch: Seq<ExplorerBlockView>, epoch: Epoch) -> HeaderHash
    decreases branch.len(),
{
    if branch.len() == 0 {
        arbitrary()
    } else if branch.last().date.epoch == epoch {
        branch.last().id
    } else {
        epoch_last(branch.drop_last(), epoch)
    }
}

/// A branch is well formed: every block is well formed, and no two blocks
/// share an identifier or a chain length.
pub open spec fn branch_wf(branch: Seq<ExplorerBlockView>) -> bool {
    &&& forall|i: int| 0 <= i < branch.len() ==> (#[trigger] branch[i]).wf()
    &&& forall|i: int, j: int|
        0 <= i < j < branch.len() ==> (#[trigger] branch[i]).id != (#[trigger] branch[j]).id
    &&& forall|i: int, j: int|
        0 <= i < j < branch.len() ==> (#[trigger] branch[i]).chain_length != (
        #[trigger] branch[j]).chain_length
}

/// No more blocks are of one epoch than the branch has.
pub proof fn lemma_epoch_count_bound(branch: Seq<ExplorerBlockView>, epoch: Epoch)
    ensures
        epoch_count(branch, epoch) <= branch.len(),
    decreases branch.len(),
{
    if branch.len() > 0 {
        lemma_epoch_count_bound(branch.drop_last(), epoch);
    }
}

/// An epoch counts at least one block exactly when a block of the branch is
/// of it.
pub proof fn lemma_epoch_count_positive(branch: Seq<ExplorerBlockView>, epoch: Epoch)
    ensures
        epoch_count(branch, epoch) > 0 <==> exists|i: int|
            0 <= i < branch.len() && (#[trigger] branch[i]).date.epoch == epoch,
    decreases branch.len(),
{
    if branch.len() > 0 {
        let rest = branch.drop_last();
        lemma_epoch_count_positive(rest, epoch);
        if epoch_count(branch, epoch) > 0 {
            if branch.last().date.epoch == epoch {
                assert(branch[branch.len() - 1].date.epoch == epoch);
            } else {
                let i = choose|i: int| 0 <= i < rest.len() && (#[trigger] rest[i]).date.epoch == epoch;
                assert(branch[i] == rest[i]);
            }
        }
        if exists|i: int| 0 <= i < branch.len() && (#[trigger] branch[i]).date.epoch == epoch {
            let i = choose|i: int|
                0 <= i < branch.len() && (#[trigger] branch[i]).date.epoch == epoch;
            if i < rest.len() {
                assert(rest[i] == branch[i]);
            }
        }
    }
}

/// A branch whose blocks have each a chain length of their own has no more
/// blocks than there are chain lengths.
pub proof fn lemma_branch_length(branch: Seq<ExplorerBlockView>)
    requires
        forall|i: int, j: int|
            0 <= i < j < branch.len() ==> (#[trigger] branch[i]).chain_length != (
            #[trigger] branch[j]).chain_length,
    ensures
        branch.len() <= 0x1_0000_0000,
{
    let heights = Seq::new(branch.len(), |i: int| branch[i].chain_length.0 as int);
    assert forall|i: int, j: int| 0 <= i < heights.len() && 0 <= j < heights.len() && i != j implies heights[i] != heights[j] by {
        if i < j {
            assert(branch[i].chain_length != branch[j].chain_length);
        } else {
            assert(branch[j].chain_length != branch[i].chain_length);
        }
    }
    assert(heights.no_duplicates());
    heights.unique_seq_to_set();
    lemma_int_range(0, 0x1_0000_0000);
    assert forall|x: int| heights.to_set().contains(x) implies set_int_range(
        0,
        0x1_0000_0000,
    ).contains(x) by {
        let i = choose|i: int| 0 <= i < heights.len() && heights[i] == x;
        assert(heights[i] == branch[i].chain_length.0 as int);
    }
    assert(heights.to_set().subset_of(set_int_range(0, 0x1_0000_0000)));
    lemma_len_subset(heights.to_set(), set_int_range(0, 0x1_0000_0000));
}


// ---------------------------------------------------------------------
// Snapshots
// ---------------------------------------------------------------------
/// A transaction of this identifier, in a block of the branch after the
/// genesis block, names the address.
pub open spec fn named_on_branch(
    branch: Seq<ExplorerBlockView>,
    a: Address,
    t: FragmentId,
) -> bool {
    exists|i: int, j: int|
        1 <= i < branch.len() && 0 <= j < branch[i].transactions.len() && (
        #[trigger] branch[i].transactions[j]).id == t && branch[i].transactions[j].touches(a)
}

/// What the index of addresses holds under an address is held there for a
/// transaction of the branch that names the address, and there is such a
/// transaction.
pub open spec fn accounted(
    addresses: Map<Address, HamtSet<FragmentId>>,
    branch: Seq<ExplorerBlockView>,
    a: Address,
) -> bool {
    &&& exists|t: FragmentId| #[trigger] named_on_branch(branch, a, t)
    &&& forall|t: FragmentId| #[trigger]
        addresses[a]@.contains(t) ==> named_on_branch(branch, a, t)
}

/// If the transaction names the address, the index of addresses holds the
/// transaction under it.
pub open spec fn indexed(
    addresses: Map<Address, HamtSet<FragmentId>>,
    t: ExplorerTransactionView,
    a: Address,
) -> bool {
    t.touches(a) ==> addresses.contains_key(a) && addresses[a]@.contains(t.id)
}

/// The five indexes as they stand at one block. A snapshot is never changed:
/// the snapshot of a child is derived from it and shares what it can with it.
pub struct State {
    transactions: Transactions,
    blocks: Blocks,
    addresses: Addresses,
    epochs: Epochs,
    chain_lengths: ChainLengths,
    branch: Ghost<Seq<ExplorerBlockView>>,
}

impl Clone for State {
    /// A second handle on the same snapshot.
    fn clone(&self) -> (r: Self)
        ensures
            r == *self,
    {
        State {
            transactions: self.transactions.clone(),
            blocks: self.blocks.clone(),
            addresses: self.addresses.clone(),
            epochs: self.epochs.clone(),
            chain_lengths: self.chain_lengths.clone(),
            branch: self.branch,
        }
    }
}

/// Why a block cannot follow a branch with these indexes, if it cannot: the
/// transactions are looked at first, then the block, then its chain length.
pub open spec fn spec_derive_error(
    transactions: Map<FragmentId, HeaderHash>,
    blocks: Map<HeaderHash, ExplorerBlock>,
    chain_lengths: Map<ChainLength, HeaderHash>,
    block: ExplorerBlockView,
) -> Option<Error> {
    let known = spec_first_known(transactions, block.transactions);
    if known < block.transactions.len() {
        Some(Error::TransactionAlreadyExists(block.transactions[known].id))
    } else if blocks.contains_key(block.id) {
        Some(Error::BlockAlreadyExists(block.id))
    } else if chain_lengths.contains_key(block.chain_length) {
        Some(Error::ChainLengthBlockAlreadyExists(block.chain_length.0))
    } else {
        None
    }
}

impl State {
    /// Which block holds a transaction.
    pub closed spec fn transactions(&self) -> Map<FragmentId, HeaderHash> {
        self.transactions@
    }

    /// The blocks of the branch, by identifier.
    pub closed spec fn blocks(&self) -> Map<HeaderHash, ExplorerBlock> {
        self.blocks@
    }

    /// The transactions that name an address.
    pub closed spec fn addresses(&self) -> Map<Address, HamtSet<FragmentId>> {
        self.addresses@
    }

    /// What is known of each epoch.
    pub closed spec fn epochs(&self) -> Map<Epoch, EpochData> {
        self.epochs@
    }

    /// The block at each height.
    pub closed spec fn chain_lengths(&self) -> Map<ChainLength, HeaderHash> {
        self.chain_lengths@
    }

    /// The branch that the snapshot stands at the end of: its blocks from
    /// the genesis block on, in the order in which they were indexed.
    pub closed spec fn branch(&self) -> Seq<ExplorerBlockView> {
        self.branch@
    }

    /// The five persistent maps are well formed.
    pub closed spec fn maps_wf(&self) -> bool {
        &&& self.transactions.wf()
        &&& self.blocks.wf()
        &&& self.addresses.wf()
        &&& self.epochs.wf()
        &&& self.chain_lengths.wf()
    }

    /// The snapshot is that of a branch that starts with a genesis block.
    pub open spec fn inv(&self) -> bool {
        self.consistent() && self.branch().len() > 0
    }

    /// The snapshot is that of its branch: each index holds what the blocks
    /// of the branch put into it, and nothing else. The index of addresses
    /// holds every transaction of the blocks that follow the genesis block.
    pub open spec fn consistent(&self) -> bool {
        let branch = self.branch();
        &&& self.maps_wf()
        &&& branch_wf(branch)
        &&& blocks_wf(self.blocks())
        &&& sets_wf(self.addresses())
        &&& forall|id: HeaderHash| #[trigger]
            self.blocks().contains_key(id) <==> on_branch(branch, id)
        &&& forall|i: int|
            0 <= i < branch.len() ==> self.blocks()[(#[trigger] branch[i]).id]@ == branch[i]
        &&& forall|t: FragmentId| #[trigger]
            self.transactions().contains_key(t) <==> holds_tx(branch, t)
        &&& forall|i: int, t: FragmentId|
            0 <= i < branch.len() && spec_has_tx((#[trigger] branch[i]).transactions, t)
                ==> #[trigger] self.transactions()[t] == branch[i].id
        &&& forall|l: ChainLength| #[trigger]
            self.chain_lengths().contains_key(l) <==> at_height(branch, l)
        &&& forall|i: int|
            0 <= i < branch.len() ==> self.chain_lengths()[(#[trigger] branch[i]).chain_length]
                == branch[i].id
        &&& forall|e: Epoch| #[trigger]
            self.epochs().contains_key(e) <==> epoch_count(branch, e) > 0
        &&& forall|e: Epoch| #[trigger]
            self.epochs().contains_key(e) ==> {
                &&& self.epochs()[e].total_blocks + 1 == epoch_count(branch, e)
                &&& self.epochs()[e].first_block == epoch_first(branch, e)
                &&& self.epochs()[e].last_block == epoch_last(branch, e)
            }
        &&& forall|i: int, j: int, a: Address|
            1 <= i < branch.len() && 0 <= j < branch[i].transactions.len() ==> #[trigger] indexed(
                self.addresses(),
                branch[i].transactions[j],
                a,
            )
        &&& forall|a: Address| #[trigger]
            self.addresses().contains_key(a) ==> accounted(self.addresses(), branch, a)
    }
}


// ---------------------------------------------------------------------
// One block further
// ---------------------------------------------------------------------
proof fn lemma_push(branch: Seq<ExplorerBlockView>, b: ExplorerBlockView)
    ensures
        forall|id: HeaderHash| #[trigger]
            on_branch(branch.push(b), id) <==> on_branch(branch, id) || id == b.id,
        forall|l: ChainLength| #[trigger]
            at_height(branch.push(b), l) <==> at_height(branch, l) || l == b.chain_length,
        forall|t: FragmentId| #[trigger]
            holds_tx(branch.push(b), t) <==> holds_tx(branch, t) || spec_has_tx(b.transactions, t),
        forall|e: Epoch| #[trigger]
            epoch_count(branch.push(b), e) == epoch_count(branch, e) + if b.date.epoch == e {
                1nat
            } else {
                0nat
            },
        forall|e: Epoch| #[trigger]
            epoch_first(branch.push(b), e) == if epoch_count(branch, e) > 0 {
                epoch_first(branch, e)
            } else {
                b.id
            },
        forall|e: Epoch| #[trigger]
            epoch_last(branch.push(b), e) == if b.date.epoch == e {
                b.id
            } else {
                epoch_last(branch, e)
            },
{
    let next = branch.push(b);
    assert(next.drop_last() =~= branch);
    assert(next.last() == b);
    assert forall|id: HeaderHash| #[trigger]
        on_branch(next, id) <==> on_branch(branch, id) || id == b.id by {
        if on_branch(next, id) {
            let i = choose|i: int| 0 <= i < next.len() && (#[trigger] next[i]).id == id;
            if i < branch.len() {
                assert(branch[i].id == id);
            }
        }
        if on_branch(branch, id) {
            let i = choose|i: int| 0 <= i < branch.len() && (#[trigger] branch[i]).id == id;
            assert(next[i].id == id);
        }
        if id == b.id {
            assert(next[branch.len() as int].id == id);
        }
    }
    assert forall|l: ChainLength| #[trigger]
        at_height(next, l) <==> at_height(branch, l) || l == b.chain_length by {
        if at_height(next, l) {
            let i = choose|i: int| 0 <= i < next.len() && (#[trigger] next[i]).chain_length == l;
            if i < branch.len() {
                assert(branch[i].chain_length == l);
            }
        }
        if at_height(branch, l) {
            let i = choose|i: int|
                0 <= i < branch.len() && (#[trigger] branch[i]).chain_length == l;
            assert(next[i].chain_length == l);
        }
        if l == b.chain_length {
            assert(next[branch.len() as int].chain_length == l);
        }
    }
    assert forall|t: FragmentId| #[trigger]
        holds_tx(next, t) <==> holds_tx(branch, t) || spec_has_tx(b.transactions, t) by {
        if holds_tx(next, t) {
            let i = choose|i: int|
                0 <= i < next.len() && spec_has_tx((#[trigger] next[i]).transactions, t);
            if i < branch.len() {
                assert(spec_has_tx(branch[i].transactions, t));
            }
        }
        if holds_tx(branch, t) {
            let i = choose|i: int|
                0 <= i < branch.len() && spec_has_tx((#[trigger] branch[i]).transactions, t);
            assert(spec_has_tx(next[i].transactions, t));
        }
        if spec_has_tx(b.transactions, t) {
            assert(spec_has_tx(next[branch.len() as int].transactions, t));
        }
    }
}

impl State {
    /// The snapshot of no block at all.
    fn empty() -> (r: State)
        ensures
            r.consistent(),
            r.branch().len() == 0,
            r.transactions() == Map::<FragmentId, HeaderHash>::empty(),
            r.blocks() == Map::<HeaderHash, ExplorerBlock>::empty(),
            r.addresses() == Map::<Address, HamtSet<FragmentId>>::empty(),
            r.epochs() == Map::<Epoch, EpochData>::empty(),
            r.chain_lengths() == Map::<ChainLength, HeaderHash>::empty(),
    {
        State {
            transactions: Transactions::new(),
            blocks: Blocks::new(),
            addresses: Addresses::new(),
            epochs: Epochs::new(),
            chain_lengths: ChainLengths::new(),
            branch: Ghost(Seq::empty()),
        }
    }
}


/// The indexes of `next` are those of `prev` with the block `b` added.
spec fn follows(prev: State, next: State, b: ExplorerBlockView) -> bool {
    let e = b.date.epoch;
    &&& next.branch() == prev.branch().push(b)
    &&& spec_first_known(prev.transactions(), b.transactions) == b.transactions.len()
    &&& next.transactions() == super::spec_with_transactions(
        prev.transactions(),
        b.transactions,
        b.transactions.len() as int,
        b.id,
    )
    &&& !prev.blocks().contains_key(b.id)
    &&& next.blocks().dom() == prev.blocks().dom().insert(b.id)
    &&& next.blocks()[b.id]@ == b
    &&& forall|id: HeaderHash| #[trigger]
        prev.blocks().contains_key(id) ==> next.blocks()[id] == prev.blocks()[id]
    &&& !prev.chain_lengths().contains_key(b.chain_length)
    &&& next.chain_lengths() == prev.chain_lengths().insert(b.chain_length, b.id)
    &&& next.epochs() == prev.epochs().insert(
        e,
        super::spec_epoch_after(prev.epochs().get(e), b.id),
    )
    &&& prev.epochs().contains_key(e) ==> prev.epochs()[e].total_blocks < u32::MAX
    &&& if prev.branch().len() == 0 {
        next.addresses() == prev.addresses()
    } else {
        &&& forall|a: Address| #[trigger]
            next.addresses().contains_key(a) <==> prev.addresses().contains_key(a)
                || spec_touched(b.transactions, b.transactions.len() as int, a)
        &&& forall|a: Address| #[trigger]
            next.addresses().contains_key(a) ==> next.addresses()[a]@ == super::spec_known(
                prev.addresses(),
                a,
            ).union(spec_naming(b.transactions, b.transactions.len() as int, a))
    }
}

proof fn lemma_follows_blocks(prev: State, next: State, b: ExplorerBlockView)
    requires
        prev.consistent(),
        b.wf(),
        follows(prev, next, b),
    ensures
        branch_wf(next.branch()),
        forall|id: HeaderHash| #[trigger]
            next.blocks().contains_key(id) <==> on_branch(next.branch(), id),
        forall|i: int|
            0 <= i < next.branch().len() ==> next.blocks()[(#[trigger] next.branch()[i]).id]@
                == next.branch()[i],
        forall|l: ChainLength| #[trigger]
            next.chain_lengths().contains_key(l) <==> at_height(next.branch(), l),
        forall|i: int|
            0 <= i < next.branch().len() ==> next.chain_lengths()[(
            #[trigger] next.branch()[i]).chain_length] == next.branch()[i].id,
{
    let h = prev.branch();
    let n = next.branch();
    lemma_push(h, b);
    assert forall|i: int| 0 <= i < h.len() implies (#[trigger] h[i]).id != b.id && h[i].chain_length
        != b.chain_length by {
        assert(on_branch(h, h[i].id));
        assert(prev.blocks().contains_key(h[i].id));
        assert(at_height(h, h[i].chain_length));
        assert(prev.chain_lengths().contains_key(h[i].chain_length));
    }
    assert forall|i: int| 0 <= i < n.len() implies (#[trigger] n[i]).wf() by {
        if i < h.len() {
            assert(n[i] == h[i]);
        }
    }
    assert forall|i: int, j: int| 0 <= i < j < n.len() implies (#[trigger] n[i]).id != (
    #[trigger] n[j]).id by {
        assert(n[i] == h[i]);
        if j < h.len() {
            assert(n[j] == h[j]);
        }
    }
    assert forall|i: int, j: int| 0 <= i < j < n.len() implies (#[trigger] n[i]).chain_length != (
    #[trigger] n[j]).chain_length by {
        assert(n[i] == h[i]);
        if j < h.len() {
            assert(n[j] == h[j]);
        }
    }
    assert forall|id: HeaderHash| #[trigger]
        next.blocks().contains_key(id) <==> on_branch(n, id) by {
        assert(next.blocks().dom().contains(id) <==> prev.blocks().dom().insert(b.id).contains(
            id,
        ));
        assert(prev.blocks().contains_key(id) <==> on_branch(h, id));
    }
    assert forall|i: int| 0 <= i < n.len() implies next.blocks()[(#[trigger] n[i]).id]@
        == n[i] by {
        if i < h.len() {
            assert(n[i] == h[i]);
            assert(on_branch(h, h[i].id));
            assert(prev.blocks().contains_key(h[i].id));
        }
    }
    assert forall|l: ChainLength| #[trigger]
        next.chain_lengths().contains_key(l) <==> at_height(n, l) by {
        assert(prev.chain_lengths().contains_key(l) <==> at_height(h, l));
    }
    assert forall|i: int| 0 <= i < n.len() implies next.chain_lengths()[(
    #[trigger] n[i]).chain_length] == n[i].id by {
        if i < h.len() {
            assert(n[i] == h[i]);
        }
    }
}

proof fn lemma_follows_transactions(prev: State, next: State, b: ExplorerBlockView)
    requires
        prev.consistent(),
        b.wf(),
        follows(prev, next, b),
    ensures
        forall|t: FragmentId| #[trigger]
            next.transactions().contains_key(t) <==> holds_tx(next.branch(), t),
        forall|i: int, t: FragmentId|
            0 <= i < next.branch().len() && spec_has_tx(
                (#[trigger] next.branch()[i]).transactions,
                t,
            ) ==> #[trigger] next.transactions()[t] == next.branch()[i].id,
{
    let h = prev.branch();
    let n = next.branch();
    let txs = b.transactions;
    lemma_push(h, b);
    lemma_first_known(prev.transactions(), txs);
    assert forall|t: FragmentId| super::spec_among(txs, txs.len() as int, t) <==> spec_has_tx(
        txs,
        t,
    ) by {
        if super::spec_among(txs, txs.len() as int, t) {
            let i = choose|i: int|
                0 <= i < txs.len() as int && i < txs.len() && (#[trigger] txs[i]).id == t;
            assert(0 <= i < txs.len() && txs[i].id == t);
        }
        if spec_has_tx(txs, t) {
            let i = choose|i: int| 0 <= i < txs.len() && (#[trigger] txs[i]).id == t;
            assert(0 <= i < txs.len() as int && i < txs.len() && txs[i].id == t);
        }
    }
    assert forall|t: FragmentId| #[trigger]
        next.transactions().contains_key(t) <==> holds_tx(n, t) by {
        assert(prev.transactions().contains_key(t) <==> holds_tx(h, t));
    }
    assert forall|i: int, t: FragmentId|
        0 <= i < n.len() && spec_has_tx(
            (#[trigger] n[i]).transactions,
            t,
        ) implies #[trigger] next.transactions()[t] == n[i].id by {
        if i < h.len() {
            assert(n[i] == h[i]);
            assert(holds_tx(h, t));
            assert(prev.transactions().contains_key(t));
            assert(prev.transactions()[t] == h[i].id);
            if spec_has_tx(txs, t) {
                let j = choose|j: int| 0 <= j < txs.len() && (#[trigger] txs[j]).id == t;
                assert(!prev.transactions().contains_key(txs[j].id));
            }
        }
    }
}

proof fn lemma_follows_epochs(prev: State, next: State, b: ExplorerBlockView)
    requires
        prev.consistent(),
        b.wf(),
        follows(prev, next, b),
    ensures
        forall|e: Epoch| #[trigger]
            next.epochs().contains_key(e) <==> epoch_count(next.branch(), e) > 0,
        forall|e: Epoch| #[trigger]
            next.epochs().contains_key(e) ==> {
                &&& next.epochs()[e].total_blocks + 1 == epoch_count(next.branch(), e)
                &&& next.epochs()[e].first_block == epoch_first(next.branch(), e)
                &&& next.epochs()[e].last_block == epoch_last(next.branch(), e)
            },
{
    let h = prev.branch();
    lemma_push(h, b);
    assert forall|e: Epoch| #[trigger]
        next.epochs().contains_key(e) <==> epoch_count(next.branch(), e) > 0 by {
        assert(prev.epochs().contains_key(e) <==> epoch_count(h, e) > 0);
    }
    assert forall|e: Epoch| #[trigger] next.epochs().contains_key(e) implies {
        &&& next.epochs()[e].total_blocks + 1 == epoch_count(next.branch(), e)
        &&& next.epochs()[e].first_block == epoch_first(next.branch(), e)
        &&& next.epochs()[e].last_block == epoch_last(next.branch(), e)
    } by {
        assert(prev.epochs().contains_key(e) <==> epoch_count(h, e) > 0);
        if prev.epochs().contains_key(e) {
            assert(prev.epochs()[e].total_blocks + 1 == epoch_count(h, e));
        }
    }
}

proof fn lemma_follows_addresses(prev: State, next: State, b: ExplorerBlockView)
    requires
        prev.consistent(),
        b.wf(),
        follows(prev, next, b),
    ensures
        forall|i: int, j: int, a: Address|
            1 <= i < next.branch().len() && 0 <= j < next.branch()[i].transactions.len()
                ==> #[trigger] indexed(next.addresses(), next.branch()[i].transactions[j], a),
        forall|a: Address| #[trigger]
            next.addresses().contains_key(a) ==> accounted(next.addresses(), next.branch(), a),
{
    let h = prev.branch();
    let n = next.branch();
    let txs = b.transactions;
    assert forall|i: int, j: int, a: Address|
        1 <= i < n.len() && 0 <= j < n[i].transactions.len() implies #[trigger] indexed(
        next.addresses(),
        n[i].transactions[j],
        a,
    ) by {
        if n[i].transactions[j].touches(a) {
            if i < h.len() {
                assert(n[i] == h[i]);
                assert(indexed(prev.addresses(), h[i].transactions[j], a));
            } else {
                assert(n[i] == b);
                assert(txs[j].touches(a));
                assert(spec_touched(txs, txs.len() as int, a));
                assert(spec_naming(txs, txs.len() as int, a).contains(txs[j].id));
            }
            let id = n[i].transactions[j].id;
            let old_set = super::spec_known(prev.addresses(), a);
            let new_set = spec_naming(txs, txs.len() as int, a);
            assert(h.len() > 0);
            assert(next.addresses().contains_key(a));
            assert(next.addresses()[a]@ == old_set.union(new_set));
            assert(old_set.contains(id) || new_set.contains(id));
            assert(old_set.union(new_set).contains(id));
        }
    }
    assert forall|a: Address, t: FragmentId|
        named_on_branch(h, a, t) implies named_on_branch(n, a, t) by {
        let (i, j) = choose|i: int, j: int|
            1 <= i < h.len() && 0 <= j < h[i].transactions.len() && (
            #[trigger] h[i].transactions[j]).id == t && h[i].transactions[j].touches(a);
        assert(n[i] == h[i]);
        assert(n[i].transactions[j].id == t && n[i].transactions[j].touches(a));
    }
    assert forall|a: Address| #[trigger] next.addresses().contains_key(a) implies accounted(
        next.addresses(),
        n,
        a,
    ) by {
        if h.len() == 0 {
            assert(prev.addresses().contains_key(a));
            assert(accounted(prev.addresses(), h, a));
            let t = choose|t: FragmentId| #[trigger] named_on_branch(h, a, t);
            assert(named_on_branch(h, a, t));
        } else {
            let i = h.len() as int;
            assert(n[i] == b);
            let old_set = super::spec_known(prev.addresses(), a);
            let new_set = spec_naming(txs, txs.len() as int, a);
            assert(next.addresses()[a]@ == old_set.union(new_set));
            assert forall|t: FragmentId| #[trigger]
                next.addresses()[a]@.contains(t) implies named_on_branch(n, a, t) by {
                if new_set.contains(t) {
                    let j = choose|j: int|
                        0 <= j < txs.len() as int && j < txs.len() && (#[trigger] txs[j]).id == t
                            && txs[j].touches(a);
                    assert(n[i].transactions[j].id == t && n[i].transactions[j].touches(a));
                } else {
                    assert(old_set.contains(t));
                    assert(prev.addresses().contains_key(a));
                    assert(accounted(prev.addresses(), h, a));
                    assert(named_on_branch(h, a, t));
                }
            }
            if prev.addresses().contains_key(a) {
                assert(accounted(prev.addresses(), h, a));
                let t = choose|t: FragmentId| #[trigger] named_on_branch(h, a, t);
                assert(named_on_branch(n, a, t));
            } else {
                assert(spec_touched(txs, txs.len() as int, a));
                let j = choose|j: int|
                    0 <= j < txs.len() as int && j < txs.len() && (#[trigger] txs[j]).touches(a);
                assert(n[i].transactions[j].id == txs[j].id && n[i].transactions[j].touches(a));
                assert(named_on_branch(n, a, txs[j].id));
            }
        }
    }
}


impl State {
    /// The snapshot one block further. The index of addresses is left as it
    /// is for the genesis block.
    fn extend(&self, block: &ExplorerBlock, genesis: bool) -> (r: Result<State, Error>)
        requires
            self.consistent(),
            block@.wf(),
            genesis <==> self.branch().len() == 0,
        ensures
            match r {
                Ok(next) => {
                    &&& next.consistent()
                    &&& next.branch() == self.branch().push(block@)
                    &&& self.branch().len() == 0 ==> next.addresses() == self.addresses()
                    &&& spec_derive_error(
                        self.transactions(),
                        self.blocks(),
                        self.chain_lengths(),
                        block@,
                    ) is None
                },
                Err(e) => spec_derive_error(
                    self.transactions(),
                    self.blocks(),
                    self.chain_lengths(),
                    block@,
                ) == Some(e),
            },
    {
        let ghost b = block@;
        proof {
            lemma_first_known(self.transactions(), b.transactions);
        }
        let transactions = match apply_block_to_transactions(self.transactions.clone(), block) {
            Ok(t) => t,
            Err(e) => {
                return Err(e);
            },
        };
        let blocks = match apply_block_to_blocks(self.blocks.clone(), block) {
            Ok(t) => t,
            Err(e) => {
                return Err(e);
            },
        };
        let chain_lengths = match apply_block_to_chain_lengths(self.chain_lengths.clone(), block) {
            Ok(t) => t,
            Err(e) => {
                return Err(e);
            },
        };
        let addresses = if genesis {
            self.addresses.clone()
        } else {
            match apply_block_to_addresses(self.addresses.clone(), block) {
                Ok(t) => t,
                Err(e) => {
                    return Err(e);
                },
            }
        };
        proof {
            let h = self.branch();
            lemma_push(h, b);
            assert forall|i: int| 0 <= i < h.len() implies (#[trigger] h[i]).chain_length
                != b.chain_length by {
                assert(at_height(h, h[i].chain_length));
            }
            let n = h.push(b);
            assert forall|i: int, j: int| 0 <= i < j < n.len() implies (
            #[trigger] n[i]).chain_length != (#[trigger] n[j]).chain_length by {
                assert(n[i] == h[i]);
                if j < h.len() {
                    assert(n[j] == h[j]);
                }
            }
            lemma_branch_length(n);
            lemma_epoch_count_bound(h, b.date.epoch);
            assert(n.len() == h.len() + 1);
            if self.epochs().contains_key(b.date.epoch) {
                assert(self.epochs()[b.date.epoch].total_blocks + 1 == epoch_count(
                    h,
                    b.date.epoch,
                ));
            }
            assert(block.date.epoch == b.date.epoch);
        }
        let epochs = match apply_block_to_epochs(self.epochs.clone(), block) {
            Ok(t) => t,
            Err(e) => {
                return Err(e);
            },
        };
        let next = State {
            transactions,
            blocks,
            addresses,
            epochs,
            chain_lengths,
            branch: Ghost(self.branch@.push(block@)),
        };
        proof {
            assert(follows(*self, next, b));
            lemma_follows_blocks(*self, next, b);
            lemma_follows_transactions(*self, next, b);
            lemma_follows_epochs(*self, next, b);
            lemma_follows_addresses(*self, next, b);
            assert forall|id: HeaderHash| #[trigger] next.blocks().contains_key(id) implies
                next.blocks()[id]@.wf() by {
                if id != b.id {
                    assert(self.blocks().contains_key(id));
                }
            }
        }
        Ok(next)
    }
}


impl State {
    /// The snapshot of a genesis block: the block is in every index but that
    /// of addresses, which starts out empty.
    pub fn genesis(block: &ExplorerBlock) -> (r: State)
        requires
            block@.wf(),
        ensures
            r.inv(),
            r.branch() == seq![block@],
            r.addresses() == Map::<Address, HamtSet<FragmentId>>::empty(),
    {
        let start = State::empty();
        proof {
            lemma_first_known(start.transactions(), block@.transactions);
            let known = spec_first_known(start.transactions(), block@.transactions);
            if known < block@.transactions.len() {
                assert(start.transactions().contains_key(block@.transactions[known].id));
            }
            assert(start.branch().push(block@) =~= seq![block@]);
        }
        match start.extend(block, true) {
            Ok(next) => next,
            Err(_) => vstd::pervasive::unreached(),
        }
    }

    /// The snapshot of a block from the snapshot of its parent. Fails, in
    /// this order, with `TransactionAlreadyExists` if the branch holds one of
    /// the block's transactions, with `BlockAlreadyExists` if it holds the
    /// block, and with `ChainLengthBlockAlreadyExists` if it holds a block of
    /// the same chain length.
    pub fn derive(&self, block: &ExplorerBlock) -> (r: Result<State, Error>)
        requires
            self.inv(),
            block@.wf(),
        ensures
            match r {
                Ok(next) => {
                    &&& next.inv()
                    &&& next.branch() == self.branch().push(block@)
                    &&& spec_derive_error(
                        self.transactions(),
                        self.blocks(),
                        self.chain_lengths(),
                        block@,
                    ) is None
                },
                Err(e) => spec_derive_error(
                    self.transactions(),
                    self.blocks(),
                    self.chain_lengths(),
                    block@,
                ) == Some(e),
            },
    {
        self.extend(block, false)
    }
}


impl State {
    /// The block as the explorer keeps it, its inputs resolved against the
    /// indexes of this snapshot, which is that of its parent.
    pub fn project(&self, block: &Block, discrimination: Discrimination) -> (r: Result<
        ExplorerBlock,
        Error,
    >)
        requires
            self.consistent(),
        ensures
            match r {
                Ok(b) => b@.wf() && spec_resolve_from(
                    *block,
                    discrimination,
                    self.transactions(),
                    self.blocks(),
                ) == Some(b@),
                Err(e) => e is Internal && spec_resolve_from(
                    *block,
                    discrimination,
                    self.transactions(),
                    self.blocks(),
                ) is None,
            },
    {
        ExplorerBlock::resolve_from(block, discrimination, &self.transactions, &self.blocks)
    }

    /// The block of this identifier, if it is on the branch.
    pub fn get_block(&self, block_id: &HeaderHash) -> (r: Option<ExplorerBlock>)
        requires
            self.consistent(),
        ensures
            match r {
                Some(b) => self.blocks().contains_key(*block_id) && b@ == self.blocks()[*block_id]@,
                None => !self.blocks().contains_key(*block_id),
            },
    {
        match self.blocks.lookup(block_id) {
            Some(b) => Some(b.clone()),
            None => None,
        }
    }

    /// What is known of this epoch, if a block of the branch is of it.
    pub fn get_epoch(&self, epoch: Epoch) -> (r: Option<EpochData>)
        requires
            self.consistent(),
        ensures
            r == self.epochs().get(epoch),
    {
        match self.epochs.lookup(&epoch) {
            Some(e) => Some(*e),
            None => None,
        }
    }

    /// The block of the branch at this chain length, if it has one.
    pub fn find_block_by_chain_length(&self, chain_length: ChainLength) -> (r: Option<HeaderHash>)
        requires
            self.consistent(),
        ensures
            r == self.chain_lengths().get(chain_length),
    {
        match self.chain_lengths.lookup(&chain_length) {
            Some(b) => Some(*b),
            None => None,
        }
    }

    /// The block of the branch that holds this transaction, if one does.
    pub fn find_block_by_transaction(&self, transaction: &FragmentId) -> (r: Option<HeaderHash>)
        requires
            self.consistent(),
        ensures
            r == self.transactions().get(*transaction),
    {
        match self.transactions.lookup(transaction) {
            Some(id) => Some(*id),
            None => None,
        }
    }

    /// Whether the index of addresses holds the transaction under the
    /// address.
    pub fn names(&self, address: &Address, transaction: &FragmentId) -> (r: bool)
        requires
            self.consistent(),
        ensures
            r == (self.addresses().contains_key(*address) && self.addresses()[*address]@.contains(
                *transaction,
            )),
    {
        match self.addresses.lookup(address) {
            Some(set) => set.contains(transaction),
            None => false,
        }
    }
}

// ---------------------------------------------------------------------
// What holds of every snapshot
// ---------------------------------------------------------------------
/// Every transaction of every block of a snapshot is bound, in the index of
/// transactions, to the block that holds it.
pub proof fn lemma_transactions_point_to_their_block(s: State, b: HeaderHash, t: FragmentId)
    requires
        s.inv(),
        s.blocks().contains_key(b),
        s.blocks()[b]@.has_tx(t),
    ensures
        s.transactions().contains_key(t),
        s.transactions()[t] == b,
{
    let h = s.branch();
    assert(on_branch(h, b));
    let i = choose|i: int| 0 <= i < h.len() && (#[trigger] h[i]).id == b;
    assert(s.blocks()[h[i].id]@ == h[i]);
    assert(spec_has_tx(h[i].transactions, t));
    assert(holds_tx(h, t));
    assert(s.transactions()[t] == h[i].id);
}

/// The chain length of every block of a snapshot is bound, in the index of
/// chain lengths, to that block, which is on the branch of the snapshot.
pub proof fn lemma_chain_length_leads_to_block(s: State, b: HeaderHash)
    requires
        s.inv(),
        s.blocks().contains_key(b),
    ensures
        s.chain_lengths().contains_key(s.blocks()[b].chain_length),
        s.chain_lengths()[s.blocks()[b].chain_length] == b,
        on_branch(s.branch(), s.chain_lengths()[s.blocks()[b].chain_length]),
{
    let h = s.branch();
    assert(on_branch(h, b));
    let i = choose|i: int| 0 <= i < h.len() && (#[trigger] h[i]).id == b;
    assert(s.blocks()[h[i].id]@ == h[i]);
    assert(at_height(h, h[i].chain_length));
    assert(s.chain_lengths()[h[i].chain_length] == h[i].id);
}

/// The epoch of every block of a snapshot is known, and its count is one
/// less than the number of blocks of that epoch on the branch: the first
/// block of an epoch is counted as 0.
pub proof fn lemma_epoch_counts_blocks(s: State, b: HeaderHash)
    requires
        s.inv(),
        s.blocks().contains_key(b),
    ensures
        s.epochs().contains_key(s.blocks()[b].date.epoch),
        s.epochs()[s.blocks()[b].date.epoch].total_blocks == epoch_count(
            s.branch(),
            s.blocks()[b].date.epoch,
        ) - 1,
{
    let h = s.branch();
    assert(on_branch(h, b));
    let i = choose|i: int| 0 <= i < h.len() && (#[trigger] h[i]).id == b;
    assert(s.blocks()[h[i].id]@ == h[i]);
    let e = h[i].date.epoch;
    lemma_epoch_count_positive(h, e);
    assert(s.epochs().contains_key(e));
}

/// Every transaction of every block of a snapshot but the genesis block is
/// held, in the index of addresses, under each address that one of its
/// outputs or resolved inputs names.
pub proof fn lemma_addresses_hold_transactions(s: State, b: HeaderHash, t: FragmentId, a: Address)
    requires
        s.inv(),
        s.blocks().contains_key(b),
        b != s.branch()[0].id,
        s.blocks()[b]@.has_tx(t),
        s.blocks()[b]@.tx(t).touches(a),
    ensures
        s.addresses().contains_key(a),
        s.addresses()[a]@.contains(t),
{
    let h = s.branch();
    assert(on_branch(h, b));
    let i = choose|i: int| 0 <= i < h.len() && (#[trigger] h[i]).id == b;
    assert(s.blocks()[h[i].id]@ == h[i]);
    let j = h[i].tx_index(t);
    assert(0 <= j < h[i].transactions.len() && h[i].transactions[j].id == t);
    assert(indexed(s.addresses(), h[i].transactions[j], a));
}

} // verus!
