//! Blocks and transactions as the explorer keeps them, and how a block is
//! projected onto them against the indexes of its parent.

use super::error::Error;
use super::set::HamtSet;
use crate::address::{Address, Discrimination, Kind};
use crate::blockcfg::{
    AuthenticatedTransaction, Block, BlockDate, ChainLength, Epoch, Fragment, FragmentId,
    HeaderHash, Input, Output, Payload, UtxoPointer, Value, Witness,
};
use crate::hamt::{Hamt, HashKey};
use vstd::prelude::*;

verus! {

/// Which block holds a transaction.
pub type Transactions = Hamt<FragmentId, HeaderHash>;

/// The indexed blocks of a branch, by their identifiers.
pub type Blocks = Hamt<HeaderHash, ExplorerBlock>;

/// The block at each height of a branch.
pub type ChainLengths = Hamt<ChainLength, HeaderHash>;

/// The transactions that name an address as an input or as an output.
pub type Addresses = Hamt<Address, HamtSet<FragmentId>>;

/// What is known of each epoch of a branch.
pub type Epochs = Hamt<Epoch, EpochData>;

/// An input of a transaction, with the address and the value it stands for.
#[derive(Clone, Copy, Debug, PartialEq, Eq)]
pub struct ExplorerInput {
    pub address: Address,
    pub value: Value,
}

/// An output of a transaction.
#[derive(Clone, Copy, Debug, PartialEq, Eq)]
pub struct ExplorerOutput {
    pub address: Address,
    pub value: Value,
}

/// The first and the last block of an epoch on a branch, and how many blocks
/// have followed the first.
#[derive(Clone, Copy, Debug, PartialEq, Eq)]
pub struct EpochData {
    pub first_block: HeaderHash,
    pub last_block: HeaderHash,
    pub total_blocks: u32,
}

/// A transaction as the explorer keeps it. The outputs stand in the order of
/// the transaction, so that a later input can name one by its position.
#[derive(Debug, PartialEq, Eq)]
pub struct ExplorerTransaction {
    id: FragmentId,
    inputs: Vec<ExplorerInput>,
    outputs: Vec<ExplorerOutput>,
}

/// A block as the explorer keeps it. No two of its transactions have the same
/// identifier.
#[derive(Debug, PartialEq, Eq)]
pub struct ExplorerBlock {
    pub transactions: Vec<ExplorerTransaction>,
    pub id: HeaderHash,
    pub date: BlockDate,
    pub chain_length: ChainLength,
    pub parent_hash: HeaderHash,
}

/// What an `ExplorerTransaction` holds.
pub struct ExplorerTransactionView {
    pub id: FragmentId,
    pub inputs: Seq<ExplorerInput>,
    pub outputs: Seq<ExplorerOutput>,
}

/// What an `ExplorerBlock` holds.
pub struct ExplorerBlockView {
    pub transactions: Seq<ExplorerTransactionView>,
    pub id: HeaderHash,
    pub date: BlockDate,
    pub chain_length: ChainLength,
    pub parent_hash: HeaderHash,
}

impl ExplorerTransactionView {
    /// The transaction names the address, in an input or in an output.
    pub open spec fn touches(self, a: Address) -> bool {
        ||| exists|i: int| 0 <= i < self.inputs.len() && (#[trigger] self.inputs[i]).address == a
        ||| exists|i: int| 0 <= i < self.outputs.len() && (#[trigger] self.outputs[i]).address == a
    }
}

/// One of the transactions has this identifier.
pub open spec fn spec_has_tx(txs: Seq<ExplorerTransactionView>, id: FragmentId) -> bool {
    exists|i: int| 0 <= i < txs.len() && (#[trigger] txs[i]).id == id
}

/// The place of the transaction of this identifier.
pub open spec fn spec_tx_index(txs: Seq<ExplorerTransactionView>, id: FragmentId) -> int {
    choose|i: int| 0 <= i < txs.len() && (#[trigger] txs[i]).id == id
}

/// No two of the transactions have the same identifier.
pub open spec fn spec_distinct(txs: Seq<ExplorerTransactionView>) -> bool {
    forall|i: int, j: int| 0 <= i < j < txs.len() ==> (#[trigger] txs[i]).id != (#[trigger] txs[j]).id
}

impl ExplorerBlockView {
    /// The block holds a transaction of this identifier.
    pub open spec fn has_tx(self, id: FragmentId) -> bool {
        spec_has_tx(self.transactions, id)
    }

    /// The place of the transaction of this identifier.
    pub open spec fn tx_index(self, id: FragmentId) -> int {
        spec_tx_index(self.transactions, id)
    }

    /// The transaction of this identifier.
    pub open spec fn tx(self, id: FragmentId) -> ExplorerTransactionView {
        self.transactions[self.tx_index(id)]
    }

    /// No two transactions of the block have the same identifier.
    pub open spec fn wf(self) -> bool {
        spec_distinct(self.transactions)
    }
}

impl View for ExplorerTransaction {
    type V = ExplorerTransactionView;

    closed spec fn view(&self) -> ExplorerTransactionView {
        ExplorerTransactionView { id: self.id, inputs: self.inputs@, outputs: self.outputs@ }
    }
}

/// The views of the transactions of a block, in their order.
pub open spec fn spec_views(txs: Seq<ExplorerTransaction>) -> Seq<ExplorerTransactionView> {
    Seq::new(txs.len(), |i: int| txs[i]@)
}

impl View for ExplorerBlock {
    type V = ExplorerBlockView;

    open spec fn view(&self) -> ExplorerBlockView {
        ExplorerBlockView {
            transactions: spec_views(self.transactions@),
            id: self.id,
            date: self.date,
            chain_length: self.chain_length,
            parent_hash: self.parent_hash,
        }
    }
}

/// A copy of a vector of plain values.
fn copy_all<T: Copy>(v: &Vec<T>) -> (r: Vec<T>)
    ensures
        r@ == v@,
{
    let mut out: Vec<T> = Vec::new();
    let mut i: usize = 0;
    while i < v.len()
        invariant
            i <= v.len(),
            out@ == v@.subrange(0, i as int),
        decreases v.len() - i,
    {
        out.push(v[i]);
        i += 1;
        proof {
            assert(out@ =~= v@.subrange(0, i as int));
        }
    }
    proof {
        assert(out@ =~= v@);
    }
    out
}

impl Clone for ExplorerTransaction {
    fn clone(&self) -> (r: Self)
        ensures
            r@ == self@,
    {
        ExplorerTransaction {
            id: self.id,
            inputs: copy_all(&self.inputs),
            outputs: copy_all(&self.outputs),
        }
    }
}

impl Clone for ExplorerBlock {
    fn clone(&self) -> (r: Self)
        ensures
            r@ == self@,
    {
        let mut transactions: Vec<ExplorerTransaction> = Vec::new();
        let mut i: usize = 0;
        while i < self.transactions.len()
            invariant
                i <= self.transactions.len(),
                transactions.len() == i,
                forall|j: int| 0 <= j < i ==> (#[trigger] transactions@[j])@ == self.transactions@[j]@,
            decreases self.transactions.len() - i,
        {
            let t = self.transactions[i].clone();
            transactions.push(t);
            i += 1;
        }
        proof {
            assert(spec_views(transactions@) =~= spec_views(self.transactions@));
        }
        ExplorerBlock {
            transactions,
            id: self.id,
            date: self.date,
            chain_length: self.chain_length,
            parent_hash: self.parent_hash,
        }
    }
}


// ---------------------------------------------------------------------
// What a block projects to
// ---------------------------------------------------------------------
/// What becomes of one input of a transaction.
pub enum InputProjection {
    /// It is indexed, with this address and value.
    Indexed(ExplorerInput),
    /// It is left out of the index.
    Skipped,
    /// It refers to an output that the branch does not hold.
    Unresolved,
}

/// The address of the account of this key on a chain of this discrimination.
pub open spec fn spec_account_address(discrimination: Discrimination, key: [u8; 32]) -> Address {
    Address(discrimination, Kind::Account(key))
}

/// The output that a reference points to: the block that holds the
/// transaction is found through `transactions`, then the transaction in that
/// block, then the output at the position that the reference gives.
pub open spec fn spec_resolve_utxo(
    pointer: UtxoPointer,
    transactions: Map<FragmentId, HeaderHash>,
    blocks: Map<HeaderHash, ExplorerBlock>,
) -> Option<ExplorerOutput> {
    let tx = pointer.transaction_id;
    if transactions.contains_key(tx) && blocks.contains_key(transactions[tx]) {
        let block = blocks[transactions[tx]]@;
        if block.has_tx(tx) && (pointer.output_index as int) < block.tx(tx).outputs.len() {
            Some(block.tx(tx).outputs[pointer.output_index as int])
        } else {
            None
        }
    } else {
        None
    }
}

/// What becomes of an input, by its kind and the kind of its witness.
pub open spec fn spec_project_input(
    input: Input,
    witness: Witness,
    discrimination: Discrimination,
    transactions: Map<FragmentId, HeaderHash>,
    blocks: Map<HeaderHash, ExplorerBlock>,
) -> InputProjection {
    match input {
        Input::Account(key, value) => match witness {
            Witness::Account => InputProjection::Indexed(
                ExplorerInput { address: spec_account_address(discrimination, key), value },
            ),
            _ => InputProjection::Skipped,
        },
        Input::Utxo(pointer) => match spec_resolve_utxo(pointer, transactions, blocks) {
            Some(output) => InputProjection::Indexed(
                ExplorerInput { address: output.address, value: output.value },
            ),
            None => InputProjection::Unresolved,
        },
    }
}

/// How many inputs have a witness: each input is paired with the witness at
/// its position.
pub open spec fn spec_pairs(inputs: Seq<Input>, witnesses: Seq<Witness>) -> nat {
    if inputs.len() <= witnesses.len() {
        inputs.len()
    } else {
        witnesses.len()
    }
}

/// The indexed inputs among the first `n` inputs, in their order, or `None`
/// if one of them does not resolve.
pub open spec fn spec_project_inputs(
    inputs: Seq<Input>,
    witnesses: Seq<Witness>,
    n: nat,
    discrimination: Discrimination,
    transactions: Map<FragmentId, HeaderHash>,
    blocks: Map<HeaderHash, ExplorerBlock>,
) -> Option<Seq<ExplorerInput>>
    decreases n,
{
    if n == 0 {
        Some(Seq::empty())
    } else {
        match spec_project_inputs(
            inputs,
            witnesses,
            (n - 1) as nat,
            discrimination,
            transactions,
            blocks,
        ) {
            None => None,
            Some(before) => match spec_project_input(
                inputs[n - 1],
                witnesses[n - 1],
                discrimination,
                transactions,
                blocks,
            ) {
                InputProjection::Indexed(i) => Some(before.push(i)),
                InputProjection::Skipped => Some(before),
                InputProjection::Unresolved => None,
            },
        }
    }
}

/// The outputs of a transaction as the explorer keeps them: each one as it
/// is, at its position.
pub open spec fn spec_project_outputs(outputs: Seq<Output>) -> Seq<ExplorerOutput> {
    Seq::new(
        outputs.len(),
        |i: int| ExplorerOutput { address: outputs[i].address, value: outputs[i].value },
    )
}

/// What a transaction projects to, or `None` if one of its inputs does not
/// resolve.
pub open spec fn spec_project_transaction(
    id: FragmentId,
    tx: AuthenticatedTransaction,
    discrimination: Discrimination,
    transactions: Map<FragmentId, HeaderHash>,
    blocks: Map<HeaderHash, ExplorerBlock>,
) -> Option<ExplorerTransactionView> {
    match spec_project_inputs(
        tx.inputs@,
        tx.witnesses@,
        spec_pairs(tx.inputs@, tx.witnesses@),
        discrimination,
        transactions,
        blocks,
    ) {
        Some(inputs) => Some(
            ExplorerTransactionView { id, inputs, outputs: spec_project_outputs(tx.outputs@) },
        ),
        None => None,
    }
}

/// The transaction that a fragment carries, if it is of a kind that the
/// explorer indexes.
pub open spec fn spec_indexed_transaction(payload: Payload) -> Option<AuthenticatedTransaction> {
    match payload {
        Payload::Transaction(tx) => Some(tx),
        Payload::OwnerStakeDelegation(tx) => Some(tx),
        Payload::StakeDelegation(tx) => Some(tx),
        Payload::PoolRegistration(tx) => Some(tx),
        Payload::PoolManagement(tx) => Some(tx),
        _ => None,
    }
}

/// The transactions with `t` among them: in the place of the transaction of
/// its identifier if there is one, and else at the end.
pub open spec fn spec_upsert(
    txs: Seq<ExplorerTransactionView>,
    t: ExplorerTransactionView,
) -> Seq<ExplorerTransactionView> {
    if spec_has_tx(txs, t.id) {
        txs.update(spec_tx_index(txs, t.id), t)
    } else {
        txs.push(t)
    }
}

/// The transactions that the first `n` fragments of a block project to, or
/// `None` if an input of one of them does not resolve.
pub open spec fn spec_project_fragments(
    fragments: Seq<Fragment>,
    n: nat,
    discrimination: Discrimination,
    transactions: Map<FragmentId, HeaderHash>,
    blocks: Map<HeaderHash, ExplorerBlock>,
) -> Option<Seq<ExplorerTransactionView>>
    decreases n,
{
    if n == 0 {
        Some(Seq::empty())
    } else {
        match spec_project_fragments(
            fragments,
            (n - 1) as nat,
            discrimination,
            transactions,
            blocks,
        ) {
            None => None,
            Some(before) => match spec_indexed_transaction(fragments[n - 1].payload) {
                None => Some(before),
                Some(tx) => match spec_project_transaction(
                    fragments[n - 1].id,
                    tx,
                    discrimination,
                    transactions,
                    blocks,
                ) {
                    Some(t) => Some(spec_upsert(before, t)),
                    None => None,
                },
            },
        }
    }
}

/// What a block projects to against the indexes of its parent, or `None` if
/// an input of one of its transactions does not resolve.
pub open spec fn spec_resolve_from(
    block: Block,
    discrimination: Discrimination,
    transactions: Map<FragmentId, HeaderHash>,
    blocks: Map<HeaderHash, ExplorerBlock>,
) -> Option<ExplorerBlockView> {
    match spec_project_fragments(
        block.contents@,
        block.contents@.len(),
        discrimination,
        transactions,
        blocks,
    ) {
        Some(txs) => Some(
            ExplorerBlockView {
                transactions: txs,
                id: block.header.hash,
                date: block.header.date,
                chain_length: block.header.chain_length,
                parent_hash: block.header.parent_hash,
            },
        ),
        None => None,
    }
}

/// Every block of the index is well formed.
pub open spec fn blocks_wf(blocks: Map<HeaderHash, ExplorerBlock>) -> bool {
    forall|id: HeaderHash| #[trigger] blocks.contains_key(id) ==> blocks[id]@.wf()
}

/// The place of the transaction `id` among `txs`, if it is there.
fn position(txs: &Vec<ExplorerTransaction>, id: &FragmentId) -> (r: Option<usize>)
    ensures
        match r {
            Some(i) => i < txs.len() && txs[i as int]@.id == *id,
            None => forall|j: int| 0 <= j < txs.len() ==> (#[trigger] txs[j])@.id != *id,
        },
{
    let mut i: usize = 0;
    while i < txs.len()
        invariant
            i <= txs.len(),
            forall|j: int| 0 <= j < i ==> (#[trigger] txs[j])@.id != *id,
        decreases txs.len() - i,
    {
        if txs[i].id.same(id) {
            return Some(i);
        }
        i += 1;
    }
    None
}

/// Among transactions of distinct identifiers, an identifier finds its own
/// transaction.
pub proof fn lemma_tx_at(txs: Seq<ExplorerTransactionView>, i: int)
    requires
        spec_distinct(txs),
        0 <= i < txs.len(),
    ensures
        spec_has_tx(txs, txs[i].id),
        spec_tx_index(txs, txs[i].id) == i,
{
    let id = txs[i].id;
    let j = spec_tx_index(txs, id);
    assert(0 <= j < txs.len() && txs[j].id == id);
    if j < i {
        assert(txs[j].id != txs[i].id);
    } else if i < j {
        assert(txs[i].id != txs[j].id);
    }
}

/// The output that `pointer` refers to, if the indexes hold it.
fn resolve_utxo(pointer: &UtxoPointer, transactions: &Transactions, blocks: &Blocks) -> (r: Option<
    ExplorerOutput,
>)
    requires
        transactions.wf(),
        blocks.wf(),
        blocks_wf(blocks@),
    ensures
        r == spec_resolve_utxo(*pointer, transactions@, blocks@),
{
    let block_id = match transactions.lookup(&pointer.transaction_id) {
        Some(id) => *id,
        None => {
            return None;
        },
    };
    let block = match blocks.lookup(&block_id) {
        Some(b) => b,
        None => {
            return None;
        },
    };
    let ghost bv = block@;
    assert(bv.wf());
    match position(&block.transactions, &pointer.transaction_id) {
        Some(i) => {
            proof {
                assert(bv.transactions[i as int] == block.transactions@[i as int]@);
                lemma_tx_at(bv.transactions, i as int);
            }
            let tx = &block.transactions[i];
            let index = pointer.output_index as usize;
            if index < tx.outputs.len() {
                Some(tx.outputs[index])
            } else {
                None
            }
        },
        None => {
            proof {
                if bv.has_tx(pointer.transaction_id) {
                    let j = bv.tx_index(pointer.transaction_id);
                    assert(bv.transactions[j] == block.transactions@[j]@);
                }
            }
            None
        },
    }
}

impl ExplorerTransaction {
    /// The transaction `auth_tx` of the fragment `id` as the explorer keeps
    /// it. Each input is taken with the witness at its position and resolved
    /// against the indexes of the parent block. Fails with `Internal` where
    /// an input refers to an output that these indexes do not hold.
    pub fn from(
        id: &FragmentId,
        auth_tx: &AuthenticatedTransaction,
        discrimination: Discrimination,
        transactions: &Transactions,
        blocks: &Blocks,
    ) -> (r: Result<ExplorerTransaction, Error>)
        requires
            transactions.wf(),
            blocks.wf(),
            blocks_wf(blocks@),
        ensures
            match r {
                Ok(t) => spec_project_transaction(
                    *id,
                    *auth_tx,
                    discrimination,
                    transactions@,
                    blocks@,
                ) == Some(t@),
                Err(e) => e is Internal && spec_project_transaction(
                    *id,
                    *auth_tx,
                    discrimination,
                    transactions@,
                    blocks@,
                ) is None,
            },
    {
        let mut new_outputs: Vec<ExplorerOutput> = Vec::new();
        let mut o: usize = 0;
        while o < auth_tx.outputs.len()
            invariant
                o <= auth_tx.outputs.len(),
                new_outputs@ == spec_project_outputs(auth_tx.outputs@).subrange(0, o as int),
            decreases auth_tx.outputs.len() - o,
        {
            let output = &auth_tx.outputs[o];
            new_outputs.push(ExplorerOutput { address: output.address, value: output.value });
            o += 1;
            proof {
                assert(new_outputs@ =~= spec_project_outputs(auth_tx.outputs@).subrange(
                    0,
                    o as int,
                ));
            }
        }
        proof {
            assert(new_outputs@ =~= spec_project_outputs(auth_tx.outputs@));
        }
        let pairs = if auth_tx.inputs.len() <= auth_tx.witnesses.len() {
            auth_tx.inputs.len()
        } else {
            auth_tx.witnesses.len()
        };
        let mut new_inputs: Vec<ExplorerInput> = Vec::new();
        let mut i: usize = 0;
        while i < pairs
            invariant
                i <= pairs,
                pairs == spec_pairs(auth_tx.inputs@, auth_tx.witnesses@),
                transactions.wf(),
                blocks.wf(),
                blocks_wf(blocks@),
                spec_project_inputs(
                    auth_tx.inputs@,
                    auth_tx.witnesses@,
                    i as nat,
                    discrimination,
                    transactions@,
                    blocks@,
                ) == Some(new_inputs@),
            decreases pairs - i,
        {
            let ghost step = spec_project_input(
                auth_tx.inputs@[i as int],
                auth_tx.witnesses@[i as int],
                discrimination,
                transactions@,
                blocks@,
            );
            match (&auth_tx.inputs[i], &auth_tx.witnesses[i]) {
                (Input::Account(key, value), Witness::Account) => {
                    let address = Address(discrimination, Kind::Account(*key));
                    new_inputs.push(ExplorerInput { address, value: *value });
                },
                (Input::Account(_, _), _) => {},
                (Input::Utxo(pointer), _) => {
                    match resolve_utxo(pointer, transactions, blocks) {
                        Some(output) => {
                            new_inputs.push(
                                ExplorerInput { address: output.address, value: output.value },
                            );
                        },
                        None => {
                            proof {
                                lemma_unresolved_stays(
                                    auth_tx.inputs@,
                                    auth_tx.witnesses@,
                                    (i + 1) as nat,
                                    pairs as nat,
                                    discrimination,
                                    transactions@,
                                    blocks@,
                                );
                            }
                            return Err(Error::Internal);
                        },
                    }
                },
            }
            i += 1;
        }
        Ok(ExplorerTransaction { id: *id, inputs: new_inputs, outputs: new_outputs })
    }

    pub fn id(&self) -> (r: FragmentId)
        ensures
            r == self@.id,
    {
        self.id
    }

    pub fn inputs(&self) -> (r: &Vec<ExplorerInput>)
        ensures
            r@ == self@.inputs,
    {
        &self.inputs
    }

    pub fn outputs(&self) -> (r: &Vec<ExplorerOutput>)
        ensures
            r@ == self@.outputs,
    {
        &self.outputs
    }
}

/// Once an input has failed to resolve, looking at more inputs does not help.
proof fn lemma_unresolved_stays(
    inputs: Seq<Input>,
    witnesses: Seq<Witness>,
    n: nat,
    m: nat,
    discrimination: Discrimination,
    transactions: Map<FragmentId, HeaderHash>,
    blocks: Map<HeaderHash, ExplorerBlock>,
)
    requires
        n <= m,
        spec_project_inputs(inputs, witnesses, n, discrimination, transactions, blocks) is None,
    ensures
        spec_project_inputs(inputs, witnesses, m, discrimination, transactions, blocks) is None,
    decreases m,
{
    if n < m {
        lemma_unresolved_stays(
            inputs,
            witnesses,
            n,
            (m - 1) as nat,
            discrimination,
            transactions,
            blocks,
        );
    }
}


/// The transaction that a fragment carries, if it is of a kind that the
/// explorer indexes.
fn indexed_transaction(payload: &Payload) -> (r: Option<&AuthenticatedTransaction>)
    ensures
        match r {
            Some(tx) => spec_indexed_transaction(*payload) == Some(*tx),
            None => spec_indexed_transaction(*payload) is None,
        },
{
    match payload {
        Payload::Transaction(tx) => Some(tx),
        Payload::OwnerStakeDelegation(tx) => Some(tx),
        Payload::StakeDelegation(tx) => Some(tx),
        Payload::PoolRegistration(tx) => Some(tx),
        Payload::PoolManagement(tx) => Some(tx),
        _ => None,
    }
}

proof fn lemma_upsert_distinct(txs: Seq<ExplorerTransactionView>, t: ExplorerTransactionView)
    requires
        spec_distinct(txs),
    ensures
        spec_distinct(spec_upsert(txs, t)),
{
    let out = spec_upsert(txs, t);
    if spec_has_tx(txs, t.id) {
        let k = spec_tx_index(txs, t.id);
        assert forall|i: int, j: int| 0 <= i < j < out.len() implies (#[trigger] out[i]).id != (
        #[trigger] out[j]).id by {
            assert(out[i].id == txs[i].id && out[j].id == txs[j].id);
        }
    } else {
        assert forall|i: int, j: int| 0 <= i < j < out.len() implies (#[trigger] out[i]).id != (
        #[trigger] out[j]).id by {
            if j == txs.len() {
                assert(out[i] == txs[i]);
            } else {
                assert(out[i] == txs[i] && out[j] == txs[j]);
            }
        }
    }
}

/// Once a fragment has failed to project, looking at more fragments does not
/// help.
proof fn lemma_failed_stays(
    fragments: Seq<Fragment>,
    n: nat,
    m: nat,
    discrimination: Discrimination,
    transactions: Map<FragmentId, HeaderHash>,
    blocks: Map<HeaderHash, ExplorerBlock>,
)
    requires
        n <= m,
        spec_project_fragments(fragments, n, discrimination, transactions, blocks) is None,
    ensures
        spec_project_fragments(fragments, m, discrimination, transactions, blocks) is None,
    decreases m,
{
    if n < m {
        lemma_failed_stays(fragments, n, (m - 1) as nat, discrimination, transactions, blocks);
    }
}

impl ExplorerBlock {
    /// The block as the explorer keeps it: the fragments that carry a
    /// transaction, each projected against the indexes of the parent block,
    /// by fragment identifier. Where two fragments have one identifier the
    /// later one stands. Fails with `Internal` where an input refers to an
    /// output that these indexes do not hold.
    pub fn resolve_from(
        block: &Block,
        discrimination: Discrimination,
        prev_transactions: &Transactions,
        prev_blocks: &Blocks,
    ) -> (r: Result<ExplorerBlock, Error>)
        requires
            prev_transactions.wf(),
            prev_blocks.wf(),
            blocks_wf(prev_blocks@),
        ensures
            match r {
                Ok(b) => b@.wf() && spec_resolve_from(
                    *block,
                    discrimination,
                    prev_transactions@,
                    prev_blocks@,
                ) == Some(b@),
                Err(e) => e is Internal && spec_resolve_from(
                    *block,
                    discrimination,
                    prev_transactions@,
                    prev_blocks@,
                ) is None,
            },
    {
        let mut transactions: Vec<ExplorerTransaction> = Vec::new();
        let mut i: usize = 0;
        proof {
            assert(spec_views(transactions@) =~= Seq::<ExplorerTransactionView>::empty());
        }
        while i < block.contents.len()
            invariant
                i <= block.contents.len(),
                prev_transactions.wf(),
                prev_blocks.wf(),
                blocks_wf(prev_blocks@),
                spec_distinct(spec_views(transactions@)),
                spec_project_fragments(
                    block.contents@,
                    i as nat,
                    discrimination,
                    prev_transactions@,
                    prev_blocks@,
                ) == Some(spec_views(transactions@)),
            decreases block.contents.len() - i,
        {
            let fragment = &block.contents[i];
            let ghost before = spec_views(transactions@);
            match indexed_transaction(&fragment.payload) {
                Some(auth_tx) => {
                    match ExplorerTransaction::from(
                        &fragment.id,
                        auth_tx,
                        discrimination,
                        prev_transactions,
                        prev_blocks,
                    ) {
                        Ok(t) => {
                            let ghost tv = t@;
                            proof {
                                lemma_upsert_distinct(before, tv);
                            }
                            match position(&transactions, &fragment.id) {
                                Some(j) => {
                                    proof {
                                        assert(before[j as int] == transactions@[j as int]@);
                                        lemma_tx_at(before, j as int);
                                    }
                                    transactions[j] = t;
                                    proof {
                                        assert(spec_views(transactions@) =~= before.update(
                                            j as int,
                                            tv,
                                        ));
                                    }
                                },
                                None => {
                                    proof {
                                        if spec_has_tx(before, tv.id) {
                                            let k = spec_tx_index(before, tv.id);
                                            assert(before[k] == transactions@[k]@);
                                        }
                                    }
                                    transactions.push(t);
                                    proof {
                                        assert(spec_views(transactions@) =~= before.push(tv));
                                    }
                                },
                            }
                        },
                        Err(_) => {
                            proof {
                                lemma_failed_stays(
                                    block.contents@,
                                    (i + 1) as nat,
                                    block.contents@.len(),
                                    discrimination,
                                    prev_transactions@,
                                    prev_blocks@,
                                );
                            }
                            return Err(Error::Internal);
                        },
                    }
                },
                None => {},
            }
            i += 1;
        }
        Ok(
            ExplorerBlock {
                transactions,
                id: block.header.hash,
                date: block.header.date,
                chain_length: block.header.chain_length,
                parent_hash: block.header.parent_hash,
            },
        )
    }

    pub fn id(&self) -> (r: HeaderHash)
        ensures
            r == self.id,
    {
        self.id
    }

    pub fn date(&self) -> (r: BlockDate)
        ensures
            r == self.date,
    {
        self.date
    }

    pub fn chain_length(&self) -> (r: ChainLength)
        ensures
            r == self.chain_length,
    {
        self.chain_length
    }
}


// ---------------------------------------------------------------------
// What holds of every projection
// ---------------------------------------------------------------------
/// The inputs of a transaction that takes from accounts only, each with an
/// account witness, are all indexed, in their order: each with the address
/// of its account on the chain and with its own value. This holds against
/// any indexes, those of a genesis block among them.
pub proof fn lemma_account_inputs_are_kept(
    inputs: Seq<Input>,
    witnesses: Seq<Witness>,
    n: nat,
    discrimination: Discrimination,
    transactions: Map<FragmentId, HeaderHash>,
    blocks: Map<HeaderHash, ExplorerBlock>,
)
    requires
        n <= inputs.len(),
        n <= witnesses.len(),
        forall|i: int| 0 <= i < n ==> (#[trigger] inputs[i]) is Account,
        forall|i: int| 0 <= i < n ==> (#[trigger] witnesses[i]) is Account,
    ensures
        spec_project_inputs(inputs, witnesses, n, discrimination, transactions, blocks) == Some(
            Seq::new(
                n,
                |i: int|
                    ExplorerInput {
                        address: spec_account_address(discrimination, inputs[i]->Account_0),
                        value: inputs[i]->Account_1,
                    },
            ),
        ),
    decreases n,
{
    if n > 0 {
        lemma_account_inputs_are_kept(
            inputs,
            witnesses,
            (n - 1) as nat,
            discrimination,
            transactions,
            blocks,
        );
        let before = Seq::new(
            (n - 1) as nat,
            |i: int|
                ExplorerInput {
                    address: spec_account_address(discrimination, inputs[i]->Account_0),
                    value: inputs[i]->Account_1,
                },
        );
        let all = Seq::new(
            n,
            |i: int|
                ExplorerInput {
                    address: spec_account_address(discrimination, inputs[i]->Account_0),
                    value: inputs[i]->Account_1,
                },
        );
        assert(inputs[n - 1] is Account);
        assert(witnesses[n - 1] is Account);
        assert(before.push(all[n - 1]) =~= all);
    } else {
        assert(Seq::<ExplorerInput>::empty() =~= Seq::new(
            n,
            |i: int|
                ExplorerInput {
                    address: spec_account_address(discrimination, inputs[i]->Account_0),
                    value: inputs[i]->Account_1,
                },
        ));
    }
}

/// The outputs of a transaction are kept as they are, each at its place.
pub proof fn lemma_outputs_are_kept(outputs: Seq<Output>, i: int)
    requires
        0 <= i < outputs.len(),
    ensures
        spec_project_outputs(outputs).len() == outputs.len(),
        spec_project_outputs(outputs)[i].address == outputs[i].address,
        spec_project_outputs(outputs)[i].value == outputs[i].value,
{
}

/// An input that refers to the output at a place of a transaction that the
/// indexes hold resolves to exactly that output of that transaction in the
/// block that the index of transactions names, whatever its witness is and
/// whatever value the reference declares.
pub proof fn lemma_utxo_input_resolves_to_its_output(
    pointer: UtxoPointer,
    witness: Witness,
    discrimination: Discrimination,
    transactions: Map<FragmentId, HeaderHash>,
    blocks: Map<HeaderHash, ExplorerBlock>,
)
    requires
        transactions.contains_key(pointer.transaction_id),
        blocks.contains_key(transactions[pointer.transaction_id]),
        blocks[transactions[pointer.transaction_id]]@.has_tx(pointer.transaction_id),
        (pointer.output_index as int) < blocks[transactions[pointer.transaction_id]]@.tx(
            pointer.transaction_id,
        ).outputs.len(),
    ensures
        spec_project_input(Input::Utxo(pointer), witness, discrimination, transactions, blocks)
            == InputProjection::Indexed(
            ExplorerInput {
                address: blocks[transactions[pointer.transaction_id]]@.tx(
                    pointer.transaction_id,
                ).outputs[pointer.output_index as int].address,
                value: blocks[transactions[pointer.transaction_id]]@.tx(
                    pointer.transaction_id,
                ).outputs[pointer.output_index as int].value,
            },
        ),
{
}

} // verus!
