//! The explorer: for every block of every branch a snapshot of five
//! indexes, derived from the snapshot of its parent, and queries against
//! the snapshot of the tip of the longest branch.

pub mod error;
pub mod indexing;
pub mod set;
pub mod state;

use self::error::{Error, ErrorView};
use self::indexing::{
    Addresses, Blocks, ChainLengths, EpochData, Epochs, ExplorerBlock, ExplorerBlockView,
    ExplorerTransaction, ExplorerTransactionView, Transactions,
};
use self::indexing::spec_resolve_from;
use self::set::HamtSet;
use self::state::{spec_derive_error, State};
use crate::address::{Address, Discrimination};
use crate::blockcfg::{
    block_0_get_initial, spec_block_0_initial, Block, ChainLength, ConfigParam, ConfigParams,
    ConsensusVersion, Epoch, FragmentId, Header, HeaderHash,
};
use crate::intercom::ExplorerMsg;
use crate::multiverse::{GCRoot, Multiverse};
use crate::utils::task::Input;
use vstd::prelude::*;

verus! {

// ---------------------------------------------------------------------
// The five indexes, one block further
// ---------------------------------------------------------------------
/// One of the first `n` transactions has this identifier.
pub open spec fn spec_among(txs: Seq<ExplorerTransactionView>, n: int, id: FragmentId) -> bool {
    exists|i: int| 0 <= i < n && i < txs.len() && (#[trigger] txs[i]).id == id
}

/// The index of transactions with the first `n` transactions of a block
/// added: each is bound to the block.
pub open spec fn spec_with_transactions(
    transactions: Map<FragmentId, HeaderHash>,
    txs: Seq<ExplorerTransactionView>,
    n: int,
    block_id: HeaderHash,
) -> Map<FragmentId, HeaderHash> {
    Map::new(
        |id: FragmentId| transactions.contains_key(id) || spec_among(txs, n, id),
        |id: FragmentId|
            if spec_among(txs, n, id) {
                block_id
            } else {
                transactions[id]
            },
    )
}

/// The place of the first transaction of the block that the index holds
/// already, or the number of transactions if it holds none.
pub open spec fn spec_first_known(
    transactions: Map<FragmentId, HeaderHash>,
    txs: Seq<ExplorerTransactionView>,
) -> int
    decreases txs.len(),
{
    if txs.len() == 0 {
        0
    } else if transactions.contains_key(txs[0].id) {
        0
    } else {
        1 + spec_first_known(transactions, txs.subrange(1, txs.len() as int))
    }
}

/// `spec_first_known` is the least place of a known transaction.
pub proof fn lemma_first_known(
    transactions: Map<FragmentId, HeaderHash>,
    txs: Seq<ExplorerTransactionView>,
)
    ensures
        0 <= spec_first_known(transactions, txs) <= txs.len(),
        forall|j: int|
            0 <= j < spec_first_known(transactions, txs) ==> !transactions.contains_key(
                (#[trigger] txs[j]).id,
            ),
        spec_first_known(transactions, txs) < txs.len() ==> transactions.contains_key(
            txs[spec_first_known(transactions, txs)].id,
        ),
    decreases txs.len(),
{
    if txs.len() > 0 && !transactions.contains_key(txs[0].id) {
        let rest = txs.subrange(1, txs.len() as int);
        lemma_first_known(transactions, rest);
        assert forall|j: int| 0 <= j < spec_first_known(transactions, txs) implies
            !transactions.contains_key((#[trigger] txs[j]).id) by {
            if j > 0 {
                assert(txs[j] == rest[j - 1]);
            }
        }
        if spec_first_known(transactions, txs) < txs.len() {
            assert(txs[spec_first_known(transactions, txs)] == rest[spec_first_known(
                transactions,
                rest,
            )]);
        }
    }
}

/// The index of transactions with those of the block added. Fails with
/// `TransactionAlreadyExists` on the first transaction of the block that the
/// index holds already.
pub fn apply_block_to_transactions(transactions: Transactions, block: &ExplorerBlock) -> (r: Result<
    Transactions,
    Error,
>)
    requires
        transactions.wf(),
        block@.wf(),
    ensures
        match r {
            Ok(t) => {
                &&& t.wf()
                &&& spec_first_known(transactions@, block@.transactions) == block@.transactions.len()
                &&& t@ == spec_with_transactions(
                    transactions@,
                    block@.transactions,
                    block@.transactions.len() as int,
                    block.id,
                )
            },
            Err(e) => {
                &&& spec_first_known(transactions@, block@.transactions) < block@.transactions.len()
                &&& e == Error::TransactionAlreadyExists(
                    block@.transactions[spec_first_known(transactions@, block@.transactions)].id,
                )
            },
        },
{
    let ghost base = transactions@;
    let ghost txs = block@.transactions;
    let block_id = block.id();
    let mut index = transactions;
    let mut i: usize = 0;
    proof {
        lemma_first_known(base, txs);
        assert(index@ =~= spec_with_transactions(base, txs, 0, block_id));
    }
    while i < block.transactions.len()
        invariant
            i <= block.transactions.len(),
            base == transactions@,
            txs == block@.transactions,
            block@.wf(),
            block_id == block.id,
            index.wf(),
            index@ == spec_with_transactions(base, txs, i as int, block_id),
            forall|j: int| 0 <= j < i ==> !base.contains_key((#[trigger] txs[j]).id),
            0 <= spec_first_known(base, txs) <= txs.len(),
            forall|j: int|
                0 <= j < spec_first_known(base, txs) ==> !base.contains_key((#[trigger] txs[j]).id),
            spec_first_known(base, txs) < txs.len() ==> base.contains_key(
                txs[spec_first_known(base, txs)].id,
            ),
        decreases block.transactions.len() - i,
    {
        let id = block.transactions[i].id();
        assert(txs[i as int] == block.transactions@[i as int]@);
        proof {
            if spec_among(txs, i as int, id) {
                let j = choose|j: int| 0 <= j < i && j < txs.len() && (#[trigger] txs[j]).id == id;
                assert(txs[j].id != txs[i as int].id);
            }
        }
        match index.insert(id, block_id) {
            Ok(t) => {
                proof {
                    assert(!base.contains_key(txs[i as int].id));
                    assert forall|k: FragmentId| spec_among(txs, i + 1, k) <==> (spec_among(
                        txs,
                        i as int,
                        k,
                    ) || k == id) by {
                        if spec_among(txs, i + 1, k) {
                            let j = choose|j: int|
                                0 <= j < i + 1 && j < txs.len() && (#[trigger] txs[j]).id == k;
                            if j < i {
                                assert(spec_among(txs, i as int, k));
                            }
                        }
                        if spec_among(txs, i as int, k) {
                            let j = choose|j: int|
                                0 <= j < i && j < txs.len() && (#[trigger] txs[j]).id == k;
                            assert(0 <= j < i + 1 && txs[j].id == k);
                        }
                        if k == id {
                            assert(txs[i as int].id == k);
                        }
                    }
                    assert(t@ =~= spec_with_transactions(base, txs, i + 1, block_id));
                }
                index = t;
            },
            Err(_) => {
                proof {
                    assert(base.contains_key(id));
                    let f = spec_first_known(base, txs);
                    if f < i {
                        assert(!base.contains_key(txs[f].id));
                    }
                    if f > i {
                        assert(!base.contains_key(txs[i as int].id));
                    }
                }
                return Err(Error::TransactionAlreadyExists(id));
            },
        }
        i += 1;
    }
    proof {
        let f = spec_first_known(base, txs);
        if f < txs.len() {
            assert(!base.contains_key(txs[f].id));
        }
    }
    Ok(index)
}

/// The index of blocks with the block added under its identifier. Fails with
/// `BlockAlreadyExists` if the index holds a block of that identifier.
pub fn apply_block_to_blocks(blocks: Blocks, block: &ExplorerBlock) -> (r: Result<Blocks, Error>)
    requires
        blocks.wf(),
    ensures
        match r {
            Ok(b) => {
                &&& !blocks@.contains_key(block.id)
                &&& b.wf()
                &&& b@.dom() == blocks@.dom().insert(block.id)
                &&& b@[block.id]@ == block@
                &&& forall|id: HeaderHash| #[trigger]
                    blocks@.contains_key(id) ==> b@[id] == blocks@[id]
            },
            Err(e) => blocks@.contains_key(block.id) && e == Error::BlockAlreadyExists(block.id),
        },
{
    let block_id = block.id();
    match blocks.insert(block_id, block.clone()) {
        Ok(b) => Ok(b),
        Err(_) => Err(Error::BlockAlreadyExists(block_id)),
    }
}

/// What an epoch is known by once the block `id` has been added to it.
pub open spec fn spec_epoch_after(before: Option<EpochData>, id: HeaderHash) -> EpochData {
    match before {
        None => EpochData { first_block: id, last_block: id, total_blocks: 0 },
        Some(data) => EpochData {
            first_block: data.first_block,
            last_block: id,
            total_blocks: (data.total_blocks + 1) as u32,
        },
    }
}

/// The index of epochs with the block added to its epoch: a new epoch starts
/// with the block as its first and last and a count of 0; a known one gets
/// the block as its last and its count raised by one.
pub fn apply_block_to_epochs(epochs: Epochs, block: &ExplorerBlock) -> (r: Result<Epochs, Error>)
    requires
        epochs.wf(),
        epochs@.contains_key(block.date.epoch) ==> epochs@[block.date.epoch].total_blocks
            < u32::MAX,
    ensures
        match r {
            Ok(e) => e.wf() && e@ == epochs@.insert(
                block.date.epoch,
                spec_epoch_after(epochs@.get(block.date.epoch), block.id),
            ),
            Err(_) => false,
        },
{
    let epoch_id = block.date().epoch;
    let block_id = block.id();
    let ghost before = epochs@;
    let next = epochs.insert_or_update(
        epoch_id,
        EpochData { first_block: block_id, last_block: block_id, total_blocks: 0 },
        |data: &EpochData| -> (out: Option<EpochData>)
            requires
                data.total_blocks != u32::MAX,
            ensures
                out == Some(spec_epoch_after(Some(*data), block_id))
            {
                Some(
                    EpochData {
                        first_block: data.first_block,
                        last_block: block_id,
                        total_blocks: data.total_blocks + 1,
                    },
                )
            },
    );
    Ok(next)
}

/// The index of chain lengths with the block added at its height. Fails with
/// `ChainLengthBlockAlreadyExists` if the index has a block at that height.
pub fn apply_block_to_chain_lengths(chain_lengths: ChainLengths, block: &ExplorerBlock) -> (r:
    Result<ChainLengths, Error>)
    requires
        chain_lengths.wf(),
    ensures
        match r {
            Ok(c) => {
                &&& !chain_lengths@.contains_key(block.chain_length)
                &&& c.wf()
                &&& c@ == chain_lengths@.insert(block.chain_length, block.id)
            },
            Err(e) => {
                &&& chain_lengths@.contains_key(block.chain_length)
                &&& e == Error::ChainLengthBlockAlreadyExists(block.chain_length.0)
            },
        },
{
    let new_block_chain_length = block.chain_length();
    let new_block_hash = block.id();
    match chain_lengths.insert(new_block_chain_length, new_block_hash) {
        Ok(c) => Ok(c),
        Err(_) => Err(Error::ChainLengthBlockAlreadyExists(new_block_chain_length.as_u32())),
    }
}


// ---------------------------------------------------------------------
// The index of addresses
// ---------------------------------------------------------------------
/// Every set of the index is well formed.
pub open spec fn sets_wf(addresses: Map<Address, HamtSet<FragmentId>>) -> bool {
    forall|a: Address| #[trigger] addresses.contains_key(a) ==> addresses[a].wf()
}

/// The transactions that the index knows of an address: none where it does
/// not know the address.
pub open spec fn spec_known(addresses: Map<Address, HamtSet<FragmentId>>, a: Address) -> Set<
    FragmentId,
> {
    if addresses.contains_key(a) {
        addresses[a]@
    } else {
        Set::empty()
    }
}

/// One of the first `n` transactions names the address.
pub open spec fn spec_touched(txs: Seq<ExplorerTransactionView>, n: int, a: Address) -> bool {
    exists|i: int| 0 <= i < n && i < txs.len() && (#[trigger] txs[i]).touches(a)
}

/// The identifiers of those of the first `n` transactions that name the
/// address.
pub open spec fn spec_naming(txs: Seq<ExplorerTransactionView>, n: int, a: Address) -> Set<
    FragmentId,
> {
    Set::new(
        |id: FragmentId|
            exists|i: int|
                0 <= i < n && i < txs.len() && (#[trigger] txs[i]).id == id && txs[i].touches(a),
    )
}

/// One of the first `n` outputs goes to the address.
spec fn out_named(t: ExplorerTransactionView, n: int, a: Address) -> bool {
    exists|i: int| 0 <= i < n && i < t.outputs.len() && (#[trigger] t.outputs[i]).address == a
}

/// One of the first `n` inputs comes from the address.
spec fn in_named(t: ExplorerTransactionView, n: int, a: Address) -> bool {
    exists|i: int| 0 <= i < n && i < t.inputs.len() && (#[trigger] t.inputs[i]).address == a
}

/// The index with `id` added to the transactions of `address`.
fn add_address(addresses: Addresses, address: Address, id: FragmentId) -> (r: Addresses)
    requires
        addresses.wf(),
        sets_wf(addresses@),
    ensures
        r.wf(),
        sets_wf(r@),
        r@.dom() == addresses@.dom().insert(address),
        r@[address]@ == spec_known(addresses@, address).insert(id),
        forall|a: Address| a != address && #[trigger] addresses@.contains_key(a) ==> r@[a] == addresses@[a],
{
    let r = addresses.insert_or_update(
        address,
        HamtSet::new().add_element(id),
        |set: &HamtSet<FragmentId>| -> (out: Option<HamtSet<FragmentId>>)
            requires
                set.wf(),
            ensures
                out matches Some(n) && n.wf() && n@ == set@.insert(id)
            {
                let new_set = set.add_element(id);
                Some(new_set)
            },
    );
    proof {
        assert(Set::<FragmentId>::empty().insert(id) =~= spec_known(addresses@, address).insert(id)
            || addresses@.contains_key(address));
        assert(r@.dom() =~= addresses@.dom().insert(address));
    }
    r
}

/// The index with the transaction added to each address that it names.
fn add_transaction(addresses: Addresses, tx: &ExplorerTransaction) -> (r: Addresses)
    requires
        addresses.wf(),
        sets_wf(addresses@),
    ensures
        r.wf(),
        sets_wf(r@),
        forall|a: Address|
            #[trigger] r@.contains_key(a) <==> addresses@.contains_key(a) || tx@.touches(a),
        forall|a: Address| #[trigger]
            r@.contains_key(a) ==> spec_known(r@, a) == if tx@.touches(a) {
                spec_known(addresses@, a).insert(tx@.id)
            } else {
                spec_known(addresses@, a)
            },
{
    let id = tx.id();
    let ghost base = addresses@;
    let ghost t = tx@;
    let mut index = addresses;
    let mut o: usize = 0;
    while o < tx.outputs().len()
        invariant
            o <= t.outputs.len(),
            t == tx@,
            id == t.id,
            base == addresses@,
            index.wf(),
            sets_wf(index@),
            forall|a: Address|
                #[trigger] index@.contains_key(a) <==> base.contains_key(a) || out_named(
                    t,
                    o as int,
                    a,
                ),
            forall|a: Address| #[trigger]
                index@.contains_key(a) ==> spec_known(index@, a) == if out_named(t, o as int, a) {
                    spec_known(base, a).insert(id)
                } else {
                    spec_known(base, a)
                },
        decreases t.outputs.len() - o,
    {
        let address = tx.outputs()[o].address;
        let ghost before = index@;
        index = add_address(index, address, id);
        proof {
            assert(t.outputs[o as int].address == address);
            assert forall|a: Address| out_named(t, o + 1, a) <==> (out_named(t, o as int, a) || a
                == address) by {
                if out_named(t, o + 1, a) {
                    let i = choose|i: int|
                        0 <= i < o + 1 && i < t.outputs.len() && (#[trigger] t.outputs[i]).address
                            == a;
                    if i < o {
                        assert(out_named(t, o as int, a));
                    }
                }
                if out_named(t, o as int, a) {
                    let i = choose|i: int|
                        0 <= i < o && i < t.outputs.len() && (#[trigger] t.outputs[i]).address == a;
                    assert(0 <= i < o + 1 && t.outputs[i].address == a);
                }
            }
            assert forall|a: Address| #[trigger] index@.contains_key(a) implies spec_known(
                index@,
                a,
            ) == if out_named(t, o + 1, a) {
                spec_known(base, a).insert(id)
            } else {
                spec_known(base, a)
            } by {
                if a == address {
                    assert(spec_known(before, a).insert(id) =~= spec_known(base, a).insert(id));
                } else {
                    assert(before.contains_key(a));
                }
            }
        }
        o += 1;
    }
    let ghost mid = index@;
    let mut i: usize = 0;
    while i < tx.inputs().len()
        invariant
            i <= t.inputs.len(),
            t == tx@,
            id == t.id,
            base == addresses@,
            index.wf(),
            sets_wf(index@),
            forall|a: Address|
                #[trigger] index@.contains_key(a) <==> base.contains_key(a) || out_named(
                    t,
                    t.outputs.len() as int,
                    a,
                ) || in_named(t, i as int, a),
            forall|a: Address| #[trigger]
                index@.contains_key(a) ==> spec_known(index@, a) == if out_named(
                    t,
                    t.outputs.len() as int,
                    a,
                ) || in_named(t, i as int, a) {
                    spec_known(base, a).insert(id)
                } else {
                    spec_known(base, a)
                },
        decreases t.inputs.len() - i,
    {
        let address = tx.inputs()[i].address;
        let ghost before = index@;
        index = add_address(index, address, id);
        proof {
            assert(t.inputs[i as int].address == address);
            assert forall|a: Address| in_named(t, i + 1, a) <==> (in_named(t, i as int, a) || a
                == address) by {
                if in_named(t, i + 1, a) {
                    let j = choose|j: int|
                        0 <= j < i + 1 && j < t.inputs.len() && (#[trigger] t.inputs[j]).address
                            == a;
                    if j < i {
                        assert(in_named(t, i as int, a));
                    }
                }
                if in_named(t, i as int, a) {
                    let j = choose|j: int|
                        0 <= j < i && j < t.inputs.len() && (#[trigger] t.inputs[j]).address == a;
                    assert(0 <= j < i + 1 && t.inputs[j].address == a);
                }
            }
            assert forall|a: Address| #[trigger] index@.contains_key(a) implies spec_known(
                index@,
                a,
            ) == if out_named(t, t.outputs.len() as int, a) || in_named(t, i + 1, a) {
                spec_known(base, a).insert(id)
            } else {
                spec_known(base, a)
            } by {
                if a == address {
                    assert(spec_known(before, a).insert(id) =~= spec_known(base, a).insert(id));
                } else {
                    assert(before.contains_key(a));
                }
            }
        }
        i += 1;
    }
    proof {
        assert forall|a: Address| t.touches(a) <==> (out_named(t, t.outputs.len() as int, a)
            || in_named(t, t.inputs.len() as int, a)) by {
            if out_named(t, t.outputs.len() as int, a) {
                let j = choose|j: int|
                    0 <= j < t.outputs.len() && j < t.outputs.len() && (
                    #[trigger] t.outputs[j]).address == a;
                assert(0 <= j < t.outputs.len() && t.outputs[j].address == a);
            }
            if in_named(t, t.inputs.len() as int, a) {
                let j = choose|j: int|
                    0 <= j < t.inputs.len() && j < t.inputs.len() && (
                    #[trigger] t.inputs[j]).address == a;
                assert(0 <= j < t.inputs.len() && t.inputs[j].address == a);
            }
        }
    }
    index
}


/// The index of addresses with the transactions of the block added: each
/// one to every address that one of its outputs or of its resolved inputs
/// names. An address that the index did not know starts with the
/// transactions of this block alone.
pub fn apply_block_to_addresses(addresses: Addresses, block: &ExplorerBlock) -> (r: Result<
    Addresses,
    Error,
>)
    requires
        addresses.wf(),
        sets_wf(addresses@),
    ensures
        match r {
            Ok(n) => {
                &&& n.wf()
                &&& sets_wf(n@)
                &&& forall|a: Address|
                    #[trigger] n@.contains_key(a) <==> addresses@.contains_key(a) || spec_touched(
                        block@.transactions,
                        block@.transactions.len() as int,
                        a,
                    )
                &&& forall|a: Address| #[trigger]
                    n@.contains_key(a) ==> n@[a]@ == spec_known(addresses@, a).union(
                        spec_naming(block@.transactions, block@.transactions.len() as int, a),
                    )
            },
            Err(_) => false,
        },
{
    let ghost base = addresses@;
    let ghost txs = block@.transactions;
    let mut index = addresses;
    let mut i: usize = 0;
    proof {
        assert forall|a: Address| #[trigger] index@.contains_key(a) implies spec_known(index@, a)
            == spec_known(base, a).union(spec_naming(txs, 0, a)) by {
            assert(spec_known(base, a).union(spec_naming(txs, 0, a)) =~= spec_known(base, a));
        }
    }
    while i < block.transactions.len()
        invariant
            i <= block.transactions.len(),
            txs == block@.transactions,
            base == addresses@,
            index.wf(),
            sets_wf(index@),
            forall|a: Address|
                #[trigger] index@.contains_key(a) <==> base.contains_key(a) || spec_touched(
                    txs,
                    i as int,
                    a,
                ),
            forall|a: Address| #[trigger]
                index@.contains_key(a) ==> spec_known(index@, a) == spec_known(base, a).union(
                    spec_naming(txs, i as int, a),
                ),
        decreases block.transactions.len() - i,
    {
        let tx = &block.transactions[i];
        let ghost before = index@;
        let ghost t = tx@;
        assert(txs[i as int] == t);
        index = add_transaction(index, tx);
        proof {
            assert forall|a: Address| spec_touched(txs, i + 1, a) <==> (spec_touched(
                txs,
                i as int,
                a,
            ) || t.touches(a)) by {
                if spec_touched(txs, i + 1, a) {
                    let j = choose|j: int|
                        0 <= j < i + 1 && j < txs.len() && (#[trigger] txs[j]).touches(a);
                    if j < i {
                        assert(spec_touched(txs, i as int, a));
                    }
                }
                if spec_touched(txs, i as int, a) {
                    let j = choose|j: int|
                        0 <= j < i && j < txs.len() && (#[trigger] txs[j]).touches(a);
                    assert(0 <= j < i + 1 && txs[j].touches(a));
                }
                if t.touches(a) {
                    assert(txs[i as int].touches(a));
                }
            }
            assert forall|a: Address| #[trigger] index@.contains_key(a) implies spec_known(
                index@,
                a,
            ) == spec_known(base, a).union(spec_naming(txs, i + 1, a)) by {
                let grown = spec_naming(txs, i + 1, a);
                let small = spec_naming(txs, i as int, a);
                assert forall|id: FragmentId| grown.contains(id) <==> (small.contains(id) || (
                t.touches(a) && id == t.id)) by {
                    if grown.contains(id) {
                        let j = choose|j: int|
                            0 <= j < i + 1 && j < txs.len() && (#[trigger] txs[j]).id == id
                                && txs[j].touches(a);
                        if j < i {
                            assert(small.contains(id));
                        }
                    }
                    if small.contains(id) {
                        let j = choose|j: int|
                            0 <= j < i && j < txs.len() && (#[trigger] txs[j]).id == id
                                && txs[j].touches(a);
                        assert(0 <= j < i + 1 && txs[j].id == id && txs[j].touches(a));
                    }
                    if t.touches(a) && id == t.id {
                        assert(txs[i as int].id == id && txs[i as int].touches(a));
                    }
                }
                if before.contains_key(a) {
                    assert(spec_known(before, a) == spec_known(base, a).union(small));
                } else {
                    assert(!base.contains_key(a));
                    assert(!spec_touched(txs, i as int, a));
                    assert(small =~= Set::<FragmentId>::empty()) by {
                        assert forall|id: FragmentId| !small.contains(id) by {
                            if small.contains(id) {
                                let j = choose|j: int|
                                    0 <= j < i && j < txs.len() && (#[trigger] txs[j]).id == id
                                        && txs[j].touches(a);
                                assert(txs[j].touches(a));
                            }
                        }
                    }
                    assert(spec_known(before, a) =~= spec_known(base, a).union(small));
                }
                if t.touches(a) {
                    assert(spec_known(before, a).insert(t.id) =~= spec_known(base, a).union(grown));
                } else {
                    assert(spec_known(before, a) =~= spec_known(base, a).union(grown));
                }
            }
        }
        i += 1;
    }
    Ok(index)
}


// ---------------------------------------------------------------------
// The settings of the chain
// ---------------------------------------------------------------------
/// What the explorer takes from the settings of the genesis block.
#[derive(Clone, Copy, Debug, PartialEq, Eq)]
pub struct BlockchainConfig {
    pub discrimination: Discrimination,
    pub consensus_version: ConsensusVersion,
}

/// The first discrimination among the settings.
pub open spec fn spec_discrimination(params: Seq<ConfigParam>) -> Option<Discrimination>
    decreases params.len(),
{
    if params.len() == 0 {
        None
    } else {
        match params[0] {
            ConfigParam::Discrimination(d) => Some(d),
            _ => spec_discrimination(params.drop_first()),
        }
    }
}

/// The first consensus version among the settings.
pub open spec fn spec_consensus_version(params: Seq<ConfigParam>) -> Option<ConsensusVersion>
    decreases params.len(),
{
    if params.len() == 0 {
        None
    } else {
        match params[0] {
            ConfigParam::ConsensusVersion(v) => Some(v),
            _ => spec_consensus_version(params.drop_first()),
        }
    }
}

/// The text of the failure to find a discrimination among the settings.
pub open spec fn spec_no_discrimination() -> Seq<char> {
    "the discrimination to be present"@
}

/// The text of the failure to find a consensus version among the settings.
pub open spec fn spec_no_consensus_version() -> Seq<char> {
    "consensus version to be present"@
}

/// What the explorer makes of the settings of a genesis block, or the text
/// of why it cannot.
pub open spec fn spec_config(params: Seq<ConfigParam>) -> Result<BlockchainConfig, Seq<char>> {
    match spec_discrimination(params) {
        None => Err(spec_no_discrimination()),
        Some(discrimination) => match spec_consensus_version(params) {
            None => Err(spec_no_consensus_version()),
            Some(consensus_version) => Ok(BlockchainConfig { discrimination, consensus_version }),
        },
    }
}

impl BlockchainConfig {
    /// The discrimination and the consensus version of a chain: the first of
    /// each among the settings of its genesis block. Fails with
    /// `BootstrapError` where one of them is missing.
    pub fn from_config_params(params: &ConfigParams) -> (r: Result<BlockchainConfig, Error>)
        ensures
            match r {
                Ok(c) => spec_config(params@) == Ok::<BlockchainConfig, Seq<char>>(c),
                Err(e) => spec_config(params@) is Err && e@ == ErrorView::BootstrapError(
                    spec_config(params@)->Err_0,
                ),
            },
    {
        let mut discrimination: Option<Discrimination> = None;
        let mut i: usize = 0;
        proof {
            assert(params@.skip(0) =~= params@);
        }
        while i < params.len() && discrimination.is_none()
            invariant
                i <= params.len(),
                match discrimination {
                    Some(d) => spec_discrimination(params@) == Some(d),
                    None => spec_discrimination(params@) == spec_discrimination(
                        params@.skip(i as int),
                    ),
                },
            decreases params.len() - i,
        {
            proof {
                assert(params@.skip(i as int).drop_first() =~= params@.skip(i + 1));
                assert(params@.skip(i as int)[0] == params@[i as int]);
            }
            match &params[i] {
                ConfigParam::Discrimination(d) => {
                    discrimination = Some(*d);
                },
                _ => {},
            }
            i += 1;
        }
        let mut consensus_version: Option<ConsensusVersion> = None;
        let mut j: usize = 0;
        proof {
            assert(params@.skip(0) =~= params@);
        }
        while j < params.len() && consensus_version.is_none()
            invariant
                j <= params.len(),
                match consensus_version {
                    Some(v) => spec_consensus_version(params@) == Some(v),
                    None => spec_consensus_version(params@) == spec_consensus_version(
                        params@.skip(j as int),
                    ),
                },
            decreases params.len() - j,
        {
            proof {
                assert(params@.skip(j as int).drop_first() =~= params@.skip(j + 1));
                assert(params@.skip(j as int)[0] == params@[j as int]);
            }
            match &params[j] {
                ConfigParam::ConsensusVersion(v) => {
                    consensus_version = Some(*v);
                },
                _ => {},
            }
            j += 1;
        }
        match discrimination {
            None => Err(Error::BootstrapError("the discrimination to be present".to_owned())),
            Some(discrimination) => match consensus_version {
                None => Err(Error::BootstrapError("consensus version to be present".to_owned())),
                Some(consensus_version) => Ok(BlockchainConfig { discrimination, consensus_version }),
            },
        }
    }
}

// ---------------------------------------------------------------------
// The explorer
// ---------------------------------------------------------------------
/// The snapshots of all the branches that the explorer has indexed, and the
/// tip of the longest of them, which queries are answered from.
pub struct ExplorerDB {
    multiverse: Multiverse<State>,
    longest_chain_tip: Header,
    blockchain_config: BlockchainConfig,
}

/// Why a block cannot be indexed, if it cannot: its parent is looked for
/// first, then its inputs are resolved against the snapshot of the parent,
/// then it is held against the branch of the parent.
pub open spec fn spec_apply_error(db: ExplorerDB, block: Block) -> Option<Error> {
    if !db.snapshots().contains_key(block.header.parent_hash) {
        Some(Error::AncestorNotFound(block.header.hash))
    } else {
        let parent = db.snapshots()[block.header.parent_hash];
        match spec_resolve_from(
            block,
            db.config().discrimination,
            parent.transactions(),
            parent.blocks(),
        ) {
            None => Some(Error::Internal),
            Some(b) => spec_derive_error(
                parent.transactions(),
                parent.blocks(),
                parent.chain_lengths(),
                b,
            ),
        }
    }
}

/// The tip once a block has been indexed: the block if its chain length is
/// greater than that of the tip, and else the tip as it was.
pub open spec fn spec_tip_after(tip: Header, block: Header) -> Header {
    if block.chain_length.0 > tip.chain_length.0 {
        block
    } else {
        tip
    }
}

/// `after` is `before` with the block indexed: the snapshot of the block is
/// that of the branch of its parent with the block at the end, it is kept
/// under the identifier of the block unless a snapshot was kept there
/// already, and the tip has moved to the block if the block is further from
/// the genesis block than the tip was.
pub open spec fn applied(before: ExplorerDB, block: Block, after: ExplorerDB) -> bool {
    let parent = before.snapshots()[block.header.parent_hash];
    let projected = spec_resolve_from(
        block,
        before.config().discrimination,
        parent.transactions(),
        parent.blocks(),
    );
    &&& spec_apply_error(before, block) is None
    &&& after.wf()
    &&& after.config() == before.config()
    &&& after.tip() == spec_tip_after(before.tip(), block.header)
    &&& exists|next: State|
        {
            &&& next.inv()
            &&& next.branch() == parent.branch().push(projected->0)
            &&& after.snapshots() == if before.snapshots().contains_key(block.header.hash) {
                before.snapshots()
            } else {
                before.snapshots().insert(block.header.hash, next)
            }
        }
}

impl Clone for ExplorerDB {
    /// A second handle on the same snapshots, with the same tip.
    fn clone(&self) -> (r: Self)
        ensures
            r == *self,
    {
        ExplorerDB {
            multiverse: self.multiverse.clone(),
            longest_chain_tip: self.longest_chain_tip,
            blockchain_config: self.blockchain_config,
        }
    }
}

impl ExplorerDB {
    /// The snapshots that the explorer keeps, by block.
    pub closed spec fn snapshots(&self) -> Map<HeaderHash, State> {
        self.multiverse@
    }

    /// The tip of the longest branch.
    pub closed spec fn tip(&self) -> Header {
        self.longest_chain_tip
    }

    /// The settings of the chain.
    pub closed spec fn config(&self) -> BlockchainConfig {
        self.blockchain_config
    }

    pub closed spec fn multiverse_wf(&self) -> bool {
        self.multiverse.wf()
    }

    /// Every snapshot is that of a branch which ends in the block it is kept
    /// under, and the snapshot of the tip is among them.
    pub open spec fn wf(&self) -> bool {
        &&& self.multiverse_wf()
        &&& self.snapshots().contains_key(self.tip().hash)
        &&& forall|id: HeaderHash| #[trigger]
            self.snapshots().contains_key(id) ==> self.snapshots()[id].inv()
                && self.snapshots()[id].branch().last().id == id
    }

    /// The snapshot that queries are answered from.
    pub open spec fn tip_state(&self) -> State {
        self.snapshots()[self.tip().hash]
    }

    fn apply(&mut self, block: &Block) -> (r: Result<GCRoot, Error>)
        requires
            old(self).wf(),
        ensures
            match r {
                Ok(root) => applied(*old(self), *block, *final(self)) && root.spec_hash()
                    == block.header.hash,
                Err(e) => spec_apply_error(*old(self), *block) == Some(e) && *final(self) == *old(
                    self,
                ),
            },
    {
        let previous_block = block.header.block_parent_hash();
        let chain_length = block.header.chain_length();
        let block_id = block.header.hash();
        let ghost before = *self;
        let parent = match self.multiverse.get(&previous_block) {
            Some(state) => state.clone(),
            None => {
                return Err(Error::AncestorNotFound(block_id));
            },
        };
        assert(parent.inv());
        let explorer_block = match parent.project(block, self.blockchain_config.discrimination) {
            Ok(b) => b,
            Err(e) => {
                return Err(e);
            },
        };
        let next = match parent.derive(&explorer_block) {
            Ok(s) => s,
            Err(e) => {
                return Err(e);
            },
        };
        let ghost kept = next;
        let root = self.multiverse.insert(chain_length, block_id, next);
        self.update_longest_chain_tip(&block.header);
        proof {
            assert(kept.branch().last() == explorer_block@);
            assert forall|id: HeaderHash| #[trigger] self.snapshots().contains_key(id) implies
                self.snapshots()[id].inv() && self.snapshots()[id].branch().last().id == id by {
                if before.snapshots().contains_key(id) {
                    assert(self.snapshots()[id] == before.snapshots()[id]);
                }
            }
            assert(self.snapshots().contains_key(self.tip().hash));
        }
        Ok(root)
    }

    /// Moves the tip to the block if the block is further from the genesis
    /// block than the tip is.
    fn update_longest_chain_tip(&mut self, new_block: &Header)
        ensures
            final(self).tip() == spec_tip_after(old(self).tip(), *new_block),
            final(self).snapshots() == old(self).snapshots(),
            final(self).config() == old(self).config(),
            final(self).multiverse_wf() == old(self).multiverse_wf(),
    {
        if new_block.chain_length.0 > self.longest_chain_tip.chain_length.0 {
            self.longest_chain_tip = *new_block;
        }
    }

    /// Indexes a block: derives its snapshot from that of its parent, keeps
    /// it, and moves the tip to the block if it is further from the genesis
    /// block than the tip. Where it fails the explorer is left as it was.
    pub fn apply_block(&mut self, block: Block) -> (r: Result<GCRoot, Error>)
        requires
            old(self).wf(),
        ensures
            match r {
                Ok(root) => applied(*old(self), block, *final(self)) && root.spec_hash()
                    == block.header.hash,
                Err(e) => spec_apply_error(*old(self), block) == Some(e) && *final(self) == *old(
                    self,
                ),
            },
    {
        self.apply(&block)
    }

    /// The block of this identifier on the longest branch.
    pub fn get_block(&self, block_id: &HeaderHash) -> (r: Option<ExplorerBlock>)
        requires
            self.wf(),
        ensures
            match r {
                Some(b) => self.tip_state().blocks().contains_key(*block_id) && b@
                    == self.tip_state().blocks()[*block_id]@,
                None => !self.tip_state().blocks().contains_key(*block_id),
            },
    {
        match self.multiverse.get(&self.longest_chain_tip.hash) {
            Some(state) => state.get_block(block_id),
            None => None,
        }
    }

    /// What is known of this epoch on the longest branch.
    pub fn get_epoch(&self, epoch: Epoch) -> (r: Option<EpochData>)
        requires
            self.wf(),
        ensures
            r == self.tip_state().epochs().get(epoch),
    {
        match self.multiverse.get(&self.longest_chain_tip.hash) {
            Some(state) => state.get_epoch(epoch),
            None => None,
        }
    }

    /// The block at this chain length on the longest branch.
    pub fn find_block_by_chain_length(&self, chain_length: ChainLength) -> (r: Option<HeaderHash>)
        requires
            self.wf(),
        ensures
            r == self.tip_state().chain_lengths().get(chain_length),
    {
        match self.multiverse.get(&self.longest_chain_tip.hash) {
            Some(state) => state.find_block_by_chain_length(chain_length),
            None => None,
        }
    }

    /// The block of the longest branch that holds this transaction.
    pub fn find_block_by_transaction(&self, transaction: &FragmentId) -> (r: Option<HeaderHash>)
        requires
            self.wf(),
        ensures
            r == self.tip_state().transactions().get(*transaction),
    {
        match self.multiverse.get(&self.longest_chain_tip.hash) {
            Some(state) => state.find_block_by_transaction(transaction),
            None => None,
        }
    }

    /// Whether, on the longest branch, the index of addresses holds the
    /// transaction under the address.
    pub fn address_names(&self, address: &Address, transaction: &FragmentId) -> (r: bool)
        requires
            self.wf(),
        ensures
            r == (self.tip_state().addresses().contains_key(*address)
                && self.tip_state().addresses()[*address]@.contains(*transaction)),
    {
        match self.multiverse.get(&self.longest_chain_tip.hash) {
            Some(state) => state.names(address, transaction),
            None => false,
        }
    }

    /// The tip of the longest branch.
    pub fn longest_chain_tip(&self) -> (r: Header)
        ensures
            r == self.tip(),
    {
        self.longest_chain_tip
    }

    /// Whether the explorer keeps a snapshot for this block.
    pub fn is_indexed(&self, block_id: &HeaderHash) -> (r: bool)
        requires
            self.wf(),
        ensures
            r == self.snapshots().contains_key(*block_id),
    {
        self.multiverse.get(block_id).is_some()
    }
}


// ---------------------------------------------------------------------
// Starting up
// ---------------------------------------------------------------------
/// What a genesis block projects to: nothing has been indexed before it.
pub open spec fn spec_genesis_block(block0: Block, config: BlockchainConfig) -> Option<
    ExplorerBlockView,
> {
    spec_resolve_from(
        block0,
        config.discrimination,
        Map::<FragmentId, HeaderHash>::empty(),
        Map::<HeaderHash, ExplorerBlock>::empty(),
    )
}

/// Why the explorer cannot start from a genesis block, if it cannot: the
/// block has no `Initial` fragment, its settings lack a discrimination or a
/// consensus version, or one of its inputs refers to an output.
pub open spec fn spec_genesis_error(block0: Block) -> Option<ErrorView> {
    match spec_block_0_initial(block0.contents@) {
        None => Some(ErrorView::BootstrapError(error::spec_no_initial())),
        Some(params) => match spec_config(params@) {
            Err(text) => Some(ErrorView::BootstrapError(text)),
            Ok(config) => match spec_genesis_block(block0, config) {
                None => Some(ErrorView::Internal),
                Some(_) => None,
            },
        },
    }
}

/// Why the explorer cannot start from a stored chain before it has indexed
/// a block of it, if it cannot: the genesis block is looked at first, then
/// the head, then the blocks up to it.
pub open spec fn spec_start_error(
    block0: Block,
    head: Option<HeaderHash>,
    stream: Option<Vec<Block>>,
) -> Option<ErrorView> {
    if spec_genesis_error(block0) is Some {
        spec_genesis_error(block0)
    } else if head is None {
        Some(ErrorView::BootstrapError(error::spec_no_head()))
    } else if stream is None {
        Some(ErrorView::BootstrapError(error::spec_no_stream()))
    } else {
        None
    }
}

/// `db` is the explorer as it starts from the genesis block: it keeps one
/// snapshot, that of the branch of the genesis block alone, with an empty
/// index of addresses, and its tip is the genesis block.
pub open spec fn started(block0: Block, db: ExplorerDB) -> bool {
    let params = spec_block_0_initial(block0.contents@)->0;
    let config = spec_config(params@)->Ok_0;
    let id = block0.header.hash;
    &&& spec_genesis_error(block0) is None
    &&& db.wf()
    &&& db.config() == config
    &&& db.tip() == block0.header
    &&& db.snapshots().dom() == set![id]
    &&& db.snapshots()[id].branch() == seq![spec_genesis_block(block0, config)->0]
    &&& db.snapshots()[id].addresses() == Map::<Address, HamtSet<FragmentId>>::empty()
}

/// `trace` is what the explorer goes through from `start` to `end` while it
/// indexes the first `n` of the blocks in their order.
pub open spec fn is_trace(
    trace: Seq<ExplorerDB>,
    start: ExplorerDB,
    blocks: Seq<Block>,
    n: nat,
    end: ExplorerDB,
) -> bool {
    &&& trace.len() == n + 1
    &&& n <= blocks.len()
    &&& trace[0] == start
    &&& trace[n as int] == end
    &&& forall|i: int| 0 <= i < n ==> applied(#[trigger] trace[i], blocks[i], trace[i + 1])
}

/// `end` is `start` with the first `n` of the blocks indexed in their order.
pub open spec fn replayed(start: ExplorerDB, blocks: Seq<Block>, n: nat, end: ExplorerDB) -> bool {
    exists|trace: Seq<ExplorerDB>| is_trace(trace, start, blocks, n, end)
}

/// Indexing the blocks in their order, from the explorer `first` of the
/// genesis block on, fails at the block `n` with `e`: `mid` is the explorer
/// with the blocks before it indexed.
pub open spec fn replay_fails(
    block0: Block,
    blocks: Seq<Block>,
    first: ExplorerDB,
    n: nat,
    mid: ExplorerDB,
    e: Error,
) -> bool {
    &&& n < blocks.len()
    &&& started(block0, first)
    &&& replayed(first, blocks, n, mid)
    &&& spec_apply_error(mid, blocks[n as int]) == Some(e)
}

impl ExplorerDB {
    /// The explorer of a chain of which only the genesis block is known.
    /// Fails with `BootstrapError` where the block has no `Initial` fragment
    /// or its settings lack the discrimination or the consensus version, and
    /// with `Internal` where one of its inputs refers to an output.
    pub fn genesis(block0: &Block) -> (r: Result<ExplorerDB, Error>)
        ensures
            match r {
                Ok(db) => started(*block0, db),
                Err(e) => spec_genesis_error(*block0) == Some(e@),
            },
    {
        let params = match block_0_get_initial(block0) {
            Ok(params) => params,
            Err(_) => {
                return Err(
                    Error::BootstrapError(
                        "the Initial fragment to be present in the genesis block".to_owned(),
                    ),
                );
            },
        };
        let blockchain_config = match BlockchainConfig::from_config_params(params) {
            Ok(c) => c,
            Err(e) => {
                return Err(e);
            },
        };
        let block = match ExplorerBlock::resolve_from(
            block0,
            blockchain_config.discrimination,
            &Transactions::new(),
            &Blocks::new(),
        ) {
            Ok(b) => b,
            Err(e) => {
                return Err(e);
            },
        };
        let initial_state = State::genesis(&block);
        let mut multiverse = Multiverse::<State>::new();
        let _ = multiverse.insert(block0.chain_length(), block0.id(), initial_state);
        let db = ExplorerDB { multiverse, longest_chain_tip: block0.header, blockchain_config };
        proof {
            assert(db.snapshots().dom() =~= set![block0.header.hash]);
            assert(seq![block@].last() == block@);
        }
        Ok(db)
    }

    /// The explorer of a stored chain: it starts from the genesis block and
    /// indexes the blocks that follow it up to the head, in their order.
    /// `head` is what the storage gave for the head of the chain and `stream`
    /// the blocks it gave from the genesis block, left out, to the head.
    /// Fails as `genesis` does, then with `BootstrapError` where the head or
    /// the blocks are missing, and with the failure of the first block that
    /// cannot be indexed.
    pub fn bootstrap(block0: Block, head: Option<HeaderHash>, stream: Option<Vec<Block>>) -> (r:
        Result<ExplorerDB, Error>)
        ensures
            match r {
                Ok(db) => {
                    &&& spec_start_error(block0, head, stream) is None
                    &&& exists|first: ExplorerDB|
                        started(block0, first) && replayed(
                            first,
                            stream->0@,
                            stream->0@.len(),
                            db,
                        )
                },
                Err(e) => {
                    ||| spec_start_error(block0, head, stream) == Some(e@)
                    ||| {
                        &&& spec_start_error(block0, head, stream) is None
                        &&& exists|first: ExplorerDB, n: nat, mid: ExplorerDB|
                            replay_fails(block0, stream->0@, first, n, mid, e)
                    }
                },
            },
    {
        let mut db = match ExplorerDB::genesis(&block0) {
            Ok(db) => db,
            Err(e) => {
                return Err(e);
            },
        };
        if head.is_none() {
            return Err(Error::BootstrapError("Couldn't read the HEAD tag from storage".to_owned()));
        }
        let blocks = match stream {
            Some(blocks) => blocks,
            None => {
                return Err(
                    Error::BootstrapError("Couldn't iterate from Block0 to HEAD".to_owned()),
                );
            },
        };
        let ghost first = db;
        let ghost trace = seq![db];
        let mut i: usize = 0;
        while i < blocks.len()
            invariant
                i <= blocks.len(),
                db.wf(),
                started(block0, first),
                spec_genesis_error(block0) is None,
                head is Some,
                stream == Some(blocks),
                is_trace(trace, first, blocks@, i as nat, db),
            decreases blocks.len() - i,
        {
            let ghost mid = db;
            match db.apply(&blocks[i]) {
                Ok(_) => {},
                Err(e) => {
                    proof {
                        assert(replay_fails(block0, blocks@, first, i as nat, mid, e));
                        assert(spec_start_error(block0, head, stream) is None);
                        assert(stream->0@ == blocks@);
                        assert(exists|first: ExplorerDB, n: nat, mid: ExplorerDB|
                            replay_fails(block0, stream->0@, first, n, mid, e));
                    }
                    return Err(e);
                },
            }
            proof {
                let longer = trace.push(db);
                assert forall|j: int| 0 <= j < i + 1 implies applied(
                    #[trigger] longer[j],
                    blocks@[j],
                    longer[j + 1],
                ) by {
                    if j < i {
                        assert(longer[j] == trace[j] && longer[j + 1] == trace[j + 1]);
                    }
                }
                trace = longer;
            }
            i += 1;
        }
        Ok(db)
    }
}

// ---------------------------------------------------------------------
// What holds of indexing a block
// ---------------------------------------------------------------------
/// A block whose parent has no snapshot fails with `AncestorNotFound`, which
/// leaves the explorer as it was.
pub proof fn lemma_unknown_parent_is_refused(db: ExplorerDB, block: Block)
    requires
        !db.snapshots().contains_key(block.header.parent_hash),
    ensures
        spec_apply_error(db, block) == Some(Error::AncestorNotFound(block.header.hash)),
{
}

/// A block that is on the branch of its parent already, and none of whose
/// transactions that branch holds, fails with `BlockAlreadyExists`, which
/// leaves the explorer and so the first snapshot of the block as they were.
pub proof fn lemma_block_on_its_branch_is_refused(db: ExplorerDB, block: Block)
    requires
        db.wf(),
        db.snapshots().contains_key(block.header.parent_hash),
        db.snapshots()[block.header.parent_hash].blocks().contains_key(block.header.hash),
        spec_resolve_from(
            block,
            db.config().discrimination,
            db.snapshots()[block.header.parent_hash].transactions(),
            db.snapshots()[block.header.parent_hash].blocks(),
        ) matches Some(b) && forall|i: int|
            0 <= i < b.transactions.len() ==> !db.snapshots()[block.header.parent_hash].transactions().contains_key(
            (#[trigger] b.transactions[i]).id),
    ensures
        spec_apply_error(db, block) == Some(Error::BlockAlreadyExists(block.header.hash)),
{
    let parent = db.snapshots()[block.header.parent_hash];
    let b = spec_resolve_from(
        block,
        db.config().discrimination,
        parent.transactions(),
        parent.blocks(),
    )->0;
    lemma_first_known(parent.transactions(), b.transactions);
}

/// Indexing a block moves the tip to it if its chain length is greater than
/// that of the tip, and leaves the tip where it is if its chain length is
/// the same or less.
pub proof fn lemma_tip_moves_to_longer_only(before: ExplorerDB, block: Block, after: ExplorerDB)
    requires
        applied(before, block, after),
    ensures
        block.header.chain_length.0 > before.tip().chain_length.0 ==> after.tip() == block.header,
        block.header.chain_length.0 <= before.tip().chain_length.0 ==> after.tip() == before.tip(),
{
}


// ---------------------------------------------------------------------
// The service
// ---------------------------------------------------------------------
/// How the explorer shows what it has indexed.
#[derive(Clone, Debug, PartialEq, Eq)]
pub struct Settings {
    /// What the text of an address starts with.
    pub address_bech32_prefix: String,
}

/// What a query is answered from.
pub struct Context {
    pub db: ExplorerDB,
    pub settings: Settings,
}

/// The explorer as a service: it indexes the blocks that it is told of.
pub struct Explorer {
    pub db: ExplorerDB,
}

impl Explorer {
    pub fn new(db: ExplorerDB) -> (r: Explorer)
        ensures
            r.db == db,
    {
        Explorer { db }
    }

    /// What queries are answered from: the explorer as it stands, and
    /// addresses that start with `ca`.
    pub fn context(&self) -> (r: Context)
        ensures
            r.db == self.db,
            r.settings.address_bech32_prefix@ == "ca"@,
    {
        Context {
            db: self.db.clone(),
            settings: Settings { address_bech32_prefix: "ca".to_owned() },
        }
    }

    /// Takes one input. A new block is indexed, and why it could not be, if
    /// it could not, is returned for the log: the service goes on either
    /// way. On `Shutdown` nothing is done.
    pub fn handle_input(&mut self, input: Input<ExplorerMsg>) -> (r: Option<Error>)
        requires
            old(self).db.wf(),
        ensures
            final(self).db.wf(),
            match input {
                Input::Shutdown => r is None && *final(self) == *old(self),
                Input::Input(ExplorerMsg::NewBlock(block)) => match r {
                    None => applied(old(self).db, block, final(self).db),
                    Some(e) => spec_apply_error(old(self).db, block) == Some(e) && *final(self)
                        == *old(self),
                },
            },
    {
        let bquery = match input {
            Input::Shutdown => {
                return None;
            },
            Input::Input(msg) => msg,
        };
        match bquery {
            ExplorerMsg::NewBlock(block) => match self.db.apply_block(block) {
                Ok(_gc_root) => None,
                Err(err) => Some(err),
            },
        }
    }
}

} // verus!
