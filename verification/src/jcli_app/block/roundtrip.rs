//! A description of a chain comes back from the genesis block that was made
//! from it.

use super::yaml::{
    spec_chunk_len, spec_chunks, spec_first_repeat, spec_from_ents, spec_from_messages,
    spec_funding, spec_funds, spec_funds_end, spec_funds_have_input, spec_initial_certs,
    spec_leaders, spec_legacy_end, spec_legacy_funds, spec_limit, spec_name, spec_outputs,
    spec_param, spec_repeats, spec_to_ents, spec_to_messages, spec_utxos,
    BlockchainConfigurationView, Error, GenesisView, InitialUTxO, MessageView, ParamName,
};
use crate::blockcfg::{ConfigParam, Output, Value};
use vstd::prelude::*;

verus! {

/// What is read of the first `n` settings depends on these settings alone.
proof fn lemma_prefix(a: Seq<ConfigParam>, b: Seq<ConfigParam>, n: nat)
    requires
        n <= a.len(),
        n <= b.len(),
        forall|i: int| 0 <= i < n ==> a[i] == b[i],
    ensures
        forall|name: ParamName| spec_param(a, n, name) == spec_param(b, n, name),
        spec_first_repeat(a, n) == spec_first_repeat(b, n),
        spec_leaders(a, n) == spec_leaders(b, n),
    decreases n,
{
    if n > 0 {
        lemma_prefix(a, b, (n - 1) as nat);
        assert(a[n - 1] == b[n - 1]);
        assert forall|name: ParamName| spec_param(a, n, name) == spec_param(b, n, name) by {
            assert(spec_param(a, (n - 1) as nat, name) == spec_param(b, (n - 1) as nat, name));
        }
        assert(spec_repeats(a, (n - 1) as nat) == spec_repeats(b, (n - 1) as nat));
    }
}

/// What one more setting changes.
proof fn lemma_one_more(s: Seq<ConfigParam>, p: ConfigParam, t: Seq<ConfigParam>)
    requires
        t == s.push(p),
    ensures
        forall|name: ParamName| #[trigger]
            spec_param(t, t.len(), name) == if spec_name(p) == Some(name) {
                Some(p)
            } else {
                spec_param(s, s.len(), name)
            },
        spec_first_repeat(s, s.len()) == s.len() ==> spec_first_repeat(t, t.len())
            == if spec_name(p) matches Some(name) && spec_param(s, s.len(), name) is Some {
            s.len()
        } else {
            t.len()
        },
        spec_leaders(t, t.len()) == match p {
            ConfigParam::ConsensusLeaderId(id) => spec_leaders(s, s.len()).push(id),
            _ => spec_leaders(s, s.len()),
        },
{
    lemma_prefix(s, t, s.len());
    assert(t.len() == s.len() + 1);
    assert(t[s.len() as int] == p);
    assert forall|name: ParamName| #[trigger]
        spec_param(t, t.len(), name) == if spec_name(p) == Some(name) {
            Some(p)
        } else {
            spec_param(s, s.len(), name)
        } by {
        assert(spec_param(t, s.len(), name) == spec_param(s, s.len(), name));
    }
    if spec_name(p) is Some {
        assert(spec_param(t, s.len(), spec_name(p)->0) == spec_param(s, s.len(), spec_name(p)->0));
    }
}

/// The settings with the leaders `ids` behind them.
spec fn with_leaders(s: Seq<ConfigParam>, ids: Seq<[u8; 32]>, k: nat) -> Seq<ConfigParam> {
    s + Seq::new(k, |i: int| ConfigParam::ConsensusLeaderId(ids[i]))
}

/// Leaders behind the settings repeat no name and hide no setting.
proof fn lemma_leaders_behind(s: Seq<ConfigParam>, ids: Seq<[u8; 32]>, k: nat)
    requires
        k <= ids.len(),
        spec_first_repeat(s, s.len()) == s.len(),
    ensures
        with_leaders(s, ids, k).len() == s.len() + k,
        forall|name: ParamName| #[trigger]
            spec_param(with_leaders(s, ids, k), with_leaders(s, ids, k).len(), name) == spec_param(
                s,
                s.len(),
                name,
            ),
        spec_first_repeat(with_leaders(s, ids, k), with_leaders(s, ids, k).len()) == s.len() + k,
        spec_leaders(with_leaders(s, ids, k), with_leaders(s, ids, k).len()) == spec_leaders(
            s,
            s.len(),
        ) + ids.take(k as int),
    decreases k,
{
    if k == 0 {
        assert(with_leaders(s, ids, 0) =~= s);
        assert(spec_leaders(s, s.len()) + ids.take(0) =~= spec_leaders(s, s.len()));
    } else {
        let before = with_leaders(s, ids, (k - 1) as nat);
        lemma_leaders_behind(s, ids, (k - 1) as nat);
        let p = ConfigParam::ConsensusLeaderId(ids[k - 1]);
        lemma_one_more(before, p, before.push(p));
        assert(with_leaders(s, ids, k) =~= before.push(p));
        let now = with_leaders(s, ids, k);
        assert forall|name: ParamName| #[trigger]
            spec_param(now, now.len(), name) == spec_param(s, s.len(), name) by {
            assert(spec_param(before, before.len(), name) == spec_param(s, s.len(), name));
        }
        assert(spec_leaders(s, s.len()) + ids.take(k as int) =~= (spec_leaders(s, s.len())
            + ids.take(k - 1)).push(ids[k - 1]));
    }
}

/// The setting of a name that has been written once the first `stage`
/// parts of a description are: the start date, the discrimination, the
/// consensus, the slots per epoch, the slot duration, the stability depth,
/// the leaders and the two ratios, in this order.
spec fn written(c: BlockchainConfigurationView, name: ParamName, stage: nat) -> Option<
    ConfigParam,
> {
    match name {
        ParamName::Block0Date => if stage >= 1 {
            Some(ConfigParam::Block0Date(c.block0_date))
        } else {
            None
        },
        ParamName::Discrimination => if stage >= 2 {
            Some(ConfigParam::Discrimination(c.discrimination))
        } else {
            None
        },
        ParamName::ConsensusVersion => if stage >= 3 {
            Some(ConfigParam::ConsensusVersion(c.block0_consensus))
        } else {
            None
        },
        ParamName::Block0Consensus => None,
        ParamName::SlotsPerEpoch => match c.slots_per_epoch {
            Some(v) => if stage >= 4 {
                Some(ConfigParam::SlotsPerEpoch(v))
            } else {
                None
            },
            None => None,
        },
        ParamName::SlotDuration => if stage >= 5 {
            Some(ConfigParam::SlotDuration(c.slot_duration))
        } else {
            None
        },
        ParamName::EpochStabilityDepth => match c.epoch_stability_depth {
            Some(v) => if stage >= 6 {
                Some(ConfigParam::EpochStabilityDepth(v))
            } else {
                None
            },
            None => None,
        },
        ParamName::ConsensusGenesisPraosParamD => match c.consensus_genesis_praos_param_d {
            Some(v) => if stage >= 8 {
                Some(ConfigParam::ConsensusGenesisPraosParamD(v))
            } else {
                None
            },
            None => None,
        },
        ParamName::ConsensusGenesisPraosParamF => match c.consensus_genesis_praos_param_f {
            Some(v) => if stage >= 9 {
                Some(ConfigParam::ConsensusGenesisPraosActiveSlotsCoeff(v))
            } else {
                None
            },
            None => None,
        },
    }
}

/// The settings are the first `stage` parts of the description: they read
/// as what has been written, and no name comes twice.
spec fn reads(e: Seq<ConfigParam>, c: BlockchainConfigurationView, stage: nat) -> bool {
    &&& spec_first_repeat(e, e.len()) == e.len()
    &&& forall|name: ParamName| #[trigger] spec_param(e, e.len(), name) == written(c, name, stage)
    &&& spec_leaders(e, e.len()) == if stage >= 7 {
        c.consensus_leader_ids
    } else {
        Seq::empty()
    }
}

/// One more part, of one setting.
proof fn lemma_part(
    s: Seq<ConfigParam>,
    p: ConfigParam,
    t: Seq<ConfigParam>,
    c: BlockchainConfigurationView,
    stage: nat,
)
    requires
        reads(s, c, stage),
        stage != 6,
        t == s.push(p),
        spec_name(p) is Some,
        written(c, spec_name(p)->0, stage) is None,
        forall|name: ParamName| #[trigger]
            written(c, name, stage + 1) == if spec_name(p) == Some(name) {
                Some(p)
            } else {
                written(c, name, stage)
            },
    ensures
        reads(t, c, stage + 1),
{
    lemma_one_more(s, p, t);
    assert(spec_param(s, s.len(), spec_name(p)->0) == written(c, spec_name(p)->0, stage));
    assert forall|name: ParamName| #[trigger] spec_param(t, t.len(), name) == written(
        c,
        name,
        stage + 1,
    ) by {
        assert(spec_param(s, s.len(), name) == written(c, name, stage));
    }
}

/// One more part, of no setting.
proof fn lemma_no_part(s: Seq<ConfigParam>, c: BlockchainConfigurationView, stage: nat)
    requires
        reads(s, c, stage),
        stage != 6,
        forall|name: ParamName| #[trigger] written(c, name, stage + 1) == written(c, name, stage),
    ensures
        reads(s, c, stage + 1),
{
    assert forall|name: ParamName| #[trigger] spec_param(s, s.len(), name) == written(
        c,
        name,
        stage + 1,
    ) by {
        assert(spec_param(s, s.len(), name) == written(c, name, stage));
    }
}

/// The settings that describe a chain give its description back.
pub proof fn lemma_from_ents_to_ents(c: BlockchainConfigurationView)
    ensures
        spec_from_ents(spec_to_ents(c)) == Ok::<BlockchainConfigurationView, Error>(c),
{
    let e0 = Seq::<ConfigParam>::empty();
    let e1 = e0.push(ConfigParam::Block0Date(c.block0_date));
    let e2 = e1.push(ConfigParam::Discrimination(c.discrimination));
    let e3 = e2.push(ConfigParam::ConsensusVersion(c.block0_consensus));
    let e4 = match c.slots_per_epoch {
        Some(v) => e3.push(ConfigParam::SlotsPerEpoch(v)),
        None => e3,
    };
    let e5 = e4.push(ConfigParam::SlotDuration(c.slot_duration));
    let e6 = match c.epoch_stability_depth {
        Some(v) => e5.push(ConfigParam::EpochStabilityDepth(v)),
        None => e5,
    };
    let e7 = with_leaders(e6, c.consensus_leader_ids, c.consensus_leader_ids.len());
    let e8 = match c.consensus_genesis_praos_param_d {
        Some(v) => e7.push(ConfigParam::ConsensusGenesisPraosParamD(v)),
        None => e7,
    };
    let e9 = match c.consensus_genesis_praos_param_f {
        Some(v) => e8.push(ConfigParam::ConsensusGenesisPraosActiveSlotsCoeff(v)),
        None => e8,
    };
    assert(reads(e0, c, 0));
    lemma_part(e0, ConfigParam::Block0Date(c.block0_date), e1, c, 0);
    lemma_part(e1, ConfigParam::Discrimination(c.discrimination), e2, c, 1);
    lemma_part(e2, ConfigParam::ConsensusVersion(c.block0_consensus), e3, c, 2);
    match c.slots_per_epoch {
        Some(v) => lemma_part(e3, ConfigParam::SlotsPerEpoch(v), e4, c, 3),
        None => lemma_no_part(e3, c, 3),
    }
    lemma_part(e4, ConfigParam::SlotDuration(c.slot_duration), e5, c, 4);
    match c.epoch_stability_depth {
        Some(v) => lemma_part(e5, ConfigParam::EpochStabilityDepth(v), e6, c, 5),
        None => lemma_no_part(e5, c, 5),
    }
    lemma_stage_of_leaders(e6, c, e7);
    match c.consensus_genesis_praos_param_d {
        Some(v) => lemma_part(e7, ConfigParam::ConsensusGenesisPraosParamD(v), e8, c, 7),
        None => lemma_no_part(e7, c, 7),
    }
    match c.consensus_genesis_praos_param_f {
        Some(v) => lemma_part(e8, ConfigParam::ConsensusGenesisPraosActiveSlotsCoeff(v), e9, c, 8),
        None => lemma_no_part(e8, c, 8),
    }
    assert(spec_to_ents(c) =~= e9);
    lemma_reads_all(e9, c);
}

/// The part of the leaders.
proof fn lemma_stage_of_leaders(
    e6: Seq<ConfigParam>,
    c: BlockchainConfigurationView,
    e7: Seq<ConfigParam>,
)
    requires
        reads(e6, c, 6),
        e7 == with_leaders(e6, c.consensus_leader_ids, c.consensus_leader_ids.len()),
    ensures
        reads(e7, c, 7),
{
    lemma_leaders_behind(e6, c.consensus_leader_ids, c.consensus_leader_ids.len());
    assert(c.consensus_leader_ids.take(c.consensus_leader_ids.len() as int)
        =~= c.consensus_leader_ids);
    assert(spec_leaders(e7, e7.len()) =~= c.consensus_leader_ids);
    assert forall|name: ParamName| #[trigger] spec_param(e7, e7.len(), name) == written(
        c,
        name,
        7,
    ) by {
        assert(spec_param(e6, e6.len(), name) == written(c, name, 6));
    }
}

/// Settings that read as all the parts of a description give it back.
proof fn lemma_reads_all(e: Seq<ConfigParam>, c: BlockchainConfigurationView)
    requires
        reads(e, c, 9),
    ensures
        spec_from_ents(e) == Ok::<BlockchainConfigurationView, Error>(c),
{
    assert(spec_param(e, e.len(), ParamName::Block0Date) == written(c, ParamName::Block0Date, 9));
    assert(spec_param(e, e.len(), ParamName::Discrimination) == written(
        c,
        ParamName::Discrimination,
        9,
    ));
    assert(spec_param(e, e.len(), ParamName::ConsensusVersion) == written(
        c,
        ParamName::ConsensusVersion,
        9,
    ));
    assert(spec_param(e, e.len(), ParamName::SlotsPerEpoch) == written(
        c,
        ParamName::SlotsPerEpoch,
        9,
    ));
    assert(spec_param(e, e.len(), ParamName::SlotDuration) == written(
        c,
        ParamName::SlotDuration,
        9,
    ));
    assert(spec_param(e, e.len(), ParamName::EpochStabilityDepth) == written(
        c,
        ParamName::EpochStabilityDepth,
        9,
    ));
    assert(spec_param(e, e.len(), ParamName::ConsensusGenesisPraosParamD) == written(
        c,
        ParamName::ConsensusGenesisPraosParamD,
        9,
    ));
    assert(spec_param(e, e.len(), ParamName::ConsensusGenesisPraosParamF) == written(
        c,
        ParamName::ConsensusGenesisPraosParamF,
        9,
    ));
    let got = spec_from_ents(e);
    assert(got is Ok);
    assert(got->Ok_0.consensus_leader_ids == c.consensus_leader_ids);
    assert(got->Ok_0 == c);
}

/// The items of all the messages, in their order.
pub open spec fn spec_flatten<T>(chunks: Seq<Seq<T>>) -> Seq<T>
    decreases chunks.len(),
{
    if chunks.len() == 0 {
        Seq::empty()
    } else {
        chunks[0] + spec_flatten(chunks.drop_first())
    }
}

/// Items that were put into messages are all there, in their order.
pub proof fn lemma_flatten_chunks<T>(items: Seq<T>, max: nat)
    ensures
        spec_flatten(spec_chunks(items, max)) == items,
    decreases items.len(),
{
    if items.len() > 0 {
        let n = spec_chunk_len(items.len(), max);
        let chunks = spec_chunks(items, max);
        lemma_flatten_chunks(items.skip(n as int), max);
        assert(chunks[0] == items.take(n as int));
        assert(chunks.drop_first() =~= spec_chunks(items.skip(n as int), max));
        assert(items.take(n as int) + items.skip(n as int) =~= items);
    } else {
        assert(spec_flatten(spec_chunks(items, max)) =~= items);
    }
}

proof fn lemma_funds_run(msgs: Seq<MessageView>, i: nat, chunks: Seq<Seq<Output>>, j: nat)
    requires
        j <= chunks.len(),
        i + (chunks.len() - j) <= msgs.len(),
        forall|t: int|
            0 <= t < chunks.len() - j ==> #[trigger] msgs[i + t] == spec_funding(chunks[j + t]),
        i + (chunks.len() - j) == msgs.len() || !(msgs[i + (chunks.len() - j)] is Transaction),
    ensures
        spec_funds_end(msgs, i) == i + (chunks.len() - j),
        !spec_funds_have_input(msgs, i),
        spec_funds(msgs, i) == spec_utxos(spec_flatten(chunks.skip(j as int))),
    decreases chunks.len() - j,
{
    let rest = chunks.skip(j as int);
    if j < chunks.len() {
        assert(msgs[i as int + 0] == spec_funding(chunks[j as int + 0]));
        assert forall|t: int| 0 <= t < chunks.len() - (j + 1) implies #[trigger] msgs[(i + 1)
            + t] == spec_funding(chunks[(j + 1) + t]) by {
            assert(msgs[i + (t + 1)] == spec_funding(chunks[j + (t + 1)]));
        }
        lemma_funds_run(msgs, i + 1, chunks, j + 1);
        assert(rest[0] == chunks[j as int]);
        assert(rest.drop_first() =~= chunks.skip(j as int + 1));
        assert(spec_utxos(rest[0] + spec_flatten(rest.drop_first())) =~= spec_utxos(rest[0])
            + spec_utxos(spec_flatten(rest.drop_first())));
    } else {
        assert(spec_utxos(spec_flatten(rest)) =~= Seq::<InitialUTxO>::empty());
    }
}

proof fn lemma_legacy_run(
    msgs: Seq<MessageView>,
    i: nat,
    chunks: Seq<Seq<(Seq<u8>, Value)>>,
    j: nat,
)
    requires
        j <= chunks.len(),
        i + (chunks.len() - j) <= msgs.len(),
        forall|t: int|
            0 <= t < chunks.len() - j ==> #[trigger] msgs[i + t] == MessageView::OldUtxoDeclaration(
                chunks[j + t],
            ),
        i + (chunks.len() - j) == msgs.len() || !(msgs[i + (chunks.len() - j)]
            is OldUtxoDeclaration),
    ensures
        spec_legacy_end(msgs, i) == i + (chunks.len() - j),
        spec_legacy_funds(msgs, i) == spec_flatten(chunks.skip(j as int)),
    decreases chunks.len() - j,
{
    let rest = chunks.skip(j as int);
    if j < chunks.len() {
        assert(msgs[i as int + 0] == MessageView::OldUtxoDeclaration(chunks[j as int + 0]));
        assert forall|t: int| 0 <= t < chunks.len() - (j + 1) implies #[trigger] msgs[(i + 1)
            + t] == MessageView::OldUtxoDeclaration(chunks[(j + 1) + t]) by {
            assert(msgs[i + (t + 1)] == MessageView::OldUtxoDeclaration(chunks[j + (t + 1)]));
        }
        lemma_legacy_run(msgs, i + 1, chunks, j + 1);
        assert(rest[0] == chunks[j as int]);
        assert(rest.drop_first() =~= chunks.skip(j as int + 1));
    } else {
        assert(spec_flatten(rest) =~= Seq::<(Seq<u8>, Value)>::empty());
    }
}

proof fn lemma_certs_run(msgs: Seq<MessageView>, i: nat, certs: Seq<Seq<u8>>, j: nat)
    requires
        j <= certs.len(),
        i + (certs.len() - j) == msgs.len(),
        forall|t: int|
            0 <= t < certs.len() - j ==> #[trigger] msgs[i + t] == MessageView::Certificate(
                certs[j + t],
            ),
    ensures
        spec_initial_certs(msgs, i) == certs.skip(j as int),
    decreases certs.len() - j,
{
    if j < certs.len() {
        assert(msgs[i as int + 0] == MessageView::Certificate(certs[j as int + 0]));
        assert forall|t: int| 0 <= t < certs.len() - (j + 1) implies #[trigger] msgs[(i + 1) + t]
            == MessageView::Certificate(certs[(j + 1) + t]) by {
            assert(msgs[i + (t + 1)] == MessageView::Certificate(certs[j + (t + 1)]));
        }
        lemma_certs_run(msgs, i + 1, certs, j + 1);
        assert(seq![certs[j as int]] + certs.skip(j as int + 1) =~= certs.skip(j as int));
    } else {
        assert(certs.skip(j as int) =~= Seq::<Seq<u8>>::empty());
    }
}

/// The description of a chain is what its genesis block is read as: the
/// messages that are made from a description give the same description
/// back, whoever proposes its initial values.
pub proof fn lemma_description_comes_back(g: GenesisView, proposer_id: [u8; 32])
    ensures
        spec_from_messages(spec_to_messages(g, proposer_id)) == Ok::<GenesisView, Error>(g),
{
    let msgs = spec_to_messages(g, proposer_id);
    let max = spec_limit(g.initial_setting);
    let funds = spec_chunks(spec_outputs(g.initial_funds), max);
    let legacy = spec_chunks(g.legacy_funds, max);
    let certs = g.initial_certs;
    let f0: nat = 2;
    let l0: nat = 2 + funds.len();
    let c0: nat = 2 + funds.len() + legacy.len();
    assert(msgs.len() == c0 + certs.len());
    assert(msgs[0] == MessageView::Initial(spec_to_ents(g.blockchain_configuration)));
    assert(msgs[1] is UpdateProposal);
    assert(msgs[1]->UpdateProposal_0.settings == g.initial_setting);
    assert forall|t: int| 0 <= t < funds.len() implies #[trigger] msgs[f0 + t] == spec_funding(
        funds[0 + t],
    ) by {}
    assert forall|t: int| 0 <= t < legacy.len() implies #[trigger] msgs[l0 + t]
        == MessageView::OldUtxoDeclaration(legacy[0 + t]) by {}
    assert forall|t: int| 0 <= t < certs.len() implies #[trigger] msgs[c0 + t]
        == MessageView::Certificate(certs[0 + t]) by {}
    lemma_from_ents_to_ents(g.blockchain_configuration);
    if l0 < msgs.len() {
        if legacy.len() > 0 {
            assert(msgs[l0 as int + 0] == MessageView::OldUtxoDeclaration(legacy[0int + 0]));
        } else {
            assert(msgs[c0 as int + 0] == MessageView::Certificate(certs[0int + 0]));
        }
    }
    lemma_funds_run(msgs, f0, funds, 0);
    if c0 < msgs.len() {
        assert(msgs[c0 as int + 0] == MessageView::Certificate(certs[0int + 0]));
    }
    lemma_legacy_run(msgs, l0, legacy, 0);
    lemma_certs_run(msgs, c0, certs, 0);
    lemma_flatten_chunks(spec_outputs(g.initial_funds), max);
    lemma_flatten_chunks(g.legacy_funds, max);
    assert(funds.skip(0) =~= funds);
    assert(legacy.skip(0) =~= legacy);
    assert(certs.skip(0) =~= certs);
    assert(spec_utxos(spec_outputs(g.initial_funds)) =~= g.initial_funds);
    let got = spec_from_messages(msgs);
    assert(got is Ok);
    assert(got->Ok_0.initial_funds == g.initial_funds);
    assert(got->Ok_0.legacy_funds == g.legacy_funds);
    assert(got->Ok_0.initial_certs == g.initial_certs);
    assert(got->Ok_0 == g);
}

} // verus!
