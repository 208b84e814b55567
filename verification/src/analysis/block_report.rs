use vstd::prelude::*;

use crate::analysis::classifier::{classification_of, HeuristicResults, TxAnalysis};
use crate::analysis::classify::{script_type_of, ScriptType};
use crate::analysis::coinbase::{bip34_height, decode_bip34_height, height_fits};
use crate::analysis::fees::{compute_fees, fee_info, fee_inputs_fit, fee_totals, FeeInfo};
use crate::analysis::pipeline::{analyze_transaction, heuristics_of, output_script_types, prevouts_for, prevouts_of};
use crate::analysis::summary::{count_where, occurrences, BlockTally, ScriptTypeCounts};
use crate::hash::{display_hex, to_display_hex};
use crate::parser::block::ParsedBlock;
use crate::parser::tx::{RawTx, TxOutputModel};
use crate::parser::undo::{BlockUndo, UndoCoin};

verus! {

/// The script types of a transaction's outputs, in order.
pub open spec fn output_types_of(tx: RawTx) -> Seq<ScriptType> {
    tx@.outputs.map_values(|o: TxOutputModel| script_type_of(o.script_pubkey))
}

/// How many outputs of `txs`, all together, are of script type `t`.
pub open spec fn type_total(txs: Seq<RawTx>, t: ScriptType) -> nat
    decreases txs.len(),
{
    if txs.len() == 0 {
        0
    } else {
        type_total(txs.drop_last(), t) + occurrences(output_types_of(txs.last()), t)
    }
}

/// How many outputs `txs` have, all together.
pub open spec fn output_total(txs: Seq<RawTx>) -> nat
    decreases txs.len(),
{
    if txs.len() == 0 {
        0
    } else {
        output_total(txs.drop_last()) + txs.last()@.outputs.len()
    }
}

/// The height of a block: the BIP34 height in its coinbase scriptSig, 0 for
/// a block without transactions.
pub open spec fn block_height(txs: Seq<RawTx>) -> nat {
    if txs.len() == 0 {
        0
    } else {
        bip34_height(txs[0]@.inputs[0].script_sig)
    }
}

/// Transaction `ti` gets fee figures: it is not the coinbase and the outputs
/// it spends are known.
pub open spec fn has_fee(undo: BlockUndo, ti: int) -> bool {
    ti > 0 && prevouts_of(undo, ti).len() > 0
}

/// A block can be analysed when its coinbase has an input whose height push
/// fits 64 bits, the fee sums of every transaction with known spent outputs
/// fit, and the outputs can be counted.
pub open spec fn block_analyzable(block: ParsedBlock, undo: BlockUndo) -> bool {
    let txs = block.transactions@;
    &&& txs.len() > 0 ==> txs[0]@.inputs.len() > 0 && height_fits(txs[0]@.inputs[0].script_sig)
    &&& forall|i: int|
        0 <= i < txs.len() && has_fee(undo, i) ==> fee_inputs_fit(
            #[trigger] txs[i],
            prevouts_of(undo, i),
        )
    &&& output_total(txs) <= usize::MAX
}

/// `a` is the analysis of `tx` spending `prevouts`.
pub open spec fn analyzes(a: TxAnalysis, tx: RawTx, prevouts: Seq<UndoCoin>) -> bool {
    &&& a.txid@ == tx.txid@
    &&& heuristics_of(tx, prevouts, a.heuristics)
    &&& a.classification == classification_of(tx@, a.heuristics)
}

/// The analysis of one block: its hash and height, each transaction's
/// heuristics and label, the fee figures of each transaction that has them,
/// and the block's totals.
pub struct BlockReport {
    pub block_hash: String,
    pub height: u64,
    pub transactions: Vec<TxAnalysis>,
    pub fees: Vec<Option<FeeInfo>>,
    pub tally: BlockTally,
}

impl BlockReport {
    /// The report of a block with the given hash and height, before any of
    /// its transactions is added.
    pub fn new(block_hash: String, height: u64) -> (r: Self)
        ensures
            r.block_hash@ == block_hash@,
            r.height == height,
            r.transactions@.len() == 0,
            r.fees@.len() == 0,
            r.tally.tx_count == 0,
            r.tally.flagged == 0,
            forall|t: ScriptType| r.tally.script_types.count(t) == 0,
    {
        BlockReport {
            block_hash,
            height,
            transactions: Vec::new(),
            fees: Vec::new(),
            tally: BlockTally::new(),
        }
    }

    /// Adds one analysed transaction: its analysis and fee figures are
    /// appended, it counts as flagged when any heuristic fired, and each of
    /// its outputs counts under its script type.
    pub fn add_tx(&mut self, analysis: TxAnalysis, fee: Option<FeeInfo>, output_types: &[ScriptType])
        requires
            old(self).tally.has_room(output_types@.len()),
            old(self).tally.flagged <= old(self).tally.tx_count,
        ensures
            final(self).block_hash@ == old(self).block_hash@,
            final(self).height == old(self).height,
            final(self).transactions@ == old(self).transactions@.push(analysis),
            final(self).fees@ == old(self).fees@.push(fee),
            final(self).tally.tx_count == old(self).tally.tx_count + 1,
            final(self).tally.flagged == old(self).tally.flagged + (if analysis.heuristics.some_detected() {
                1nat
            } else {
                0nat
            }),
            final(self).tally.flagged <= final(self).tally.tx_count,
            forall|t: ScriptType|
                #[trigger] final(self).tally.script_types.count(t) == old(self).tally.script_types.count(t)
                    + occurrences(output_types@, t),
    {
        self.tally.add_tx(&analysis.heuristics, output_types);
        self.transactions.push(analysis);
        self.fees.push(fee);
    }
}

/// `r` reports `block` with its undo data `undo`.
pub open spec fn reports_block(r: BlockReport, block: ParsedBlock, undo: BlockUndo) -> bool {
    let txs = block.transactions@;
    &&& r.block_hash@ == display_hex(block.header.block_hash@)
    &&& r.height == block_height(txs)
    &&& r.transactions@.len() == txs.len()
    &&& r.fees@.len() == txs.len()
    &&& forall|i: int|
        0 <= i < txs.len() ==> analyzes(#[trigger] r.transactions@[i], txs[i], prevouts_of(undo, i))
    &&& forall|i: int|
        0 <= i < txs.len() ==> #[trigger] r.fees@[i] == (if has_fee(undo, i) {
            Some(fee_info(txs[i], prevouts_of(undo, i)))
        } else {
            None
        })
    &&& r.tally.tx_count == txs.len()
    &&& r.tally.flagged == count_where(r.transactions@, |h: HeuristicResults| h.some_detected())
    &&& forall|t: ScriptType| #[trigger] r.tally.script_types.count(t) == type_total(txs, t)
}

proof fn lemma_occurrences_le(s: Seq<ScriptType>, t: ScriptType)
    ensures
        occurrences(s, t) <= s.len(),
    decreases s.len(),
{
    if s.len() > 0 {
        lemma_occurrences_le(s.drop_last(), t);
    }
}

proof fn lemma_type_total_le(txs: Seq<RawTx>, t: ScriptType)
    ensures
        type_total(txs, t) <= output_total(txs),
    decreases txs.len(),
{
    if txs.len() > 0 {
        lemma_type_total_le(txs.drop_last(), t);
        lemma_occurrences_le(output_types_of(txs.last()), t);
    }
}

proof fn lemma_output_total_prefix(txs: Seq<RawTx>, i: int)
    requires
        0 <= i <= txs.len(),
    ensures
        output_total(txs.take(i)) <= output_total(txs),
    decreases txs.len(),
{
    if i == txs.len() {
        assert(txs.take(i) =~= txs);
    } else {
        assert(txs.drop_last().take(i) =~= txs.take(i));
        lemma_output_total_prefix(txs.drop_last(), i);
    }
}

/// Analyses every transaction of a block against its undo data, and sums up
/// the block.
pub fn analyze_block(block: &ParsedBlock, undo: &BlockUndo) -> (r: BlockReport)
    requires
        block_analyzable(*block, *undo),
    ensures
        reports_block(r, *block, *undo),
        r.tally.flagged <= r.tally.tx_count,
{
    let ghost txs = block.transactions@;
    let block_hash = to_display_hex(&block.header.block_hash);
    let height = if block.transactions.len() > 0 {
        let cb = &block.transactions[0];
        assert(cb@.inputs[0] == cb.inputs@[0]@);
        decode_bip34_height(cb.inputs[0].script_sig.as_slice())
    } else {
        0
    };
    let mut r = BlockReport::new(block_hash, height);
    let ghost hash = r.block_hash@;
    let mut i: usize = 0;
    while i < block.transactions.len()
        invariant
            txs == block.transactions@,
            block_analyzable(*block, *undo),
            i <= txs.len(),
            r.block_hash@ == hash,
            hash == display_hex(block.header.block_hash@),
            r.height == block_height(txs),
            r.transactions@.len() == i,
            r.fees@.len() == i,
            forall|k: int|
                0 <= k < i ==> analyzes(#[trigger] r.transactions@[k], txs[k], prevouts_of(*undo, k)),
            forall|k: int|
                0 <= k < i ==> #[trigger] r.fees@[k] == (if has_fee(*undo, k) {
                    Some(fee_info(txs[k], prevouts_of(*undo, k)))
                } else {
                    None
                }),
            r.tally.tx_count == i,
            r.tally.flagged <= r.tally.tx_count,
            r.tally.flagged == count_where(r.transactions@, |h: HeuristicResults| h.some_detected()),
            forall|t: ScriptType| #[trigger]
                r.tally.script_types.count(t) == type_total(txs.take(i as int), t),
        decreases txs.len() - i,
    {
        let tx = &block.transactions[i];
        let prevouts = prevouts_for(undo, i);
        let a = analyze_transaction(tx, prevouts);
        let fee = if i > 0 && prevouts.len() > 0 {
            assert(has_fee(*undo, i as int));
            Some(compute_fees(tx, prevouts))
        } else {
            None
        };
        let types = output_script_types(tx);
        proof {
            let pre = txs.take(i as int);
            let nxt = txs.take(i + 1);
            assert(nxt.drop_last() =~= pre);
            assert(types@ =~= output_types_of(txs[i as int]));
            lemma_output_total_prefix(txs, i + 1);
            assert forall|t: ScriptType| #[trigger]
                r.tally.script_types.count(t) + types@.len() <= usize::MAX by {
                lemma_type_total_le(pre, t);
            }
        }
        let ghost before = r.transactions@;
        r.add_tx(a, fee, types.as_slice());
        proof {
            assert(r.transactions@.drop_last() =~= before);
            assert forall|t: ScriptType| #[trigger]
                r.tally.script_types.count(t) == type_total(txs.take(i + 1), t) by {
                assert(txs.take(i + 1).drop_last() =~= txs.take(i as int));
            }
        }
        i = i + 1;
    }
    assert(txs.take(txs.len() as int) =~= txs);
    r
}

/// Whether `analyze_block` can be called on `block` and `undo`.
pub fn is_analyzable(block: &ParsedBlock, undo: &BlockUndo) -> (b: bool)
    ensures
        b == block_analyzable(*block, *undo),
{
    let ghost txs = block.transactions@;
    if block.transactions.len() > 0 {
        let cb = &block.transactions[0];
        assert(cb@.inputs.len() == cb.inputs@.len());
        if cb.inputs.len() == 0 {
            return false;
        }
        assert(cb@.inputs[0] == cb.inputs@[0]@);
        let s = cb.inputs[0].script_sig.as_slice();
        if s.len() > 0 && 9 <= s[0] && s[0] <= 75 && s.len() >= 1 + s[0] as usize {
            return false;
        }
    }
    let mut total: usize = 0;
    let mut i: usize = 0;
    while i < block.transactions.len()
        invariant
            txs == block.transactions@,
            i <= txs.len(),
            total == output_total(txs.take(i as int)),
            forall|k: int|
                0 <= k < i && has_fee(*undo, k) ==> fee_inputs_fit(
                    #[trigger] txs[k],
                    prevouts_of(*undo, k),
                ),
        decreases txs.len() - i,
    {
        let tx = &block.transactions[i];
        proof {
            assert(txs.take(i + 1).drop_last() =~= txs.take(i as int));
            lemma_output_total_prefix(txs, i + 1);
        }
        let n = tx.outputs.len();
        if n > usize::MAX - total {
            return false;
        }
        total = total + n;
        if i > 0 {
            let prevouts = prevouts_for(undo, i);
            if prevouts.len() > 0 {
                if fee_totals(tx, prevouts).is_none() || tx.weight > usize::MAX - 3 {
                    assert(!fee_inputs_fit(txs[i as int], prevouts_of(*undo, i as int)));
                    return false;
                }
            }
        }
        i = i + 1;
    }
    assert(txs.take(txs.len() as int) =~= txs);
    true
}

// ---------------------------------------------------------------------------
// Totals over a file of blocks.
// ---------------------------------------------------------------------------
/// Transactions over all of `rs`.
pub open spec fn file_txs(rs: Seq<BlockReport>) -> nat
    decreases rs.len(),
{
    if rs.len() == 0 {
        0
    } else {
        file_txs(rs.drop_last()) + rs.last().tally.tx_count as nat
    }
}

/// Flagged transactions over all of `rs`.
pub open spec fn file_flagged(rs: Seq<BlockReport>) -> nat
    decreases rs.len(),
{
    if rs.len() == 0 {
        0
    } else {
        file_flagged(rs.drop_last()) + rs.last().tally.flagged as nat
    }
}

/// Outputs of script type `t` over all of `rs`.
pub open spec fn file_type_total(rs: Seq<BlockReport>, t: ScriptType) -> nat
    decreases rs.len(),
{
    if rs.len() == 0 {
        0
    } else {
        file_type_total(rs.drop_last(), t) + rs.last().tally.script_types.count(t)
    }
}

/// The file totals fit in `usize`.
pub open spec fn file_tally_fits(rs: Seq<BlockReport>) -> bool {
    &&& file_txs(rs) <= usize::MAX
    &&& file_flagged(rs) <= usize::MAX
    &&& forall|t: ScriptType| #[trigger] file_type_total(rs, t) <= usize::MAX
}

proof fn lemma_file_prefix(rs: Seq<BlockReport>, i: int)
    requires
        0 <= i <= rs.len(),
    ensures
        file_txs(rs.take(i)) <= file_txs(rs),
        file_flagged(rs.take(i)) <= file_flagged(rs),
        forall|t: ScriptType| #[trigger] file_type_total(rs.take(i), t) <= file_type_total(rs, t),
    decreases rs.len(),
{
    if i == rs.len() {
        assert(rs.take(i) =~= rs);
    } else {
        assert(rs.drop_last().take(i) =~= rs.take(i));
        lemma_file_prefix(rs.drop_last(), i);
    }
}

/// The totals of a file: the sums, over its blocks, of transactions, flagged
/// transactions and outputs of each script type.
pub fn file_tally(reports: &[BlockReport]) -> (t: BlockTally)
    requires
        file_tally_fits(reports@),
    ensures
        t.tx_count == file_txs(reports@),
        t.flagged == file_flagged(reports@),
        forall|ty: ScriptType| #[trigger] t.script_types.count(ty) == file_type_total(reports@, ty),
{
    let ghost rs = reports@;
    let mut total = BlockTally::new();
    let mut i: usize = 0;
    while i < reports.len()
        invariant
            rs == reports@,
            file_tally_fits(rs),
            i <= rs.len(),
            total.tx_count == file_txs(rs.take(i as int)),
            total.flagged == file_flagged(rs.take(i as int)),
            forall|ty: ScriptType| #[trigger]
                total.script_types.count(ty) == file_type_total(rs.take(i as int), ty),
        decreases rs.len() - i,
    {
        let r = &reports[i];
        proof {
            assert(rs.take(i + 1).drop_last() =~= rs.take(i as int));
            lemma_file_prefix(rs, i + 1);
            assert forall|ty: ScriptType| #[trigger]
                total.script_types.count(ty) + r.tally.script_types.count(ty) <= usize::MAX by {
                assert(file_type_total(rs.take(i + 1), ty) <= file_type_total(rs, ty));
            }
        }
        total.tx_count = total.tx_count + r.tally.tx_count;
        total.flagged = total.flagged + r.tally.flagged;
        total.script_types.add_counts(&r.tally.script_types);
        i = i + 1;
    }
    assert(rs.take(rs.len() as int) =~= rs);
    total
}

/// Whether the totals of `reports` fit, so that `file_tally` can be called.
pub fn file_tally_can_fit(reports: &[BlockReport]) -> (b: bool)
    ensures
        b == file_tally_fits(reports@),
{
    let ghost rs = reports@;
    let mut txs: usize = 0;
    let mut flagged: usize = 0;
    let mut types = ScriptTypeCounts::new();
    let mut i: usize = 0;
    while i < reports.len()
        invariant
            rs == reports@,
            i <= rs.len(),
            txs == file_txs(rs.take(i as int)),
            flagged == file_flagged(rs.take(i as int)),
            forall|ty: ScriptType| #[trigger]
                types.count(ty) == file_type_total(rs.take(i as int), ty),
        decreases rs.len() - i,
    {
        let r = &reports[i];
        proof {
            assert(rs.take(i + 1).drop_last() =~= rs.take(i as int));
            lemma_file_prefix(rs, i + 1);
        }
        if r.tally.tx_count > usize::MAX - txs || r.tally.flagged > usize::MAX - flagged {
            return false;
        }
        if !counts_fit(&types, &r.tally.script_types) {
            proof {
                let ty = choose|ty: ScriptType| #[trigger]
                    types.count(ty) + r.tally.script_types.count(ty) > usize::MAX;
                assert(file_type_total(rs.take(i + 1), ty) > usize::MAX);
            }
            return false;
        }
        txs = txs + r.tally.tx_count;
        flagged = flagged + r.tally.flagged;
        types.add_counts(&r.tally.script_types);
        i = i + 1;
    }
    assert(rs.take(rs.len() as int) =~= rs);
    assert forall|ty: ScriptType| #[trigger] file_type_total(rs, ty) <= usize::MAX by {
        assert(types.count(ty) == file_type_total(rs.take(rs.len() as int), ty));
    }
    true
}

/// Whether every count of `a` plus the same count of `b` fits in `usize`.
fn counts_fit(a: &ScriptTypeCounts, b: &ScriptTypeCounts) -> (r: bool)
    ensures
        r == forall|t: ScriptType| #[trigger] a.count(t) + b.count(t) <= usize::MAX,
{
    let r = b.p2pkh <= usize::MAX - a.p2pkh && b.p2sh <= usize::MAX - a.p2sh && b.p2wpkh
        <= usize::MAX - a.p2wpkh && b.p2wsh <= usize::MAX - a.p2wsh && b.p2tr <= usize::MAX
        - a.p2tr && b.op_return <= usize::MAX - a.op_return && b.unknown <= usize::MAX
        - a.unknown;
    proof {
        if !r {
            if b.p2pkh > usize::MAX - a.p2pkh {
                assert(a.count(ScriptType::P2pkh) + b.count(ScriptType::P2pkh) > usize::MAX);
            } else if b.p2sh > usize::MAX - a.p2sh {
                assert(a.count(ScriptType::P2sh) + b.count(ScriptType::P2sh) > usize::MAX);
            } else if b.p2wpkh > usize::MAX - a.p2wpkh {
                assert(a.count(ScriptType::P2wpkh) + b.count(ScriptType::P2wpkh) > usize::MAX);
            } else if b.p2wsh > usize::MAX - a.p2wsh {
                assert(a.count(ScriptType::P2wsh) + b.count(ScriptType::P2wsh) > usize::MAX);
            } else if b.p2tr > usize::MAX - a.p2tr {
                assert(a.count(ScriptType::P2tr) + b.count(ScriptType::P2tr) > usize::MAX);
            } else if b.op_return > usize::MAX - a.op_return {
                assert(a.count(ScriptType::OpReturn) + b.count(ScriptType::OpReturn) > usize::MAX);
            } else {
                assert(a.count(ScriptType::Unknown) + b.count(ScriptType::Unknown) > usize::MAX);
            }
        }
    }
    r
}

// ---------------------------------------------------------------------------
// Laws of the block totals.
// ---------------------------------------------------------------------------
/// All seven counts of `c` added up.
pub open spec fn counted_outputs(c: ScriptTypeCounts) -> nat {
    c.count(ScriptType::P2pkh) + c.count(ScriptType::P2sh) + c.count(ScriptType::P2wpkh) + c.count(
        ScriptType::P2wsh,
    ) + c.count(ScriptType::P2tr) + c.count(ScriptType::OpReturn) + c.count(ScriptType::Unknown)
}

proof fn lemma_occurrences_sum(s: Seq<ScriptType>)
    ensures
        occurrences(s, ScriptType::P2pkh) + occurrences(s, ScriptType::P2sh) + occurrences(
            s,
            ScriptType::P2wpkh,
        ) + occurrences(s, ScriptType::P2wsh) + occurrences(s, ScriptType::P2tr) + occurrences(
            s,
            ScriptType::OpReturn,
        ) + occurrences(s, ScriptType::Unknown) == s.len(),
    decreases s.len(),
{
    if s.len() > 0 {
        lemma_occurrences_sum(s.drop_last());
    }
}

proof fn lemma_type_totals_sum(txs: Seq<RawTx>)
    ensures
        type_total(txs, ScriptType::P2pkh) + type_total(txs, ScriptType::P2sh) + type_total(
            txs,
            ScriptType::P2wpkh,
        ) + type_total(txs, ScriptType::P2wsh) + type_total(txs, ScriptType::P2tr) + type_total(
            txs,
            ScriptType::OpReturn,
        ) + type_total(txs, ScriptType::Unknown) == output_total(txs),
    decreases txs.len(),
{
    if txs.len() > 0 {
        lemma_type_totals_sum(txs.drop_last());
        lemma_occurrences_sum(output_types_of(txs.last()));
    }
}

/// Every output of a block is counted under exactly one script type: the
/// seven counts of a block report add up to the block's outputs.
pub proof fn law_every_output_counted_once(r: BlockReport, block: ParsedBlock, undo: BlockUndo)
    requires
        reports_block(r, block, undo),
    ensures
        counted_outputs(r.tally.script_types) == output_total(block.transactions@),
{
    lemma_type_totals_sum(block.transactions@);
    assert(r.tally.script_types.count(ScriptType::P2pkh) == type_total(block.transactions@, ScriptType::P2pkh));
    assert(r.tally.script_types.count(ScriptType::P2sh) == type_total(block.transactions@, ScriptType::P2sh));
    assert(r.tally.script_types.count(ScriptType::P2wpkh) == type_total(block.transactions@, ScriptType::P2wpkh));
    assert(r.tally.script_types.count(ScriptType::P2wsh) == type_total(block.transactions@, ScriptType::P2wsh));
    assert(r.tally.script_types.count(ScriptType::P2tr) == type_total(block.transactions@, ScriptType::P2tr));
    assert(r.tally.script_types.count(ScriptType::OpReturn) == type_total(block.transactions@, ScriptType::OpReturn));
    assert(r.tally.script_types.count(ScriptType::Unknown) == type_total(block.transactions@, ScriptType::Unknown));
}

} // verus!
