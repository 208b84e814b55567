use vstd::prelude::*;

use crate::analysis::classifier::{HeuristicResults, TxAnalysis};
use crate::analysis::classify::ScriptType;

verus! {

/// How many outputs of each script type were seen.
#[derive(Debug, Clone, Copy)]
pub struct ScriptTypeCounts {
    pub p2pkh: usize,
    pub p2sh: usize,
    pub p2wpkh: usize,
    pub p2wsh: usize,
    pub p2tr: usize,
    pub op_return: usize,
    pub unknown: usize,
}

impl ScriptTypeCounts {
    pub open spec fn count(self, t: ScriptType) -> nat {
        match t {
            ScriptType::P2pkh => self.p2pkh as nat,
            ScriptType::P2sh => self.p2sh as nat,
            ScriptType::P2wpkh => self.p2wpkh as nat,
            ScriptType::P2wsh => self.p2wsh as nat,
            ScriptType::P2tr => self.p2tr as nat,
            ScriptType::OpReturn => self.op_return as nat,
            ScriptType::Unknown => self.unknown as nat,
        }
    }

    /// No outputs seen.
    pub fn new() -> (c: Self)
        ensures
            forall|t: ScriptType| c.count(t) == 0,
    {
        ScriptTypeCounts { p2pkh: 0, p2sh: 0, p2wpkh: 0, p2wsh: 0, p2tr: 0, op_return: 0, unknown: 0 }
    }

    /// The count of one script type.
    pub fn get(&self, t: ScriptType) -> (n: usize)
        ensures
            n == self.count(t),
    {
        match t {
            ScriptType::P2pkh => self.p2pkh,
            ScriptType::P2sh => self.p2sh,
            ScriptType::P2wpkh => self.p2wpkh,
            ScriptType::P2wsh => self.p2wsh,
            ScriptType::P2tr => self.p2tr,
            ScriptType::OpReturn => self.op_return,
            ScriptType::Unknown => self.unknown,
        }
    }

    /// Counts one more output of type `t`.
    pub fn add(&mut self, t: ScriptType)
        requires
            old(self).count(t) < usize::MAX,
        ensures
            forall|u: ScriptType|
                #[trigger] final(self).count(u) == old(self).count(u) + (if u == t {
                    1nat
                } else {
                    0nat
                }),
    {
        match t {
            ScriptType::P2pkh => self.p2pkh = self.p2pkh + 1,
            ScriptType::P2sh => self.p2sh = self.p2sh + 1,
            ScriptType::P2wpkh => self.p2wpkh = self.p2wpkh + 1,
            ScriptType::P2wsh => self.p2wsh = self.p2wsh + 1,
            ScriptType::P2tr => self.p2tr = self.p2tr + 1,
            ScriptType::OpReturn => self.op_return = self.op_return + 1,
            ScriptType::Unknown => self.unknown = self.unknown + 1,
        }
    }
}

impl ScriptTypeCounts {
    /// Adds the counts of `other` to these.
    pub fn add_counts(&mut self, other: &ScriptTypeCounts)
        requires
            forall|t: ScriptType| #[trigger] old(self).count(t) + other.count(t) <= usize::MAX,
        ensures
            forall|t: ScriptType|
                #[trigger] final(self).count(t) == old(self).count(t) + other.count(t),
    {
        assert(self.count(ScriptType::P2pkh) + other.count(ScriptType::P2pkh) <= usize::MAX);
        assert(self.count(ScriptType::P2sh) + other.count(ScriptType::P2sh) <= usize::MAX);
        assert(self.count(ScriptType::P2wpkh) + other.count(ScriptType::P2wpkh) <= usize::MAX);
        assert(self.count(ScriptType::P2wsh) + other.count(ScriptType::P2wsh) <= usize::MAX);
        assert(self.count(ScriptType::P2tr) + other.count(ScriptType::P2tr) <= usize::MAX);
        assert(self.count(ScriptType::OpReturn) + other.count(ScriptType::OpReturn) <= usize::MAX);
        assert(self.count(ScriptType::Unknown) + other.count(ScriptType::Unknown) <= usize::MAX);
        self.p2pkh = self.p2pkh + other.p2pkh;
        self.p2sh = self.p2sh + other.p2sh;
        self.p2wpkh = self.p2wpkh + other.p2wpkh;
        self.p2wsh = self.p2wsh + other.p2wsh;
        self.p2tr = self.p2tr + other.p2tr;
        self.op_return = self.op_return + other.op_return;
        self.unknown = self.unknown + other.unknown;
    }
}

/// How many entries of `types` are `t`.
pub open spec fn occurrences(types: Seq<ScriptType>, t: ScriptType) -> nat
    decreases types.len(),
{
    if types.len() == 0 {
        0
    } else {
        occurrences(types.drop_last(), t) + (if types.last() == t {
            1nat
        } else {
            0nat
        })
    }
}

/// Running totals of one block: transactions, flagged transactions, and
/// output script types.
#[derive(Debug, Clone, Copy)]
pub struct BlockTally {
    pub tx_count: usize,
    pub flagged: usize,
    pub script_types: ScriptTypeCounts,
}

impl BlockTally {
    /// The counters stay below `usize::MAX` after one more transaction with
    /// `n` outputs.
    pub open spec fn has_room(self, n: nat) -> bool {
        &&& self.tx_count < usize::MAX
        &&& forall|t: ScriptType| #[trigger] self.script_types.count(t) + n <= usize::MAX
    }

    pub fn new() -> (b: Self)
        ensures
            b.tx_count == 0,
            b.flagged == 0,
            forall|t: ScriptType| b.script_types.count(t) == 0,
    {
        BlockTally { tx_count: 0, flagged: 0, script_types: ScriptTypeCounts::new() }
    }

    /// Adds one transaction: it counts as flagged when any heuristic fired,
    /// and each of its outputs counts under its script type.
    pub fn add_tx(&mut self, heuristics: &HeuristicResults, output_types: &[ScriptType])
        requires
            old(self).has_room(output_types@.len()),
            old(self).flagged <= old(self).tx_count,
        ensures
            final(self).tx_count == old(self).tx_count + 1,
            final(self).flagged == old(self).flagged + (if heuristics.some_detected() {
                1nat
            } else {
                0nat
            }),
            final(self).flagged <= final(self).tx_count,
            forall|t: ScriptType|
                #[trigger] final(self).script_types.count(t) == old(self).script_types.count(t)
                    + occurrences(output_types@, t),
    {
        if heuristics.any_detected() {
            self.flagged = self.flagged + 1;
        }
        self.tx_count = self.tx_count + 1;
        let ghost start = self.script_types;
        let ghost tc = self.tx_count;
        let ghost fl = self.flagged;
        let mut i: usize = 0;
        while i < output_types.len()
            invariant
                self.tx_count == tc,
                self.flagged == fl,
                i <= output_types@.len(),
                forall|t: ScriptType| #[trigger] start.count(t) + output_types@.len() <= usize::MAX,
                forall|t: ScriptType|
                    #[trigger] self.script_types.count(t) == start.count(t) + occurrences(
                        output_types@.take(i as int),
                        t,
                    ),
                forall|t: ScriptType| occurrences(#[trigger] output_types@.take(i as int), t) <= i,
            decreases output_types@.len() - i,
        {
            let t = output_types[i];
            proof {
                assert(output_types@.take(i + 1).drop_last() =~= output_types@.take(i as int));
                assert(start.count(t) + output_types@.len() <= usize::MAX);
            }
            self.script_types.add(t);
            proof {
                let nxt = output_types@.take(i + 1);
                assert forall|u: ScriptType| #[trigger] occurrences(nxt, u) <= i + 1 by {
                    assert(occurrences(output_types@.take(i as int), u) <= i);
                }
            }
            i = i + 1;
        }
        assert(output_types@.take(output_types@.len() as int) =~= output_types@);
    }
}

/// How many transactions of `txs` satisfy `p`.
pub open spec fn count_where(txs: Seq<TxAnalysis>, p: spec_fn(HeuristicResults) -> bool) -> nat
    decreases txs.len(),
{
    if txs.len() == 0 {
        0
    } else {
        count_where(txs.drop_last(), p) + (if p(txs.last().heuristics) {
            1nat
        } else {
            0nat
        })
    }
}

/// How many transactions each heuristic flagged.
#[derive(Debug, Clone, Copy)]
pub struct HeuristicHits {
    pub cioh: usize,
    pub change_detection: usize,
    pub coinjoin: usize,
    pub consolidation: usize,
    pub address_reuse: usize,
    pub self_transfer: usize,
    pub round_number_payment: usize,
}

/// Counts, for each heuristic, the transactions it flagged.
pub fn count_heuristic_hits(txs: &[TxAnalysis]) -> (h: HeuristicHits)
    ensures
        h.cioh == count_where(txs@, |r: HeuristicResults| r.cioh.detected),
        h.change_detection == count_where(txs@, |r: HeuristicResults| r.change_detection.detected),
        h.coinjoin == count_where(txs@, |r: HeuristicResults| r.coinjoin.detected),
        h.consolidation == count_where(txs@, |r: HeuristicResults| r.consolidation.detected),
        h.address_reuse == count_where(txs@, |r: HeuristicResults| r.address_reuse.detected),
        h.self_transfer == count_where(txs@, |r: HeuristicResults| r.self_transfer.detected),
        h.round_number_payment == count_where(
            txs@,
            |r: HeuristicResults| r.round_number_payment.detected,
        ),
{
    let ghost s = txs@;
    let mut h = HeuristicHits {
        cioh: 0,
        change_detection: 0,
        coinjoin: 0,
        consolidation: 0,
        address_reuse: 0,
        self_transfer: 0,
        round_number_payment: 0,
    };
    let mut i: usize = 0;
    while i < txs.len()
        invariant
            s == txs@,
            i <= s.len(),
            h.cioh == count_where(s.take(i as int), |r: HeuristicResults| r.cioh.detected),
            h.change_detection == count_where(
                s.take(i as int),
                |r: HeuristicResults| r.change_detection.detected,
            ),
            h.coinjoin == count_where(s.take(i as int), |r: HeuristicResults| r.coinjoin.detected),
            h.consolidation == count_where(
                s.take(i as int),
                |r: HeuristicResults| r.consolidation.detected,
            ),
            h.address_reuse == count_where(
                s.take(i as int),
                |r: HeuristicResults| r.address_reuse.detected,
            ),
            h.self_transfer == count_where(
                s.take(i as int),
                |r: HeuristicResults| r.self_transfer.detected,
            ),
            h.round_number_payment == count_where(
                s.take(i as int),
                |r: HeuristicResults| r.round_number_payment.detected,
            ),
            h.cioh <= i && h.change_detection <= i && h.coinjoin <= i && h.consolidation <= i
                && h.address_reuse <= i && h.self_transfer <= i && h.round_number_payment <= i,
        decreases s.len() - i,
    {
        assert(s.take(i + 1).drop_last() =~= s.take(i as int));
        let r = &txs[i].heuristics;
        if r.cioh.detected {
            h.cioh = h.cioh + 1;
        }
        if r.change_detection.detected {
            h.change_detection = h.change_detection + 1;
        }
        if r.coinjoin.detected {
            h.coinjoin = h.coinjoin + 1;
        }
        if r.consolidation.detected {
            h.consolidation = h.consolidation + 1;
        }
        if r.address_reuse.detected {
            h.address_reuse = h.address_reuse + 1;
        }
        if r.self_transfer.detected {
            h.self_transfer = h.self_transfer + 1;
        }
        if r.round_number_payment.detected {
            h.round_number_payment = h.round_number_payment + 1;
        }
        i = i + 1;
    }
    assert(s.take(s.len() as int) =~= s);
    h
}

/// How many transactions of `txs` carry a label with the text of `label`.
pub open spec fn label_count(txs: Seq<TxAnalysis>, label: &'static str) -> nat
    decreases txs.len(),
{
    if txs.len() == 0 {
        0
    } else {
        label_count(txs.drop_last(), label) + (if txs.last().classification@ == label@ {
            1nat
        } else {
            0nat
        })
    }
}

fn count_label(txs: &[TxAnalysis], label: &'static str) -> (n: usize)
    ensures
        n == label_count(txs@, label),
{
    let ghost s = txs@;
    let wanted = String::from_str(label);
    let mut n: usize = 0;
    let mut i: usize = 0;
    while i < txs.len()
        invariant
            s == txs@,
            wanted@ == label@,
            i <= s.len(),
            n == label_count(s.take(i as int), label),
            n <= i,
        decreases s.len() - i,
    {
        assert(s.take(i + 1).drop_last() =~= s.take(i as int));
        let have = String::from_str(txs[i].classification);
        if have == wanted {
            n = n + 1;
        }
        i = i + 1;
    }
    assert(s.take(s.len() as int) =~= s);
    n
}

/// The classification labels, in alphabetical order.
pub open spec fn labels() -> Seq<&'static str> {
    seq![
        "batch_payment",
        "coinbase",
        "coinjoin",
        "consolidation",
        "self_transfer",
        "simple_payment",
        "unknown",
    ]
}

/// For the first `k` labels in alphabetical order, each label that some
/// transaction carries, with how many carry it.
pub open spec fn label_breakdown(txs: Seq<TxAnalysis>, k: int) -> Seq<(&'static str, usize)>
    decreases k,
{
    if k <= 0 {
        Seq::empty()
    } else {
        let prev = label_breakdown(txs, k - 1);
        let c = label_count(txs, labels()[k - 1]);
        if c > 0 {
            prev.push((labels()[k - 1], c as usize))
        } else {
            prev
        }
    }
}

fn push_label_count(
    out: &mut Vec<(&'static str, usize)>,
    txs: &[TxAnalysis],
    k: usize,
    label: &'static str,
)
    requires
        1 <= k <= 7,
        label == labels()[k - 1],
        old(out)@ == label_breakdown(txs@, k - 1),
    ensures
        final(out)@ == label_breakdown(txs@, k as int),
{
    let c = count_label(txs, label);
    if c > 0 {
        out.push((label, c));
    }
}

/// The classification breakdown: each label that occurs, in alphabetical
/// order, with its number of transactions.
pub fn count_classifications(txs: &[TxAnalysis]) -> (counts: Vec<(&'static str, usize)>)
    ensures
        counts@ == label_breakdown(txs@, 7),
{
    let mut out: Vec<(&'static str, usize)> = Vec::new();
    assert(out@ =~= label_breakdown(txs@, 0));
    push_label_count(&mut out, txs, 1, "batch_payment");
    push_label_count(&mut out, txs, 2, "coinbase");
    push_label_count(&mut out, txs, 3, "coinjoin");
    push_label_count(&mut out, txs, 4, "consolidation");
    push_label_count(&mut out, txs, 5, "self_transfer");
    push_label_count(&mut out, txs, 6, "simple_payment");
    push_label_count(&mut out, txs, 7, "unknown");
    out
}

} // verus!
