use vstd::prelude::*;

use crate::analysis::address_reuse::{self, reused_addresses, strictly_sorted, texts};
use crate::analysis::change_detection::{self, amount, change_of, is_round_amount, ChangeResult};
use crate::analysis::cioh;
use crate::analysis::classifier::{classification_of, classify, HeuristicResults, TxAnalysis};
use crate::analysis::classify::{
    is_coinbase_tx, real_output_count, script_type, script_type_of, uniform_type, ScriptType,
};
use crate::analysis::coinjoin::{max_share, most_shared_index, share_count, lemma_most_shared_is_max};
use crate::analysis::coinjoin::{self, coinjoin_of, MIN_EQUAL_OUTPUTS};
use crate::analysis::consolidation::{self, consolidation_type};
use crate::analysis::round_number::{self, round_payment_indices};
use crate::analysis::self_transfer::{self, self_transfer_type};
use crate::parser::tx::RawTx;
use crate::parser::undo::{BlockUndo, UndoCoin};

verus! {

/// `h` is what the seven heuristics report for `tx` spending `prevouts`.
pub open spec fn heuristics_of(tx: RawTx, prevouts: Seq<UndoCoin>, h: HeuristicResults) -> bool {
    &&& h.cioh.input_count == tx@.inputs.len()
    &&& h.cioh.detected == (tx@.inputs.len() >= 2)
    &&& h.change_detection == change_of(tx, prevouts)
    &&& h.coinjoin == coinjoin_of(tx@)
    &&& h.consolidation.input_count == tx@.inputs.len()
    &&& h.consolidation.output_count == tx@.outputs.len()
    &&& h.consolidation.detected == consolidation_type(tx, prevouts) is Some
    &&& h.consolidation.uniform_script_type == (match consolidation_type(tx, prevouts) {
        Some(t) => Some(t.label()),
        None => None::<&'static str>,
    })
    &&& texts(h.address_reuse.reused_addresses@).to_set() == reused_addresses(tx, prevouts)
    &&& strictly_sorted(texts(h.address_reuse.reused_addresses@))
    &&& h.address_reuse.detected == (h.address_reuse.reused_addresses@.len() > 0)
    &&& h.self_transfer.detected == self_transfer_type(tx, prevouts) is Some
    &&& h.self_transfer.uniform_script_type == (match self_transfer_type(tx, prevouts) {
        Some(t) => Some(t.label()),
        None => None::<&'static str>,
    })
    &&& h.round_number_payment.round_output_indices@ == (if is_coinbase_tx(tx@) {
        Seq::empty()
    } else {
        round_payment_indices(tx@.outputs, tx@.outputs.len() as int)
    })
    &&& h.round_number_payment.detected == (h.round_number_payment.round_output_indices@.len() > 0)
}

/// Runs every heuristic on one transaction and classifies it.
pub fn analyze_transaction(tx: &RawTx, prevouts: &[UndoCoin]) -> (a: TxAnalysis)
    ensures
        a.txid@ == tx.txid@,
        heuristics_of(*tx, prevouts@, a.heuristics),
        a.classification == classification_of(tx@, a.heuristics),
{
    let h = HeuristicResults {
        cioh: cioh::detect(tx),
        change_detection: change_detection::detect(tx, prevouts),
        coinjoin: coinjoin::detect(tx),
        consolidation: consolidation::detect(tx, prevouts),
        address_reuse: address_reuse::detect(tx, prevouts),
        self_transfer: self_transfer::detect(tx, prevouts),
        round_number_payment: round_number::detect(tx),
    };
    let classification = classify(tx, &h);
    TxAnalysis { txid: tx.txid.clone(), heuristics: h, classification }
}

/// The spent outputs of transaction `ti` of a block: none for the coinbase
/// (index 0) or past the end of the undo data, else the undo entry `ti - 1`.
pub open spec fn prevouts_of(undo: BlockUndo, ti: int) -> Seq<UndoCoin> {
    if ti == 0 || ti - 1 >= undo.tx_undos@.len() {
        Seq::<UndoCoin>::empty()
    } else {
        undo.tx_undos@[ti - 1].prevouts@
    }
}

/// The spent outputs of transaction `ti` of a block.
pub fn prevouts_for(undo: &BlockUndo, ti: usize) -> (p: &[UndoCoin])
    ensures
        p@ == prevouts_of(*undo, ti as int),
{
    if ti == 0 || ti - 1 >= undo.tx_undos.len() {
        let empty: &[UndoCoin] = &[];
        assert(empty@ =~= Seq::<UndoCoin>::empty());
        empty
    } else {
        undo.tx_undos[ti - 1].prevouts.as_slice()
    }
}

/// The script type of each output, in order.
pub fn output_script_types(tx: &RawTx) -> (types: Vec<ScriptType>)
    ensures
        types@.len() == tx@.outputs.len(),
        forall|i: int|
            0 <= i < types@.len() ==> #[trigger] types@[i] == script_type_of(
                tx@.outputs[i].script_pubkey,
            ),
{
    let ghost outs = tx@.outputs;
    let mut types: Vec<ScriptType> = Vec::new();
    let mut i: usize = 0;
    while i < tx.outputs.len()
        invariant
            outs == tx@.outputs,
            i <= outs.len(),
            types@.len() == i,
            forall|k: int|
                0 <= k < i ==> #[trigger] types@[k] == script_type_of(outs[k].script_pubkey),
        decreases outs.len() - i,
    {
        let o = &tx.outputs[i];
        assert(o@ == outs[i as int]);
        types.push(script_type(o.script_pubkey.as_slice()));
        i = i + 1;
    }
    types
}

/// A coinbase transaction is labelled `coinbase` and no heuristic flags it:
/// with its single input it is no CIOH match, and change detection,
/// CoinJoin, consolidation, address reuse, self-transfer and round-number
/// payments all report nothing.
pub proof fn law_coinbase_is_never_flagged(tx: RawTx, prevouts: Seq<UndoCoin>, a: TxAnalysis)
    requires
        is_coinbase_tx(tx@),
        heuristics_of(tx, prevouts, a.heuristics),
        a.classification == classification_of(tx@, a.heuristics),
    ensures
        a.classification == "coinbase",
        !a.heuristics.some_detected(),
{
    assert(texts(a.heuristics.address_reuse.reused_addresses@).to_set() =~= Set::empty());
    let t = texts(a.heuristics.address_reuse.reused_addresses@);
    if t.len() > 0 {
        assert(t.contains(t[0]));
        assert(t.to_set().contains(t[0]));
    }
}

/// Consolidation is a special case of self-transfer: a transaction flagged
/// as a consolidation is also flagged as a self-transfer, with the same
/// script type.
pub proof fn law_consolidation_is_self_transfer(tx: RawTx, prevouts: Seq<UndoCoin>)
    requires
        consolidation_type(tx, prevouts) is Some,
    ensures
        self_transfer_type(tx, prevouts) == consolidation_type(tx, prevouts),
{
    lemma_real_count_bounded(tx@.outputs);
}

proof fn lemma_real_count_bounded(outs: Seq<crate::parser::tx::TxOutputModel>)
    ensures
        real_output_count(outs) <= outs.len(),
    decreases outs.len(),
{
    if outs.len() > 0 {
        lemma_real_count_bounded(outs.drop_last());
    }
}

proof fn lemma_value_count_le_real(outs: Seq<crate::parser::tx::TxOutputModel>, v: u64)
    ensures
        crate::analysis::coinjoin::value_count(outs, v) <= real_output_count(outs),
    decreases outs.len(),
{
    if outs.len() > 0 {
        lemma_value_count_le_real(outs.drop_last(), v);
    }
}

/// A consolidation is labelled `consolidation`, ahead of self-transfer: it
/// is never a coinbase, and never a CoinJoin, whose equal outputs alone
/// would outnumber the two outputs that a consolidation may have.
pub proof fn law_consolidation_is_labelled_consolidation(
    tx: RawTx,
    prevouts: Seq<UndoCoin>,
    a: TxAnalysis,
)
    requires
        heuristics_of(tx, prevouts, a.heuristics),
        a.classification == classification_of(tx@, a.heuristics),
        a.heuristics.consolidation.detected,
    ensures
        !a.heuristics.coinjoin.detected,
        a.classification == "consolidation",
{
    let outs = tx@.outputs;
    if coinjoin_of(tx@).detected {
        let b = most_shared_index(outs, outs.len() as int);
        lemma_value_count_le_real(outs, outs[b].value as u64);
    }
}

/// A CoinJoin takes priority over every label but `coinbase`: a transaction
/// whose CoinJoin heuristic fires is labelled `coinjoin`, whatever the
/// consolidation and self-transfer heuristics say.
pub proof fn law_coinjoin_is_labelled_coinjoin(tx: RawTx, prevouts: Seq<UndoCoin>, a: TxAnalysis)
    requires
        heuristics_of(tx, prevouts, a.heuristics),
        a.classification == classification_of(tx@, a.heuristics),
        a.heuristics.coinjoin.detected,
    ensures
        a.classification == "coinjoin",
{
}

/// The label follows the documented priority: coinbase, then CoinJoin,
/// consolidation and self-transfer, and otherwise the number of outputs
/// that are not OP_RETURN decides: more than two is a batch payment, one or
/// two a simple payment, none unknown.
pub proof fn law_classification_priority(tx: RawTx, prevouts: Seq<UndoCoin>, a: TxAnalysis)
    requires
        heuristics_of(tx, prevouts, a.heuristics),
        a.classification == classification_of(tx@, a.heuristics),
    ensures
        ({
            let h = a.heuristics;
            let plain = !is_coinbase_tx(tx@) && !h.coinjoin.detected && !h.consolidation.detected
                && !h.self_transfer.detected;
            let outputs_kept = real_output_count(tx@.outputs);
            &&& is_coinbase_tx(tx@) ==> a.classification == "coinbase"
            &&& !is_coinbase_tx(tx@) && h.coinjoin.detected ==> a.classification == "coinjoin"
            &&& !is_coinbase_tx(tx@) && !h.coinjoin.detected && h.consolidation.detected
                ==> a.classification == "consolidation"
            &&& !is_coinbase_tx(tx@) && !h.coinjoin.detected && !h.consolidation.detected
                && h.self_transfer.detected ==> a.classification == "self_transfer"
            &&& plain && outputs_kept > 2 ==> a.classification == "batch_payment"
            &&& plain && 1 <= outputs_kept <= 2 ==> a.classification == "simple_payment"
            &&& plain && outputs_kept == 0 ==> a.classification == "unknown"
        }),
{
}

/// Every CoinJoin is also a Common Input Ownership match (its inputs come
/// from several parties, which is exactly what CIOH misreads).
pub proof fn law_coinjoin_implies_cioh(tx: RawTx, prevouts: Seq<UndoCoin>, h: HeuristicResults)
    requires
        heuristics_of(tx, prevouts, h),
        h.coinjoin.detected,
    ensures
        h.cioh.detected,
{
}

/// A CoinJoin report is truthful: the reported value is carried by exactly
/// the reported number of counted outputs, no value is carried by more,
/// and there are at least three of them.
pub proof fn law_coinjoin_denomination_is_most_common(tx: RawTx)
    requires
        coinjoin_of(tx@).detected,
        tx@.outputs.len() <= usize::MAX,
    ensures
        ({
            let r = coinjoin_of(tx@);
            let outs = tx@.outputs;
            &&& r.equal_output_count->Some_0 >= MIN_EQUAL_OUTPUTS
            &&& r.equal_output_count->Some_0 == crate::analysis::coinjoin::value_count(
                outs,
                r.equal_output_value->Some_0,
            )
            &&& forall|j: int| 0 <= j < outs.len() ==> #[trigger] share_count(outs, j)
                <= r.equal_output_count->Some_0
        }),
{
    let outs = tx@.outputs;
    lemma_most_shared_is_max(outs, outs.len() as int);
    lemma_share_count_bounded(outs, most_shared_index(outs, outs.len() as int));
}

proof fn lemma_value_count_bounded(outs: Seq<crate::parser::tx::TxOutputModel>, v: u64)
    ensures
        crate::analysis::coinjoin::value_count(outs, v) <= outs.len(),
    decreases outs.len(),
{
    if outs.len() > 0 {
        lemma_value_count_bounded(outs.drop_last(), v);
    }
}

proof fn lemma_share_count_bounded(outs: Seq<crate::parser::tx::TxOutputModel>, i: int)
    requires
        0 <= i < outs.len(),
    ensures
        share_count(outs, i) <= outs.len(),
{
    if 0 <= i < outs.len() {
        lemma_value_count_bounded(outs, outs[i].value as u64);
    }
}

/// Change detection only names an existing output, and only for
/// transactions that are not coinbase and have at least two outputs.
pub proof fn law_change_index_is_an_output(tx: RawTx, prevouts: Seq<UndoCoin>)
    requires
        change_of(tx, prevouts).detected,
        tx@.outputs.len() <= usize::MAX,
    ensures
        !is_coinbase_tx(tx@),
        tx@.outputs.len() >= 2,
        change_of(tx, prevouts).likely_change_index->Some_0 < tx@.outputs.len(),
{
    let outs = tx@.outputs;
    let n = outs.len() as int;
    crate::analysis::change_detection::lemma_last_largest_is_largest(outs, n, false);
    crate::analysis::change_detection::lemma_last_largest_is_largest(outs, n, true);
    lemma_first_non_round_bounded(outs, n);
    lemma_matching_bounded(tx, prevouts);
    crate::analysis::change_detection::lemma_non_round_exists(outs, n);
}

/// Each change method picks the output that it is about, with its own
/// confidence: a script-type match (high) names the one output of the
/// inputs' common script type; a round-number choice (medium) names an
/// output whose value is not round; the fallback (low) names an output of
/// largest value.
pub proof fn law_change_choice_fits_method(tx: RawTx, prevouts: Seq<UndoCoin>)
    requires
        change_of(tx, prevouts).detected,
        tx@.outputs.len() <= usize::MAX,
    ensures
        ({
            let r = change_of(tx, prevouts);
            let outs = tx@.outputs;
            let i = r.likely_change_index->Some_0 as int;
            ||| r.method == Some("script_type_match") && r.confidence == Some("high")
                && uniform_type(prevouts) is Some && script_type_of(outs[i].script_pubkey)
                == uniform_type(prevouts)->Some_0
            ||| r.method == Some("round_number") && r.confidence == Some("medium")
                && !crate::analysis::change_detection::is_round_amount(
                crate::analysis::change_detection::amount(outs[i]),
            )
            ||| r.method == Some("largest_output") && r.confidence == Some("low") && forall|j: int|
                0 <= j < outs.len() ==> crate::analysis::change_detection::amount(#[trigger] outs[j])
                    <= crate::analysis::change_detection::amount(outs[i])
        }),
{
    let outs = tx@.outputs;
    let n = outs.len() as int;
    law_change_index_is_an_output(tx, prevouts);
    crate::analysis::change_detection::lemma_last_largest_is_largest(outs, n, false);
    crate::analysis::change_detection::lemma_last_largest_is_largest(outs, n, true);
    crate::analysis::change_detection::lemma_non_round_exists(outs, n);
    lemma_first_non_round_is_non_round(outs, n);
    let r = change_of(tx, prevouts);
    match crate::analysis::change_detection::script_match_index(outs, prevouts) {
        Some(k) => {
            let t = uniform_type(prevouts)->Some_0;
            lemma_matching_in_range(outs, t, n);
            let m = crate::analysis::change_detection::matching_indices(outs, t, n);
            assert(m[0] == k);
            assert(r.likely_change_index->Some_0 as int == k);
        },
        None => {
            match crate::analysis::change_detection::round_number_index(outs) {
                Some(k) => {
                    lemma_first_non_round_bounded(outs, n);
                    assert(0 <= k < n);
                    assert(r.likely_change_index->Some_0 as int == k);
                },
                None => {},
            }
        },
    }
}

proof fn lemma_matching_complete(
    outs: Seq<crate::parser::tx::TxOutputModel>,
    t: ScriptType,
    n: int,
    j: int,
)
    requires
        0 <= j < n <= outs.len(),
        script_type_of(outs[j].script_pubkey) == t,
    ensures
        crate::analysis::change_detection::matching_indices(outs, t, n).contains(j),
    decreases n,
{
    let m = crate::analysis::change_detection::matching_indices(outs, t, n);
    if j == n - 1 {
        assert(m.last() == j);
        assert(m[m.len() - 1] == j);
    } else {
        lemma_matching_complete(outs, t, n - 1, j);
        let prev = crate::analysis::change_detection::matching_indices(outs, t, n - 1);
        let k = choose|k: int| 0 <= k < prev.len() && prev[k] == j;
        assert(m[k] == j);
    }
}

proof fn lemma_two_non_round(outs: Seq<crate::parser::tx::TxOutputModel>, n: int, i: int, j: int)
    requires
        0 <= i < j < n <= outs.len(),
        !crate::analysis::change_detection::is_round_amount(
            crate::analysis::change_detection::amount(outs[i]),
        ),
        !crate::analysis::change_detection::is_round_amount(
            crate::analysis::change_detection::amount(outs[j]),
        ),
    ensures
        crate::analysis::change_detection::round_count(outs, n) + 2 <= n,
    decreases n,
{
    crate::analysis::change_detection::lemma_non_round_exists(outs, n - 1);
    if j < n - 1 {
        lemma_two_non_round(outs, n - 1, i, j);
    } else {
        lemma_one_non_round(outs, n - 1, i);
    }
}

proof fn lemma_one_non_round(outs: Seq<crate::parser::tx::TxOutputModel>, n: int, i: int)
    requires
        0 <= i < n <= outs.len(),
        !crate::analysis::change_detection::is_round_amount(
            crate::analysis::change_detection::amount(outs[i]),
        ),
    ensures
        crate::analysis::change_detection::round_count(outs, n) + 1 <= n,
    decreases n,
{
    crate::analysis::change_detection::lemma_non_round_exists(outs, n - 1);
    if i < n - 1 {
        lemma_one_non_round(outs, n - 1, i);
    }
}

/// The output that change detection names is the one its method singles
/// out: with a script-type match, the only output of the inputs' type; with
/// one round output, the last of the largest non-round outputs; with one
/// non-round output, that output, all others being round; and in the
/// fallback, the last of the largest outputs.
pub proof fn law_change_choice_is_the_singled_out_output(tx: RawTx, prevouts: Seq<UndoCoin>)
    requires
        change_of(tx, prevouts).detected,
        tx@.outputs.len() <= usize::MAX,
    ensures
        ({
            let r = change_of(tx, prevouts);
            let outs = tx@.outputs;
            let n = outs.len() as int;
            let i = r.likely_change_index->Some_0 as int;
            let rc = crate::analysis::change_detection::round_count(outs, n);
            &&& r.method == Some("script_type_match") ==> forall|j: int|
                0 <= j < n && j != i ==> script_type_of(#[trigger] outs[j].script_pubkey)
                    != script_type_of(outs[i].script_pubkey)
            &&& r.method == Some("round_number") && rc == 1 ==> !is_round_amount(amount(outs[i]))
                && forall|j: int|
                0 <= j < n && !is_round_amount(amount(#[trigger] outs[j])) ==> amount(outs[j])
                    <= amount(outs[i]) && (j > i ==> amount(outs[j]) < amount(outs[i]))
            &&& r.method == Some("round_number") && rc != 1 ==> !is_round_amount(amount(outs[i]))
                && forall|j: int| 0 <= j < n && j != i ==> is_round_amount(amount(#[trigger] outs[j]))
            &&& r.method == Some("largest_output") ==> forall|j: int|
                0 <= j < n ==> amount(#[trigger] outs[j]) <= amount(outs[i]) && (j > i ==> amount(
                    outs[j],
                ) < amount(outs[i]))
        }),
{
    reveal_strlit("round_number");
    reveal_strlit("script_type_match");
    reveal_strlit("largest_output");
    assert("round_number"@.len() != "script_type_match"@.len());
    assert("round_number"@.len() != "largest_output"@.len());
    assert("script_type_match"@.len() != "largest_output"@.len());
    law_change_index_is_an_output(tx, prevouts);
    law_change_choice_fits_method(tx, prevouts);
    let r = change_of(tx, prevouts);
    let outs = tx@.outputs;
    let n = outs.len() as int;
    let i = r.likely_change_index->Some_0 as int;
    crate::analysis::change_detection::lemma_last_largest_is_largest(outs, n, false);
    crate::analysis::change_detection::lemma_last_largest_is_largest(outs, n, true);
    crate::analysis::change_detection::lemma_non_round_exists(outs, n);
    match crate::analysis::change_detection::script_match_index(outs, prevouts) {
        Some(k) => {
            let t = uniform_type(prevouts)->Some_0;
            lemma_matching_in_range(outs, t, n);
            let m = crate::analysis::change_detection::matching_indices(outs, t, n);
            assert(m[0] == k);
            assert(i == k);
            assert forall|j: int|
                0 <= j < n && j != i implies script_type_of(#[trigger] outs[j].script_pubkey)
                != script_type_of(outs[i].script_pubkey) by {
                if script_type_of(outs[j].script_pubkey) == t {
                    lemma_matching_complete(outs, t, n, j);
                }
            }
        },
        None => {
            match crate::analysis::change_detection::round_number_index(outs) {
                Some(k) => {
                    lemma_first_non_round_bounded(outs, n);
                    assert(0 <= k < n);
                    assert(i == k);
                    let rc = crate::analysis::change_detection::round_count(outs, n);
                    if rc != 1 {
                        assert forall|j: int| 0 <= j < n && j != i implies
                            crate::analysis::change_detection::is_round_amount(
                            crate::analysis::change_detection::amount(outs[j]),
                        ) by {
                            if !crate::analysis::change_detection::is_round_amount(
                                crate::analysis::change_detection::amount(outs[j]),
                            ) {
                                if i < j {
                                    lemma_two_non_round(outs, n, i, j);
                                } else {
                                    lemma_two_non_round(outs, n, j, i);
                                }
                            }
                        }
                    }
                },
                None => {},
            }
        },
    }
}

/// Change by round numbers is reported exactly when no script-type match
/// decides and the outputs hold a single odd one out: exactly one round
/// output beside non-round ones, or exactly one non-round output beside
/// round ones. With two or more round and two or more non-round outputs,
/// the largest output is chosen.
pub proof fn law_round_number_needs_one_odd_output(tx: RawTx, prevouts: Seq<UndoCoin>)
    requires
        !is_coinbase_tx(tx@),
        tx@.outputs.len() >= 2,
    ensures
        ({
            let r = change_of(tx, prevouts);
            let outs = tx@.outputs;
            let n = outs.len() as int;
            let rc = crate::analysis::change_detection::round_count(outs, n);
            let nr = n - rc;
            let no_match = crate::analysis::change_detection::script_match_index(outs, prevouts)
                is None;
            &&& r.method == Some("round_number") <==> no_match && ((rc == 1 && nr >= 1) || (nr == 1
                && rc >= 1))
            &&& no_match && rc >= 2 && nr >= 2 ==> r == ChangeResult::at(
                crate::analysis::change_detection::last_largest(outs, n, false),
                "largest_output",
                "low",
            )
        }),
{
    reveal_strlit("round_number");
    reveal_strlit("script_type_match");
    reveal_strlit("largest_output");
    assert("round_number"@.len() != "script_type_match"@.len());
    assert("round_number"@.len() != "largest_output"@.len());
}

proof fn lemma_first_non_round_is_non_round(outs: Seq<crate::parser::tx::TxOutputModel>, n: int)
    requires
        0 <= n <= outs.len(),
    ensures
        crate::analysis::change_detection::first_non_round(outs, n) >= 0
            ==> !crate::analysis::change_detection::is_round_amount(
            crate::analysis::change_detection::amount(
                outs[crate::analysis::change_detection::first_non_round(outs, n)],
            ),
        ),
    decreases n,
{
    if n > 0 {
        lemma_first_non_round_is_non_round(outs, n - 1);
    }
}

proof fn lemma_first_non_round_bounded(outs: Seq<crate::parser::tx::TxOutputModel>, n: int)
    requires
        0 <= n,
    ensures
        crate::analysis::change_detection::first_non_round(outs, n) < n,
        crate::analysis::change_detection::first_non_round(outs, n) >= -1,
    decreases n,
{
    if n > 0 {
        lemma_first_non_round_bounded(outs, n - 1);
    }
}

proof fn lemma_matching_in_range(
    outs: Seq<crate::parser::tx::TxOutputModel>,
    t: ScriptType,
    n: int,
)
    requires
        0 <= n,
    ensures
        forall|k: int|
            0 <= k < crate::analysis::change_detection::matching_indices(outs, t, n).len() ==> {
                let m = #[trigger] crate::analysis::change_detection::matching_indices(outs, t, n)[k];
                &&& 0 <= m < n
                &&& script_type_of(outs[m].script_pubkey) == t
            },
    decreases n,
{
    if n > 0 {
        lemma_matching_in_range(outs, t, n - 1);
        let prev = crate::analysis::change_detection::matching_indices(outs, t, n - 1);
        let cur = crate::analysis::change_detection::matching_indices(outs, t, n);
        assert forall|k: int| 0 <= k < cur.len() implies {
            &&& 0 <= #[trigger] cur[k] < n
            &&& script_type_of(outs[cur[k]].script_pubkey) == t
        } by {
            if k < prev.len() {
                assert(cur[k] == prev[k]);
            }
        }
    }
}

proof fn lemma_matching_bounded(tx: RawTx, prevouts: Seq<UndoCoin>)
    ensures
        crate::analysis::change_detection::script_match_index(tx@.outputs, prevouts) matches Some(
            i,
        ) ==> 0 <= i < tx@.outputs.len(),
{
    if let Some(t) = uniform_type(prevouts) {
        lemma_matching_in_range(tx@.outputs, t, tx@.outputs.len() as int);
    }
}

} // verus!
