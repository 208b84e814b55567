use vstd::prelude::*;

use crate::analysis::address_reuse::AddressReuseResult;
use crate::analysis::change_detection::ChangeResult;
use crate::analysis::cioh::CiohResult;
use crate::analysis::classify::{count_real_outputs, is_coinbase, is_coinbase_tx, real_output_count};
use crate::analysis::coinjoin::CoinjoinResult;
use crate::analysis::consolidation::ConsolidationResult;
use crate::analysis::round_number::RoundNumberResult;
use crate::analysis::self_transfer::SelfTransferResult;
use crate::parser::tx::{RawTx, TxModel};

verus! {

/// All heuristic results for a single transaction, plus its classification.
#[derive(Debug, Clone)]
pub struct TxAnalysis {
    pub txid: String,
    pub heuristics: HeuristicResults,
    pub classification: &'static str,
}

/// The complete set of heuristic results for one transaction.
#[derive(Debug, Clone)]
pub struct HeuristicResults {
    pub cioh: CiohResult,
    pub change_detection: ChangeResult,
    pub coinjoin: CoinjoinResult,
    pub consolidation: ConsolidationResult,
    pub address_reuse: AddressReuseResult,
    pub self_transfer: SelfTransferResult,
    pub round_number_payment: RoundNumberResult,
}

impl HeuristicResults {
    pub open spec fn some_detected(&self) -> bool {
        self.cioh.detected || self.change_detection.detected || self.coinjoin.detected
            || self.consolidation.detected || self.address_reuse.detected
            || self.self_transfer.detected || self.round_number_payment.detected
    }

    /// Whether any heuristic fired.
    pub fn any_detected(&self) -> (b: bool)
        ensures
            b == self.some_detected(),
    {
        self.cioh.detected || self.change_detection.detected || self.coinjoin.detected
            || self.consolidation.detected || self.address_reuse.detected
            || self.self_transfer.detected || self.round_number_payment.detected
    }
}

/// The label of a transaction, first match wins: `coinbase`, `coinjoin`,
/// `consolidation`, `self_transfer`, then by the number of non-OP_RETURN
/// outputs `batch_payment` (more than two), `simple_payment` (one or two),
/// and `unknown` (none).
pub open spec fn classification_of(t: TxModel, h: HeuristicResults) -> &'static str {
    if is_coinbase_tx(t) {
        "coinbase"
    } else if h.coinjoin.detected {
        "coinjoin"
    } else if h.consolidation.detected {
        "consolidation"
    } else if h.self_transfer.detected {
        "self_transfer"
    } else if real_output_count(t.outputs) > 2 {
        "batch_payment"
    } else if real_output_count(t.outputs) >= 1 {
        "simple_payment"
    } else {
        "unknown"
    }
}

/// Classifies a transaction from its heuristic results.
pub fn classify(tx: &RawTx, h: &HeuristicResults) -> (label: &'static str)
    ensures
        label == classification_of(tx@, *h),
{
    if is_coinbase(tx) {
        return "coinbase";
    }
    if h.coinjoin.detected {
        return "coinjoin";
    }
    if h.consolidation.detected {
        return "consolidation";
    }
    if h.self_transfer.detected {
        return "self_transfer";
    }
    let real_outputs = count_real_outputs(tx);
    if real_outputs > 2 {
        return "batch_payment";
    }
    if real_outputs >= 1 {
        return "simple_payment";
    }
    "unknown"
}

} // verus!
