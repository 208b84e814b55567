use vstd::prelude::*;

use crate::analysis::classify::{
    is_coinbase, is_coinbase_tx, real_output_count, count_real_outputs, real_outputs_all_follow,
    real_outputs_follow, uniform_input_type, uniform_type, ScriptType,
};
use crate::parser::tx::RawTx;
use crate::parser::undo::UndoCoin;

verus! {

/// Result of the self-transfer detection heuristic.
#[derive(Debug, Clone, Copy)]
pub struct SelfTransferResult {
    pub detected: bool,
    pub uniform_script_type: Option<&'static str>,
}

/// The template that makes `tx` a self-transfer, if it is one: not a
/// coinbase, at least one output, all spent outputs of one spendable
/// template, at least one output that is not OP_RETURN, and every such
/// output of that template.
pub open spec fn self_transfer_type(tx: RawTx, prevouts: Seq<UndoCoin>) -> Option<ScriptType> {
    match uniform_type(prevouts) {
        Some(t) => if !is_coinbase_tx(tx@) && tx@.outputs.len() > 0 && t.is_spendable_template()
            && real_output_count(tx@.outputs) > 0 && real_outputs_follow(tx@.outputs, t) {
            Some(t)
        } else {
            None
        },
        None => None,
    }
}

/// Detects a transaction that keeps all funds in one wallet: every real
/// output uses the script type of all the inputs.
pub fn detect(tx: &RawTx, prevouts: &[UndoCoin]) -> (r: SelfTransferResult)
    ensures
        r.detected == self_transfer_type(*tx, prevouts@) is Some,
        r.uniform_script_type == (match self_transfer_type(*tx, prevouts@) {
            Some(t) => Some(t.label()),
            None => None::<&'static str>,
        }),
{
    let not_detected = SelfTransferResult { detected: false, uniform_script_type: None };
    if is_coinbase(tx) || prevouts.len() == 0 || tx.outputs.len() == 0 {
        return not_detected;
    }
    let dominant = match uniform_input_type(prevouts) {
        Some(t) => t,
        None => {
            return not_detected;
        },
    };
    if dominant == ScriptType::Unknown || dominant == ScriptType::OpReturn {
        return not_detected;
    }
    if count_real_outputs(tx) == 0 {
        return not_detected;
    }
    if !real_outputs_all_follow(tx, dominant) {
        return not_detected;
    }
    SelfTransferResult { detected: true, uniform_script_type: Some(dominant.as_str()) }
}

} // verus!
