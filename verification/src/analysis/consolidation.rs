use vstd::prelude::*;

use crate::analysis::classify::{
    is_coinbase, is_coinbase_tx, real_output_count, count_real_outputs, real_outputs_all_follow,
    real_outputs_follow, uniform_input_type, uniform_type, ScriptType,
};
use crate::parser::tx::RawTx;
use crate::parser::undo::UndoCoin;

verus! {

/// Result of applying the consolidation detection heuristic.
#[derive(Debug, Clone, Copy)]
pub struct ConsolidationResult {
    pub detected: bool,
    pub input_count: usize,
    pub output_count: usize,
    pub uniform_script_type: Option<&'static str>,
}

/// Fewest inputs of a consolidation.
pub const MIN_INPUTS: usize = 5;

/// Most non-OP_RETURN outputs of a consolidation.
pub const MAX_REAL_OUTPUTS: usize = 2;

/// The template that makes `tx` a consolidation, if it is one: not a
/// coinbase, at least five inputs, one or two outputs that are not
/// OP_RETURN, all spent outputs of one spendable template, and every
/// non-OP_RETURN output of that template too.
pub open spec fn consolidation_type(tx: RawTx, prevouts: Seq<UndoCoin>) -> Option<ScriptType> {
    match uniform_type(prevouts) {
        Some(t) => if !is_coinbase_tx(tx@) && tx@.inputs.len() >= MIN_INPUTS && 1 <= real_output_count(
            tx@.outputs,
        ) <= MAX_REAL_OUTPUTS && t.is_spendable_template() && real_outputs_follow(
            tx@.outputs,
            t,
        ) {
            Some(t)
        } else {
            None
        },
        None => None,
    }
}

/// Detects a sweep of many UTXOs into one or two outputs of the wallet's own
/// script type.
pub fn detect(tx: &RawTx, prevouts: &[UndoCoin]) -> (r: ConsolidationResult)
    ensures
        r.input_count == tx@.inputs.len(),
        r.output_count == tx@.outputs.len(),
        r.detected == consolidation_type(*tx, prevouts@) is Some,
        r.uniform_script_type == (match consolidation_type(*tx, prevouts@) {
            Some(t) => Some(t.label()),
            None => None::<&'static str>,
        }),
{
    let input_count = tx.inputs.len();
    let output_count = tx.outputs.len();
    let not_detected = ConsolidationResult {
        detected: false,
        input_count,
        output_count,
        uniform_script_type: None,
    };
    if is_coinbase(tx) || input_count < MIN_INPUTS {
        return not_detected;
    }
    let real_outputs: usize = count_real_outputs(tx);
    if real_outputs == 0 || real_outputs > MAX_REAL_OUTPUTS {
        return not_detected;
    }
    if prevouts.len() == 0 {
        return not_detected;
    }
    let dominant = match uniform_input_type(prevouts) {
        Some(t) => t,
        None => {
            return not_detected;
        },
    };
    if dominant == ScriptType::Unknown || dominant == ScriptType::OpReturn {
        return not_detected;
    }
    if !real_outputs_all_follow(tx, dominant) {
        return not_detected;
    }
    ConsolidationResult {
        detected: true,
        input_count,
        output_count,
        uniform_script_type: Some(dominant.as_str()),
    }
}

} // verus!
