use vstd::prelude::*;

use crate::parser::tx::RawTx;

verus! {

/// Result of applying the Common Input Ownership Heuristic to a transaction.
#[derive(Debug, Clone, Copy)]
pub struct CiohResult {
    pub detected: bool,
    pub input_count: usize,
}

/// Common Input Ownership: a transaction that spends two or more inputs is
/// taken to be signed by one wallet holding all of them.
pub fn detect(tx: &RawTx) -> (r: CiohResult)
    ensures
        r.input_count == tx@.inputs.len(),
        r.detected == (tx@.inputs.len() >= 2),
{
    let input_count = tx.inputs.len();
    CiohResult { detected: input_count >= 2, input_count }
}

} // verus!
