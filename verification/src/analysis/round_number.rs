use vstd::prelude::*;

use crate::analysis::classify::{is_coinbase, is_coinbase_tx, is_op_return};
use crate::parser::tx::{RawTx, TxOutputModel};

verus! {

/// Result of the round-number payment heuristic.
#[derive(Debug, Clone)]
pub struct RoundNumberResult {
    pub detected: bool,
    pub round_output_indices: Vec<usize>,
}

/// Satoshis in one mBTC; values divisible by it count as round.
pub const ROUND_UNIT: u64 = 100_000;

/// A multiple of 0.001 BTC (and so of every coarser denomination).
pub open spec fn is_round_value(sats: u64) -> bool {
    sats % ROUND_UNIT == 0
}

/// An output that looks like a deliberate round payment: a nonzero round
/// value on a script that is not OP_RETURN.
pub open spec fn is_round_payment(o: TxOutputModel) -> bool {
    (o.value as u64) != 0 && !is_op_return(o.script_pubkey) && is_round_value(o.value as u64)
}

/// The indices, in order, of the first `n` outputs that are round payments.
pub open spec fn round_payment_indices(outs: Seq<TxOutputModel>, n: int) -> Seq<usize>
    decreases n,
{
    if n <= 0 {
        Seq::empty()
    } else if is_round_payment(outs[n - 1]) {
        round_payment_indices(outs, n - 1).push((n - 1) as usize)
    } else {
        round_payment_indices(outs, n - 1)
    }
}

/// Whether `sats` is a multiple of 0.001 BTC.
pub fn is_round(sats: u64) -> (b: bool)
    ensures
        b == is_round_value(sats),
{
    sats % ROUND_UNIT == 0
}

/// Flags the outputs with round values, likely intentional payments.
/// Coinbase transactions are not flagged.
pub fn detect(tx: &RawTx) -> (r: RoundNumberResult)
    ensures
        is_coinbase_tx(tx@) ==> !r.detected && r.round_output_indices@ == Seq::<usize>::empty(),
        !is_coinbase_tx(tx@) ==> r.round_output_indices@ == round_payment_indices(
            tx@.outputs,
            tx@.outputs.len() as int,
        ),
        r.detected == (r.round_output_indices@.len() > 0),
{
    let mut round_indices: Vec<usize> = Vec::new();
    if is_coinbase(tx) {
        assert(round_indices@ =~= Seq::<usize>::empty());
        return RoundNumberResult { detected: false, round_output_indices: round_indices };
    }
    let ghost outs = tx@.outputs;
    let mut i: usize = 0;
    while i < tx.outputs.len()
        invariant
            outs == tx@.outputs,
            i <= outs.len(),
            round_indices@ == round_payment_indices(outs, i as int),
        decreases outs.len() - i,
    {
        let o = &tx.outputs[i];
        assert(o@ == outs[i as int]);
        let val = o.value as u64;
        if val != 0 && !(o.script_pubkey.len() >= 1 && o.script_pubkey[0] == 0x6a) && is_round(val) {
            round_indices.push(i);
        }
        i = i + 1;
    }
    RoundNumberResult { detected: round_indices.len() > 0, round_output_indices: round_indices }
}

/// Every index reported is a round payment output of the transaction, and
/// the indices increase.
pub proof fn lemma_round_indices_are_round(outs: Seq<TxOutputModel>, n: int)
    requires
        0 <= n <= outs.len(),
        outs.len() <= usize::MAX,
    ensures
        forall|k: int|
            0 <= k < round_payment_indices(outs, n).len() ==> {
                let i = #[trigger] round_payment_indices(outs, n)[k];
                &&& i < n
                &&& is_round_payment(outs[i as int])
            },
        forall|k1: int, k2: int|
            0 <= k1 < k2 < round_payment_indices(outs, n).len() ==> #[trigger] round_payment_indices(
                outs,
                n,
            )[k1] < #[trigger] round_payment_indices(outs, n)[k2],
    decreases n,
{
    if n > 0 {
        lemma_round_indices_are_round(outs, n - 1);
        let prev = round_payment_indices(outs, n - 1);
        let cur = round_payment_indices(outs, n);
        if is_round_payment(outs[n - 1]) {
            assert(cur == prev.push((n - 1) as usize));
            assert forall|k: int| 0 <= k < cur.len() implies ({
                let i = #[trigger] cur[k];
                &&& i < n
                &&& is_round_payment(outs[i as int])
            }) by {
                if k < prev.len() {
                    assert(cur[k] == prev[k]);
                }
            }
            assert forall|k1: int, k2: int| 0 <= k1 < k2 < cur.len() implies #[trigger] cur[k1]
                < #[trigger] cur[k2] by {
                assert(cur[k1] == prev[k1]);
                if k2 < prev.len() {
                    assert(cur[k2] == prev[k2]);
                }
            }
        }
    }
}

} // verus!
