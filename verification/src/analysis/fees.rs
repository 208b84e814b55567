use vstd::prelude::*;

use crate::parser::tx::{RawTx, TxOutputModel};
use crate::parser::undo::UndoCoin;

verus! {

/// Amounts and sizes of a transaction that its fee rate is computed from.
#[derive(Debug, Clone, Copy)]
pub struct FeeInfo {
    pub total_input_sats: u64,
    pub total_output_sats: u64,
    pub fee_sats: u64,
    pub size_bytes: usize,
    pub weight: usize,
    pub vbytes: usize,
}

/// The sum of the amounts of the spent outputs.
pub open spec fn total_spent(prevouts: Seq<UndoCoin>) -> nat
    decreases prevouts.len(),
{
    if prevouts.len() == 0 {
        0
    } else {
        total_spent(prevouts.drop_last()) + (prevouts.last().amount as nat)
    }
}

/// The sum of the output values, each read as unsigned satoshis.
pub open spec fn total_paid(outs: Seq<TxOutputModel>) -> nat
    decreases outs.len(),
{
    if outs.len() == 0 {
        0
    } else {
        total_paid(outs.drop_last()) + (outs.last().value as u64 as nat)
    }
}

/// The sums and the virtual size fit their integer types.
pub open spec fn fee_inputs_fit(tx: RawTx, prevouts: Seq<UndoCoin>) -> bool {
    &&& total_spent(prevouts) <= u64::MAX
    &&& total_paid(tx@.outputs) <= u64::MAX
    &&& tx.weight + 3 <= usize::MAX
}

/// The fee figures of `tx` spending `prevouts`, when the sums fit.
pub open spec fn fee_info(tx: RawTx, prevouts: Seq<UndoCoin>) -> FeeInfo {
    let i = total_spent(prevouts);
    let o = total_paid(tx@.outputs);
    FeeInfo {
        total_input_sats: i as u64,
        total_output_sats: o as u64,
        fee_sats: (if i >= o {
            i - o
        } else {
            0
        }) as u64,
        size_bytes: tx.size,
        weight: tx.weight,
        vbytes: ((tx.weight + 3) / 4) as usize,
    }
}

/// Total in, total out, the fee (zero when the outputs exceed the inputs),
/// and the virtual size: weight divided by four, rounded up.
pub fn compute_fees(tx: &RawTx, prevouts: &[UndoCoin]) -> (f: FeeInfo)
    requires
        fee_inputs_fit(*tx, prevouts@),
    ensures
        f.total_input_sats == total_spent(prevouts@),
        f.total_output_sats == total_paid(tx@.outputs),
        f.fee_sats == (if f.total_input_sats >= f.total_output_sats {
            f.total_input_sats - f.total_output_sats
        } else {
            0
        }),
        f.size_bytes == tx.size,
        f.weight == tx.weight,
        f.vbytes == (tx.weight + 3) / 4,
        f == fee_info(*tx, prevouts@),
{
    let (total_input_sats, total_output_sats) = match fee_totals(tx, prevouts) {
        Some(t) => t,
        None => (0, 0),
    };
    let fee_sats = total_input_sats.saturating_sub(total_output_sats);
    let size_bytes = tx.size;
    let weight = tx.weight;
    let vbytes = (weight + 3) / 4;
    FeeInfo { total_input_sats, total_output_sats, fee_sats, size_bytes, weight, vbytes }
}

/// The two sums, when both fit in 64 bits.
pub fn fee_totals(tx: &RawTx, prevouts: &[UndoCoin]) -> (r: Option<(u64, u64)>)
    ensures
        r is Some <==> total_spent(prevouts@) <= u64::MAX && total_paid(tx@.outputs) <= u64::MAX,
        r is Some ==> r->Some_0.0 == total_spent(prevouts@) && r->Some_0.1 == total_paid(
            tx@.outputs,
        ),
{
    let ghost pv = prevouts@;
    let mut total_in: u64 = 0;
    let mut i: usize = 0;
    while i < prevouts.len()
        invariant
            pv == prevouts@,
            i <= pv.len(),
            total_in == total_spent(pv.take(i as int)),
        decreases pv.len() - i,
    {
        assert(pv.take(i + 1).drop_last() =~= pv.take(i as int));
        let a = prevouts[i].amount;
        if a > u64::MAX - total_in {
            proof {
                lemma_total_spent_grows(pv, i + 1);
            }
            return None;
        }
        total_in = total_in + a;
        i = i + 1;
    }
    assert(pv.take(pv.len() as int) =~= pv);
    let ghost outs = tx@.outputs;
    let mut total_out: u64 = 0;
    let mut j: usize = 0;
    while j < tx.outputs.len()
        invariant
            outs == tx@.outputs,
            j <= outs.len(),
            total_out == total_paid(outs.take(j as int)),
            total_in == total_spent(pv),
        decreases outs.len() - j,
    {
        assert(outs.take(j + 1).drop_last() =~= outs.take(j as int));
        let o = &tx.outputs[j];
        assert(o@ == outs[j as int]);
        let v = o.value as u64;
        if v > u64::MAX - total_out {
            proof {
                lemma_total_paid_grows(outs, j + 1);
            }
            return None;
        }
        total_out = total_out + v;
        j = j + 1;
    }
    assert(outs.take(outs.len() as int) =~= outs);
    Some((total_in, total_out))
}

proof fn lemma_total_spent_grows(pv: Seq<UndoCoin>, k: int)
    requires
        0 <= k <= pv.len(),
    ensures
        total_spent(pv.take(k)) <= total_spent(pv),
    decreases pv.len() - k,
{
    if k < pv.len() {
        lemma_total_spent_grows(pv, k + 1);
        assert(pv.take(k + 1).drop_last() =~= pv.take(k));
    } else {
        assert(pv.take(k) =~= pv);
    }
}

proof fn lemma_total_paid_grows(outs: Seq<TxOutputModel>, k: int)
    requires
        0 <= k <= outs.len(),
    ensures
        total_paid(outs.take(k)) <= total_paid(outs),
    decreases outs.len() - k,
{
    if k < outs.len() {
        lemma_total_paid_grows(outs, k + 1);
        assert(outs.take(k + 1).drop_last() =~= outs.take(k));
    } else {
        assert(outs.take(k) =~= outs);
    }
}

} // verus!
