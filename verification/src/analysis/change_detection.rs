use vstd::prelude::*;

use crate::analysis::classify::{
    is_coinbase, is_coinbase_tx, script_type, script_type_of, uniform_input_type, uniform_type,
    ScriptType,
};
use crate::parser::tx::{RawTx, TxOutputModel};
use crate::parser::undo::UndoCoin;

verus! {

/// Result of attempting to identify the change output in a transaction.
#[derive(Debug, Clone, Copy)]
pub struct ChangeResult {
    pub detected: bool,
    pub likely_change_index: Option<usize>,
    pub method: Option<&'static str>,
    pub confidence: Option<&'static str>,
}

impl ChangeResult {
    pub open spec fn nothing() -> ChangeResult {
        ChangeResult { detected: false, likely_change_index: None, method: None, confidence: None }
    }

    pub open spec fn at(index: int, method: &'static str, confidence: &'static str) -> ChangeResult {
        ChangeResult {
            detected: true,
            likely_change_index: Some(index as usize),
            method: Some(method),
            confidence: Some(confidence),
        }
    }

    fn none() -> (r: Self)
        ensures
            r == Self::nothing(),
    {
        ChangeResult { detected: false, likely_change_index: None, method: None, confidence: None }
    }

    fn found(index: usize, method: &'static str, confidence: &'static str) -> (r: Self)
        ensures
            r == Self::at(index as int, method, confidence),
    {
        ChangeResult {
            detected: true,
            likely_change_index: Some(index),
            method: Some(method),
            confidence: Some(confidence),
        }
    }
}

/// An output's value read as unsigned satoshis.
pub open spec fn amount(o: TxOutputModel) -> u64 {
    o.value as u64
}

/// A nonzero multiple of 0.001 BTC.
pub open spec fn is_round_amount(sats: u64) -> bool {
    sats != 0 && sats % 100_000 == 0
}

/// The indices among the first `n` outputs whose script follows `t`.
pub open spec fn matching_indices(outs: Seq<TxOutputModel>, t: ScriptType, n: int) -> Seq<int>
    decreases n,
{
    if n <= 0 {
        Seq::empty()
    } else if script_type_of(outs[n - 1].script_pubkey) == t {
        matching_indices(outs, t, n - 1).push(n - 1)
    } else {
        matching_indices(outs, t, n - 1)
    }
}

/// First method: all inputs spend one spendable template and exactly one
/// output follows it.
pub open spec fn script_match_index(outs: Seq<TxOutputModel>, prevouts: Seq<UndoCoin>) -> Option<int> {
    match uniform_type(prevouts) {
        Some(t) => if t.is_spendable_template() && matching_indices(outs, t, outs.len() as int).len()
            == 1 {
            Some(matching_indices(outs, t, outs.len() as int)[0])
        } else {
            None
        },
        None => None,
    }
}

/// How many of the first `n` outputs have round values.
pub open spec fn round_count(outs: Seq<TxOutputModel>, n: int) -> nat
    decreases n,
{
    if n <= 0 {
        0
    } else {
        round_count(outs, n - 1) + (if is_round_amount(amount(outs[n - 1])) {
            1nat
        } else {
            0nat
        })
    }
}

/// Among the first `n` outputs (only the non-round ones when
/// `non_round_only`), the last one of largest value; -1 when there is none.
pub open spec fn last_largest(outs: Seq<TxOutputModel>, n: int, non_round_only: bool) -> int
    decreases n,
{
    if n <= 0 {
        -1
    } else {
        let b = last_largest(outs, n - 1, non_round_only);
        if non_round_only && is_round_amount(amount(outs[n - 1])) {
            b
        } else if b < 0 || amount(outs[n - 1]) >= amount(outs[b]) {
            n - 1
        } else {
            b
        }
    }
}

/// The first of the first `n` outputs whose value is not round; -1 when all
/// are round.
pub open spec fn first_non_round(outs: Seq<TxOutputModel>, n: int) -> int
    decreases n,
{
    if n <= 0 {
        -1
    } else {
        let p = first_non_round(outs, n - 1);
        if p >= 0 {
            p
        } else if !is_round_amount(amount(outs[n - 1])) {
            n - 1
        } else {
            -1
        }
    }
}

/// Second method: with exactly one round output, the largest non-round one;
/// with exactly one non-round output beside round ones, that one.
pub open spec fn round_number_index(outs: Seq<TxOutputModel>) -> Option<int> {
    let rc = round_count(outs, outs.len() as int);
    let nr = outs.len() - rc;
    if rc == 1 && nr >= 1 {
        Some(last_largest(outs, outs.len() as int, true))
    } else if nr == 1 && rc >= 1 {
        Some(first_non_round(outs, outs.len() as int))
    } else {
        None
    }
}

/// What change detection reports: nothing for a coinbase or fewer than two
/// outputs; otherwise the first method that decides, falling back to the
/// last output of largest value.
pub open spec fn change_of(tx: RawTx, prevouts: Seq<UndoCoin>) -> ChangeResult {
    let outs = tx@.outputs;
    if is_coinbase_tx(tx@) || outs.len() < 2 {
        ChangeResult::nothing()
    } else {
        match script_match_index(outs, prevouts) {
            Some(i) => ChangeResult::at(i, "script_type_match", "high"),
            None => match round_number_index(outs) {
                Some(i) => ChangeResult::at(i, "round_number", "medium"),
                None => ChangeResult::at(
                    last_largest(outs, outs.len() as int, false),
                    "largest_output",
                    "low",
                ),
            },
        }
    }
}

/// Guesses which output returns change to the sender, with the method used
/// and its confidence.
pub fn detect(tx: &RawTx, prevouts: &[UndoCoin]) -> (r: ChangeResult)
    ensures
        r == change_of(*tx, prevouts@),
{
    if is_coinbase(tx) {
        return ChangeResult::none();
    }
    if tx.outputs.len() < 2 {
        return ChangeResult::none();
    }
    if let Some(result) = try_script_type_match(tx, prevouts) {
        return result;
    }
    if let Some(result) = try_round_number(tx) {
        return result;
    }
    try_largest_output(tx)
}

fn try_script_type_match(tx: &RawTx, prevouts: &[UndoCoin]) -> (r: Option<ChangeResult>)
    ensures
        r == (match script_match_index(tx@.outputs, prevouts@) {
            Some(i) => Some(ChangeResult::at(i, "script_type_match", "high")),
            None => None,
        }),
{
    if prevouts.len() == 0 {
        return None;
    }
    let dominant = match uniform_input_type(prevouts) {
        Some(t) => t,
        None => {
            return None;
        },
    };
    if dominant == ScriptType::Unknown || dominant == ScriptType::OpReturn {
        return None;
    }
    let ghost outs = tx@.outputs;
    let mut matching: Vec<usize> = Vec::new();
    let mut i: usize = 0;
    while i < tx.outputs.len()
        invariant
            outs == tx@.outputs,
            i <= outs.len(),
            matching@.len() == matching_indices(outs, dominant, i as int).len(),
            forall|k: int|
                0 <= k < matching@.len() ==> #[trigger] matching@[k] as int == matching_indices(
                    outs,
                    dominant,
                    i as int,
                )[k],
        decreases outs.len() - i,
    {
        let o = &tx.outputs[i];
        assert(o@ == outs[i as int]);
        if script_type(o.script_pubkey.as_slice()) == dominant {
            matching.push(i);
        }
        i = i + 1;
    }
    if matching.len() == 1 {
        return Some(ChangeResult::found(matching[0], "script_type_match", "high"));
    }
    None
}

/// Whether `sats` is a nonzero multiple of 0.001 BTC.
pub fn is_round(sats: u64) -> (b: bool)
    ensures
        b == is_round_amount(sats),
{
    if sats == 0 {
        return false;
    }
    sats % 100_000 == 0
}

fn try_round_number(tx: &RawTx) -> (r: Option<ChangeResult>)
    requires
        tx@.outputs.len() >= 2,
    ensures
        r == (match round_number_index(tx@.outputs) {
            Some(i) => Some(ChangeResult::at(i, "round_number", "medium")),
            None => None,
        }),
{
    let ghost outs = tx@.outputs;
    let n = tx.outputs.len();
    let mut round_count_x: usize = 0;
    let mut i: usize = 0;
    while i < n
        invariant
            outs == tx@.outputs,
            n == outs.len(),
            i <= n,
            round_count_x == round_count(outs, i as int),
            round_count_x <= i,
        decreases n - i,
    {
        let o = &tx.outputs[i];
        assert(o@ == outs[i as int]);
        if is_round(o.value as u64) {
            round_count_x = round_count_x + 1;
        }
        i = i + 1;
    }
    let non_round_count = n - round_count_x;
    proof {
        lemma_non_round_exists(outs, n as int);
    }
    if round_count_x == 1 && non_round_count >= 1 {
        let idx = largest_index(tx, true);
        return Some(ChangeResult::found(idx, "round_number", "medium"));
    }
    if non_round_count == 1 && round_count_x >= 1 {
        let mut j: usize = 0;
        while j < n
            invariant
                outs == tx@.outputs,
                n == outs.len(),
                j <= n,
                first_non_round(outs, j as int) == -1,
                first_non_round(outs, n as int) >= 0,
                round_count(outs, n as int) == round_count_x,
                non_round_count == n - round_count_x,
                non_round_count == 1,
                round_count_x >= 1,
                !(round_count_x == 1 && non_round_count >= 1),
            decreases n - j,
        {
            let o = &tx.outputs[j];
            assert(o@ == outs[j as int]);
            if !is_round(o.value as u64) {
                proof {
                    assert(first_non_round(outs, j as int + 1) == j as int);
                    lemma_first_non_round_stays(outs, j as int + 1, n as int);
                }
                return Some(ChangeResult::found(j, "round_number", "medium"));
            }
            j = j + 1;
        }
        return None;
    }
    None
}

proof fn lemma_first_non_round_stays(outs: Seq<TxOutputModel>, k: int, n: int)
    requires
        0 < k <= n,
        first_non_round(outs, k) >= 0,
    ensures
        first_non_round(outs, n) == first_non_round(outs, k),
    decreases n - k,
{
    if n > k {
        lemma_first_non_round_stays(outs, k, n - 1);
    }
}

/// The last output of largest value (among the non-round ones when
/// `non_round_only`); there must be one.
fn largest_index(tx: &RawTx, non_round_only: bool) -> (idx: usize)
    requires
        last_largest(tx@.outputs, tx@.outputs.len() as int, non_round_only) >= 0,
    ensures
        idx as int == last_largest(tx@.outputs, tx@.outputs.len() as int, non_round_only),
{
    let ghost outs = tx@.outputs;
    let n = tx.outputs.len();
    let mut best: Option<usize> = None;
    let mut i: usize = 0;
    while i < n
        invariant
            outs == tx@.outputs,
            n == outs.len(),
            i <= n,
            last_largest(outs, i as int, non_round_only) == (match best {
                Some(b) => b as int,
                None => -1,
            }),
            best is Some ==> best->Some_0 < i,
        decreases n - i,
    {
        let o = &tx.outputs[i];
        assert(o@ == outs[i as int]);
        let v = o.value as u64;
        if !(non_round_only && is_round(v)) {
            match best {
                None => {
                    best = Some(i);
                },
                Some(b) => {
                    assert(tx.outputs@[b as int]@ == outs[b as int]);
                    if v >= tx.outputs[b].value as u64 {
                        best = Some(i);
                    }
                },
            }
        }
        i = i + 1;
    }
    match best {
        Some(b) => b,
        None => 0,
    }
}

fn try_largest_output(tx: &RawTx) -> (r: ChangeResult)
    requires
        tx@.outputs.len() >= 1,
    ensures
        r == ChangeResult::at(
            last_largest(tx@.outputs, tx@.outputs.len() as int, false),
            "largest_output",
            "low",
        ),
{
    proof {
        lemma_last_largest_is_largest(tx@.outputs, tx@.outputs.len() as int, false);
    }
    let idx = largest_index(tx, false);
    ChangeResult::found(idx, "largest_output", "low")
}

/// When some of the first `n` outputs is not round, both round-number
/// choices find one.
pub proof fn lemma_non_round_exists(outs: Seq<TxOutputModel>, n: int)
    requires
        0 <= n <= outs.len(),
    ensures
        round_count(outs, n) <= n,
        round_count(outs, n) < n ==> last_largest(outs, n, true) >= 0 && first_non_round(outs, n)
            >= 0,
    decreases n,
{
    if n > 0 {
        lemma_non_round_exists(outs, n - 1);
    }
}

/// `last_largest` picks an output of largest value among those considered,
/// and no later one considered has that value; it finds none only when no
/// output is considered.
pub proof fn lemma_last_largest_is_largest(outs: Seq<TxOutputModel>, n: int, non_round_only: bool)
    requires
        0 <= n <= outs.len(),
    ensures
        -1 <= last_largest(outs, n, non_round_only) < n,
        last_largest(outs, n, non_round_only) < 0 ==> forall|j: int|
            0 <= j < n ==> non_round_only && is_round_amount(amount(#[trigger] outs[j])),
        ({
            let b = last_largest(outs, n, non_round_only);
            b >= 0 ==> {
                &&& !(non_round_only && is_round_amount(amount(outs[b])))
                &&& forall|j: int|
                    0 <= j < n && !(non_round_only && is_round_amount(amount(outs[j]))) ==> {
                        &&& amount(#[trigger] outs[j]) <= amount(outs[b])
                        &&& j > b ==> amount(outs[j]) < amount(outs[b])
                    }
            }
        }),
    decreases n,
{
    if n > 0 {
        lemma_last_largest_is_largest(outs, n - 1, non_round_only);
        let b0 = last_largest(outs, n - 1, non_round_only);
        let b = last_largest(outs, n, non_round_only);
        let skip = non_round_only && is_round_amount(amount(outs[n - 1]));
        if skip {
            assert(b == b0);
        } else if b0 < 0 || amount(outs[n - 1]) >= amount(outs[b0]) {
            assert(b == n - 1);
            assert forall|j: int|
                0 <= j < n && !(non_round_only && is_round_amount(amount(outs[j]))) implies {
                &&& amount(#[trigger] outs[j]) <= amount(outs[b])
                &&& j > b ==> amount(outs[j]) < amount(outs[b])
            } by {
                if j < n - 1 {
                    assert(b0 >= 0);
                    assert(amount(outs[j]) <= amount(outs[b0]));
                }
            }
        } else {
            assert(b == b0);
            assert forall|j: int|
                0 <= j < n && !(non_round_only && is_round_amount(amount(outs[j]))) implies {
                &&& amount(#[trigger] outs[j]) <= amount(outs[b])
                &&& j > b ==> amount(outs[j]) < amount(outs[b])
            } by {
                if j < n - 1 {
                    assert(amount(outs[j]) <= amount(outs[b0]));
                }
            }
        }
    }
}

} // verus!
