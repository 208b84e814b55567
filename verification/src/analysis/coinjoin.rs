use std::collections::HashMap;
use vstd::prelude::*;

use crate::analysis::classify::{is_coinbase, is_coinbase_tx, is_op_return};
use crate::parser::tx::{RawTx, TxModel, TxOutputModel};

verus! {

/// Result of applying the CoinJoin detection heuristic.
#[derive(Debug, Clone, Copy)]
pub struct CoinjoinResult {
    pub detected: bool,
    pub equal_output_count: Option<usize>,
    pub equal_output_value: Option<u64>,
}

/// Fewest inputs of a CoinJoin.
pub const MIN_INPUTS: usize = 3;

/// Fewest outputs sharing one value in a CoinJoin.
pub const MIN_EQUAL_OUTPUTS: usize = 3;

/// An output that takes part in equal-value counting: nonzero value, not an
/// OP_RETURN script.
pub open spec fn is_counted(o: TxOutputModel) -> bool {
    (o.value as u64) != 0 && !is_op_return(o.script_pubkey)
}

/// How many counted outputs carry the value `v`.
pub open spec fn value_count(outs: Seq<TxOutputModel>, v: u64) -> nat
    decreases outs.len(),
{
    if outs.len() == 0 {
        0
    } else {
        value_count(outs.drop_last(), v) + (if is_counted(outs.last()) && outs.last().value as u64
            == v {
            1nat
        } else {
            0nat
        })
    }
}

/// How many counted outputs share the value of output `i` (zero when `i`
/// itself is not counted).
pub open spec fn share_count(outs: Seq<TxOutputModel>, i: int) -> nat {
    if is_counted(outs[i]) {
        value_count(outs, outs[i].value as u64)
    } else {
        0
    }
}

/// Among the first `n` outputs, the first whose value is shared by the most
/// counted outputs; -1 when none of them is counted.
pub open spec fn most_shared_index(outs: Seq<TxOutputModel>, n: int) -> int
    decreases n,
{
    if n <= 0 {
        -1
    } else {
        let b = most_shared_index(outs, n - 1);
        if share_count(outs, n - 1) > (if b < 0 {
            0
        } else {
            share_count(outs, b)
        }) {
            n - 1
        } else {
            b
        }
    }
}

/// The largest number of counted outputs that share one value.
pub open spec fn max_share(outs: Seq<TxOutputModel>) -> nat {
    let b = most_shared_index(outs, outs.len() as int);
    if b < 0 {
        0
    } else {
        share_count(outs, b)
    }
}

/// What CoinJoin detection reports for `t`: detected when it is not a
/// coinbase, has at least three inputs, and at least three counted outputs
/// share one value; then that count and the value (of the first output
/// that reaches the largest count).
pub open spec fn coinjoin_of(t: TxModel) -> CoinjoinResult {
    if !is_coinbase_tx(t) && t.inputs.len() >= MIN_INPUTS && max_share(t.outputs)
        >= MIN_EQUAL_OUTPUTS {
        CoinjoinResult {
            detected: true,
            equal_output_count: Some(max_share(t.outputs) as usize),
            equal_output_value: Some(
                t.outputs[most_shared_index(t.outputs, t.outputs.len() as int)].value as u64,
            ),
        }
    } else {
        CoinjoinResult { detected: false, equal_output_count: None, equal_output_value: None }
    }
}

/// The output `most_shared_index` picks has the largest share count of all.
pub proof fn lemma_most_shared_is_max(outs: Seq<TxOutputModel>, n: int)
    requires
        0 <= n <= outs.len(),
    ensures
        -1 <= most_shared_index(outs, n) < n,
        forall|j: int|
            0 <= j < n ==> #[trigger] share_count(outs, j) <= (if most_shared_index(outs, n) < 0 {
                0
            } else {
                share_count(outs, most_shared_index(outs, n))
            }),
    decreases n,
{
    if n > 0 {
        lemma_most_shared_is_max(outs, n - 1);
    }
}

/// The count that `m` holds for `v`, 0 when it holds none.
pub open spec fn held_count(m: Map<u64, usize>, v: u64) -> nat {
    if m.contains_key(v) {
        m[v] as nat
    } else {
        0
    }
}

/// How many counted outputs carry each value.
fn value_counts(tx: &RawTx) -> (m: HashMap<u64, usize>)
    ensures
        forall|v: u64| #[trigger] held_count(m@, v) == value_count(tx@.outputs, v),
{
    broadcast use vstd::std_specs::hash::group_hash_axioms;

    let ghost outs = tx@.outputs;
    let mut m: HashMap<u64, usize> = HashMap::new();
    let mut j: usize = 0;
    while j < tx.outputs.len()
        invariant
            outs == tx@.outputs,
            j <= outs.len(),
            forall|v: u64| #[trigger] held_count(m@, v) == value_count(outs.take(j as int), v),
            forall|v: u64| #[trigger] held_count(m@, v) <= j,
        decreases outs.len() - j,
    {
        let ghost before = m@;
        assert(outs.take(j + 1).drop_last() =~= outs.take(j as int));
        let o = &tx.outputs[j];
        assert(o@ == outs[j as int]);
        let val = o.value as u64;
        if val != 0 && !(o.script_pubkey.len() >= 1 && o.script_pubkey[0] == 0x6a) {
            let c: usize = match m.get(&val) {
                Some(c) => *c,
                None => 0,
            };
            assert(c == held_count(before, val));
            assert(c <= j);
            m.insert(val, c + 1);
            assert forall|v: u64| #[trigger]
                held_count(m@, v) == value_count(outs.take(j + 1), v) && held_count(m@, v) <= j
                    + 1 by {
                assert(held_count(before, v) == value_count(outs.take(j as int), v));
                assert(held_count(before, v) <= j);
            }
        } else {
            assert forall|v: u64| #[trigger]
                held_count(m@, v) == value_count(outs.take(j + 1), v) && held_count(m@, v) <= j
                    + 1 by {
                assert(held_count(before, v) == value_count(outs.take(j as int), v));
                assert(held_count(before, v) <= j);
            }
        }
        j = j + 1;
    }
    assert(outs.take(outs.len() as int) =~= outs);
    m
}

/// Detects a likely CoinJoin: many inputs and several outputs of exactly the
/// same value.
pub fn detect(tx: &RawTx) -> (r: CoinjoinResult)
    ensures
        r == coinjoin_of(tx@),
{
    broadcast use vstd::std_specs::hash::group_hash_axioms;

    let none = CoinjoinResult { detected: false, equal_output_count: None, equal_output_value: None };
    if is_coinbase(tx) || tx.inputs.len() < MIN_INPUTS {
        return none;
    }
    let ghost outs = tx@.outputs;
    let counts = value_counts(tx);
    let mut best: Option<usize> = None;
    let mut best_count: usize = 0;
    let mut i: usize = 0;
    while i < tx.outputs.len()
        invariant
            outs == tx@.outputs,
            i <= outs.len(),
            most_shared_index(outs, i as int) == (match best {
                Some(b) => b as int,
                None => -1,
            }),
            best is Some ==> best->Some_0 < i && best_count == share_count(outs, best->Some_0 as int),
            best is None ==> best_count == 0,
            forall|v: u64| #[trigger] held_count(counts@, v) == value_count(outs, v),
        decreases outs.len() - i,
    {
        let o = &tx.outputs[i];
        assert(o@ == outs[i as int]);
        let val = o.value as u64;
        let c: usize = if val != 0 && !(o.script_pubkey.len() >= 1 && o.script_pubkey[0] == 0x6a) {
            match counts.get(&val) {
                Some(c) => *c,
                None => 0,
            }
        } else {
            0
        };
        assert(held_count(counts@, val) == value_count(outs, val));
        assert(c == share_count(outs, i as int));
        if c > best_count {
            best = Some(i);
            best_count = c;
        }
        i = i + 1;
    }
    match best {
        Some(b) => {
            if best_count >= MIN_EQUAL_OUTPUTS {
                CoinjoinResult {
                    detected: true,
                    equal_output_count: Some(best_count),
                    equal_output_value: Some(tx.outputs[b].value as u64),
                }
            } else {
                none
            }
        },
        None => none,
    }
}

} // verus!
