use vstd::prelude::*;

use crate::parser::tx::{RawTx, TxModel, TxOutputModel};
use crate::parser::undo::UndoCoin;

verus! {

/// The standard output script templates.
#[derive(Debug, Clone, Copy, PartialEq, Eq, Structural)]
pub enum ScriptType {
    P2pkh,
    P2sh,
    P2wpkh,
    P2wsh,
    P2tr,
    OpReturn,
    Unknown,
}

impl ScriptType {
    pub open spec fn label(self) -> &'static str {
        match self {
            ScriptType::P2pkh => "p2pkh",
            ScriptType::P2sh => "p2sh",
            ScriptType::P2wpkh => "p2wpkh",
            ScriptType::P2wsh => "p2wsh",
            ScriptType::P2tr => "p2tr",
            ScriptType::OpReturn => "op_return",
            ScriptType::Unknown => "unknown",
        }
    }

    /// The name reports use for this script type.
    pub fn as_str(&self) -> (s: &'static str)
        ensures
            s == self.label(),
    {
        match self {
            ScriptType::P2pkh => "p2pkh",
            ScriptType::P2sh => "p2sh",
            ScriptType::P2wpkh => "p2wpkh",
            ScriptType::P2wsh => "p2wsh",
            ScriptType::P2tr => "p2tr",
            ScriptType::OpReturn => "op_return",
            ScriptType::Unknown => "unknown",
        }
    }

    /// A type that can stand for the inputs of a wallet: a known template
    /// other than OP_RETURN.
    pub open spec fn is_spendable_template(self) -> bool {
        self != ScriptType::Unknown && self != ScriptType::OpReturn
    }
}

/// The template a scriptPubKey follows.
pub open spec fn script_type_of(s: Seq<u8>) -> ScriptType {
    if s.len() >= 1 && s[0] == 0x6a {
        ScriptType::OpReturn
    } else if s.len() == 25 && s[0] == 0x76 && s[1] == 0xa9 && s[2] == 0x14 && s[23] == 0x88 && s[24]
        == 0xac {
        ScriptType::P2pkh
    } else if s.len() == 23 && s[0] == 0xa9 && s[1] == 0x14 && s[22] == 0x87 {
        ScriptType::P2sh
    } else if s.len() == 22 && s[0] == 0x00 && s[1] == 0x14 {
        ScriptType::P2wpkh
    } else if s.len() == 34 && s[0] == 0x00 && s[1] == 0x20 {
        ScriptType::P2wsh
    } else if s.len() == 34 && s[0] == 0x51 && s[1] == 0x20 {
        ScriptType::P2tr
    } else {
        ScriptType::Unknown
    }
}

/// An OP_RETURN (data carrier) script.
pub open spec fn is_op_return(s: Seq<u8>) -> bool {
    s.len() >= 1 && s[0] == 0x6a
}

/// The template a scriptPubKey follows.
pub fn script_type(script_pubkey: &[u8]) -> (t: ScriptType)
    ensures
        t == script_type_of(script_pubkey@),
{
    let s = script_pubkey;
    let len = s.len();
    if len >= 1 && s[0] == 0x6a {
        return ScriptType::OpReturn;
    }
    if len == 25 && s[0] == 0x76 && s[1] == 0xa9 && s[2] == 0x14 && s[23] == 0x88 && s[24] == 0xac {
        return ScriptType::P2pkh;
    }
    if len == 23 && s[0] == 0xa9 && s[1] == 0x14 && s[22] == 0x87 {
        return ScriptType::P2sh;
    }
    if len == 22 && s[0] == 0x00 && s[1] == 0x14 {
        return ScriptType::P2wpkh;
    }
    if len == 34 && s[0] == 0x00 && s[1] == 0x20 {
        return ScriptType::P2wsh;
    }
    if len == 34 && s[0] == 0x51 && s[1] == 0x20 {
        return ScriptType::P2tr;
    }
    ScriptType::Unknown
}

/// The name of the template a scriptPubKey follows.
pub fn classify_output(script_pubkey: &[u8]) -> (name: &'static str)
    ensures
        name == script_type_of(script_pubkey@).label(),
{
    script_type(script_pubkey).as_str()
}

/// How an input spends its previous output, from that output's template,
/// the scriptSig and the witness: P2TR key path (one 64/65-byte signature,
/// or no control block) or script path (last witness item a control block
/// starting `0xc0`/`0xc1`), and P2SH wrapping a SegWit v0 program.
pub open spec fn input_type_of(prevout: Seq<u8>, sig: Seq<u8>, witness: Seq<Seq<u8>>) -> &'static str {
    match script_type_of(prevout) {
        ScriptType::P2pkh => "p2pkh",
        ScriptType::P2wpkh => "p2wpkh",
        ScriptType::P2wsh => "p2wsh",
        ScriptType::P2tr => if witness.len() == 1 && (witness[0].len() == 64 || witness[0].len()
            == 65) {
            "p2tr_keypath"
        } else if witness.len() >= 2 {
            let last = witness[witness.len() - 1];
            if last.len() > 0 && (last[0] == 0xc0 || last[0] == 0xc1) {
                "p2tr_scriptpath"
            } else {
                "p2tr_keypath"
            }
        } else {
            "unknown"
        },
        ScriptType::P2sh => if sig.len() > 0 && witness.len() > 0 && sig[0] + 1 == sig.len()
            && sig[0] >= 2 {
            let redeem = sig.subrange(1, sig.len() as int);
            if redeem.len() == 22 && redeem[0] == 0x00 && redeem[1] == 0x14 {
                "p2sh-p2wpkh"
            } else if redeem.len() == 34 && redeem[0] == 0x00 && redeem[1] == 0x20 {
                "p2sh-p2wsh"
            } else {
                "unknown"
            }
        } else {
            "unknown"
        },
        _ => "unknown",
    }
}

/// Names how an input spends its previous output.
pub fn classify_input(prevout_script_pubkey: &[u8], script_sig: &[u8], witness: &[Vec<u8>]) -> (name:
    &'static str)
    ensures
        name == input_type_of(
            prevout_script_pubkey@,
            script_sig@,
            witness@.map_values(|w: Vec<u8>| w@),
        ),
{
    let ghost ws = witness@.map_values(|w: Vec<u8>| w@);
    match script_type(prevout_script_pubkey) {
        ScriptType::P2pkh => "p2pkh",
        ScriptType::P2wpkh => "p2wpkh",
        ScriptType::P2wsh => "p2wsh",
        ScriptType::P2tr => {
            if witness.len() == 1 && (witness[0].len() == 64 || witness[0].len() == 65) {
                "p2tr_keypath"
            } else if witness.len() >= 2 {
                let last = &witness[witness.len() - 1];
                assert(last@ == ws[ws.len() - 1]);
                if last.len() > 0 && (last[0] == 0xc0 || last[0] == 0xc1) {
                    "p2tr_scriptpath"
                } else {
                    "p2tr_keypath"
                }
            } else {
                "unknown"
            }
        },
        ScriptType::P2sh => {
            if script_sig.len() > 0 && witness.len() > 0 {
                let push_len = script_sig[0] as usize;
                if push_len + 1 == script_sig.len() && push_len >= 2 {
                    let redeem = vstd::slice::slice_subrange(script_sig, 1, script_sig.len());
                    if redeem.len() == 22 && redeem[0] == 0x00 && redeem[1] == 0x14 {
                        return "p2sh-p2wpkh";
                    }
                    if redeem.len() == 34 && redeem[0] == 0x00 && redeem[1] == 0x20 {
                        return "p2sh-p2wsh";
                    }
                }
            }
            "unknown"
        },
        _ => "unknown",
    }
}

/// The number of outputs that are not OP_RETURN data carriers.
pub open spec fn real_output_count(outs: Seq<TxOutputModel>) -> nat
    decreases outs.len(),
{
    if outs.len() == 0 {
        0
    } else {
        real_output_count(outs.drop_last()) + (if is_op_return(outs.last().script_pubkey) {
            0nat
        } else {
            1nat
        })
    }
}

/// Every output that is not OP_RETURN follows the template `t`.
pub open spec fn real_outputs_follow(outs: Seq<TxOutputModel>, t: ScriptType) -> bool {
    forall|i: int|
        0 <= i < outs.len() && !is_op_return(#[trigger] outs[i].script_pubkey) ==> script_type_of(
            outs[i].script_pubkey,
        ) == t
}

/// Counts the outputs of `tx` that are not OP_RETURN.
pub fn count_real_outputs(tx: &RawTx) -> (n: usize)
    ensures
        n == real_output_count(tx@.outputs),
{
    let ghost outs = tx@.outputs;
    let mut n: usize = 0;
    let mut i: usize = 0;
    while i < tx.outputs.len()
        invariant
            outs == tx@.outputs,
            i <= outs.len(),
            n == real_output_count(outs.take(i as int)),
            n <= i,
        decreases outs.len() - i,
    {
        assert(outs.take(i + 1).drop_last() =~= outs.take(i as int));
        let o = &tx.outputs[i];
        assert(o@ == outs[i as int]);
        if o.script_pubkey.len() == 0 || o.script_pubkey[0] != 0x6a {
            n = n + 1;
        }
        i = i + 1;
    }
    assert(outs.take(outs.len() as int) =~= outs);
    n
}

/// Whether every non-OP_RETURN output of `tx` follows the template `t`.
pub fn real_outputs_all_follow(tx: &RawTx, t: ScriptType) -> (b: bool)
    ensures
        b == real_outputs_follow(tx@.outputs, t),
{
    let ghost outs = tx@.outputs;
    let mut i: usize = 0;
    while i < tx.outputs.len()
        invariant
            outs == tx@.outputs,
            i <= outs.len(),
            forall|j: int|
                0 <= j < i && !is_op_return(#[trigger] outs[j].script_pubkey) ==> script_type_of(
                    outs[j].script_pubkey,
                ) == t,
        decreases outs.len() - i,
    {
        let o = &tx.outputs[i];
        assert(o@ == outs[i as int]);
        if !(o.script_pubkey.len() >= 1 && o.script_pubkey[0] == 0x6a) {
            if script_type(o.script_pubkey.as_slice()) != t {
                assert(!is_op_return(outs[i as int].script_pubkey));
                return false;
            }
        }
        i = i + 1;
    }
    true
}

/// The null outpoint that a coinbase input spends: 32 zero bytes.
pub open spec fn is_null_txid(h: Seq<u8>) -> bool {
    h.len() == 32 && forall|j: int| 0 <= j < 32 ==> h[j] == 0
}

/// A coinbase transaction: one input, spending the null outpoint with
/// index `0xFFFFFFFF`.
pub open spec fn is_coinbase_tx(t: TxModel) -> bool {
    &&& t.inputs.len() == 1
    &&& is_null_txid(t.inputs[0].prev_txid)
    &&& t.inputs[0].vout == 0xFFFF_FFFF
}

/// Whether `tx` is a coinbase transaction.
pub fn is_coinbase(tx: &RawTx) -> (b: bool)
    ensures
        b == is_coinbase_tx(tx@),
{
    if tx.inputs.len() != 1 {
        return false;
    }
    let inp = &tx.inputs[0];
    assert(inp@ == tx@.inputs[0]);
    if inp.vout != 0xFFFF_FFFF {
        return false;
    }
    let mut j: usize = 0;
    while j < 32
        invariant
            j <= 32,
            inp@ == tx@.inputs[0],
            tx@.inputs.len() == 1,
            inp.vout == 0xFFFF_FFFF,
            inp.prev_txid@.len() == 32,
            forall|t: int| 0 <= t < j ==> inp.prev_txid@[t] == 0,
        decreases 32 - j,
    {
        if inp.prev_txid[j] != 0 {
            return false;
        }
        j = j + 1;
    }
    true
}

/// The one template that every spent output follows, if they all follow the
/// same one (and there is at least one).
pub open spec fn uniform_type(prevouts: Seq<UndoCoin>) -> Option<ScriptType> {
    if prevouts.len() > 0 && forall|i: int|
        0 <= i < prevouts.len() ==> script_type_of(#[trigger] prevouts[i].script_pubkey@)
            == script_type_of(prevouts[0].script_pubkey@) {
        Some(script_type_of(prevouts[0].script_pubkey@))
    } else {
        None
    }
}

/// The common template of the spent outputs, when there is one.
pub fn uniform_input_type(prevouts: &[UndoCoin]) -> (t: Option<ScriptType>)
    ensures
        t == uniform_type(prevouts@),
{
    if prevouts.len() == 0 {
        return None;
    }
    let first = script_type(prevouts[0].script_pubkey.as_slice());
    let mut i: usize = 1;
    while i < prevouts.len()
        invariant
            1 <= i <= prevouts@.len(),
            first == script_type_of(prevouts@[0].script_pubkey@),
            forall|j: int|
                0 <= j < i ==> script_type_of(#[trigger] prevouts@[j].script_pubkey@) == first,
        decreases prevouts@.len() - i,
    {
        if script_type(prevouts[i].script_pubkey.as_slice()) != first {
            return None;
        }
        i = i + 1;
    }
    Some(first)
}

} // verus!
