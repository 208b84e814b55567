use vstd::prelude::*;

use crate::parser::block::{block_at, txs_at, TxSlot};
use crate::parser::locality::law_trailing_bytes_do_not_matter;
use crate::parser::tx::{
    law_legacy_tx_roundtrip, legacy_writable, non_witness_bytes,
    attach_witness, i32_bytes, input_bytes, input_reader, input_without_witness, input_writable,
    input_writer, lemma_i32_written, lemma_inputs_read_back, lemma_outputs_read_back,
    lemma_u32_written, output_reader, output_writable, output_writer, tx_at, u32_bytes,
    witness_item_at, witness_item_reader, witness_stack_at, witness_stack_reader, TxInputModel,
    TxModel, TxOutputModel,
};
use crate::parser::varint::{
    compact_size_at, compact_size_bytes, lemma_compact_size_written, le_bytes, ParseError,
};
use crate::parser::wire::{
    concat_map, lemma_concat_map_congruent, lemma_concat_map_push, lemma_piece_at,
    lemma_repeat_written, reads_back,
};

verus! {

// ---------------------------------------------------------------------------
// The full (SegWit) serialization, and reading it back.
// ---------------------------------------------------------------------------
/// One witness item as written: its length as a CompactSize, then its bytes.
pub open spec fn witness_item_bytes(w: Seq<u8>) -> Seq<u8> {
    compact_size_bytes(w.len() as u64) + w
}

pub open spec fn witness_item_writer() -> spec_fn(Seq<u8>) -> Seq<u8> {
    |w: Seq<u8>| witness_item_bytes(w)
}

/// One input's witness stack as written: the item count, then the items.
pub open spec fn witness_stack_bytes(ws: Seq<Seq<u8>>) -> Seq<u8> {
    compact_size_bytes(ws.len() as u64) + concat_map(ws, witness_item_writer())
}

pub open spec fn witness_stack_writer() -> spec_fn(Seq<Seq<u8>>) -> Seq<u8> {
    |ws: Seq<Seq<u8>>| witness_stack_bytes(ws)
}

/// The witness stacks of a transaction's inputs, in order.
pub open spec fn witness_stacks(t: TxModel) -> Seq<Seq<Seq<u8>>> {
    t.inputs.map_values(|i: TxInputModel| i.witness)
}

/// The full serialization of a SegWit transaction (BIP144): version,
/// marker `00`, flag `01`, inputs, outputs, one witness stack per input,
/// lock time.
pub open spec fn segwit_bytes(t: TxModel) -> Seq<u8> {
    i32_bytes(t.version) + seq![0x00u8, 0x01u8] + compact_size_bytes(t.inputs.len() as u64)
        + concat_map(t.inputs, input_writer()) + compact_size_bytes(t.outputs.len() as u64)
        + concat_map(t.outputs, output_writer()) + concat_map(
        witness_stacks(t),
        witness_stack_writer(),
    ) + u32_bytes(t.locktime)
}

/// A witness stack whose count and item lengths fit a CompactSize.
pub open spec fn stack_writable(ws: Seq<Seq<u8>>) -> bool {
    ws.len() <= u64::MAX && forall|k: int| 0 <= k < ws.len() ==> (#[trigger] ws[k]).len()
        <= u64::MAX
}

/// A SegWit transaction that its full serialization can carry.
pub open spec fn segwit_writable(t: TxModel) -> bool {
    &&& t.is_segwit
    &&& t.inputs.len() <= u64::MAX
    &&& t.outputs.len() <= u64::MAX
    &&& forall|i: int|
        0 <= i < t.inputs.len() ==> input_writable(input_without_witness(#[trigger] t.inputs[i]))
            && stack_writable(t.inputs[i].witness)
    &&& forall|j: int| 0 <= j < t.outputs.len() ==> output_writable(#[trigger] t.outputs[j])
}

proof fn lemma_items_read_back(s: Seq<u8>)
    ensures
        reads_back(
            witness_item_reader(),
            witness_item_writer(),
            |w: Seq<u8>| w.len() <= u64::MAX,
            s,
        ),
{
    assert forall|pos: int, w: Seq<u8>|
        #![trigger witness_item_reader()(s, pos), witness_item_writer()(w)]
        w.len() <= u64::MAX && 0 <= pos && pos + witness_item_writer()(w).len() <= s.len()
            && s.subrange(pos, pos + witness_item_writer()(w).len()) == witness_item_writer()(
            w,
        ) implies witness_item_reader()(s, pos) == Some(
        (w, pos + witness_item_writer()(w).len()),
    ) by {
        let whole = witness_item_bytes(w);
        let cs = compact_size_bytes(w.len() as u64);
        assert(whole.subrange(0, cs.len() as int) =~= cs);
        lemma_piece_at(s, pos, whole, 0, cs);
        lemma_compact_size_written(s, pos, w.len() as u64);
        assert(whole.subrange(cs.len() as int, whole.len() as int) =~= w);
        lemma_piece_at(s, pos, whole, cs.len() as int, w);
    }
}

proof fn lemma_stacks_read_back(s: Seq<u8>)
    ensures
        reads_back(
            witness_stack_reader(),
            witness_stack_writer(),
            |ws: Seq<Seq<u8>>| stack_writable(ws),
            s,
        ),
{
    lemma_items_read_back(s);
    assert forall|pos: int, ws: Seq<Seq<u8>>|
        #![trigger witness_stack_reader()(s, pos), witness_stack_writer()(ws)]
        stack_writable(ws) && 0 <= pos && pos + witness_stack_writer()(ws).len() <= s.len()
            && s.subrange(pos, pos + witness_stack_writer()(ws).len()) == witness_stack_writer()(
            ws,
        ) implies witness_stack_reader()(s, pos) == Some(
        (ws, pos + witness_stack_writer()(ws).len()),
    ) by {
        let whole = witness_stack_bytes(ws);
        let cs = compact_size_bytes(ws.len() as u64);
        let items = concat_map(ws, witness_item_writer());
        assert(whole.subrange(0, cs.len() as int) =~= cs);
        lemma_piece_at(s, pos, whole, 0, cs);
        lemma_compact_size_written(s, pos, ws.len() as u64);
        assert(whole.subrange(cs.len() as int, whole.len() as int) =~= items);
        lemma_piece_at(s, pos, whole, cs.len() as int, items);
        lemma_repeat_written(
            witness_item_reader(),
            witness_item_writer(),
            |w: Seq<u8>| w.len() <= u64::MAX,
            s,
            pos + cs.len(),
            ws,
        );
    }
}

/// Where the pieces of the full serialization lie.
#[verifier::spinoff_prover]
proof fn lemma_segwit_layout(t: TxModel)
    ensures
        ({
            let s = segwit_bytes(t);
            let c1 = compact_size_bytes(t.inputs.len() as u64);
            let ins = concat_map(t.inputs, input_writer());
            let c2 = compact_size_bytes(t.outputs.len() as u64);
            let outs = concat_map(t.outputs, output_writer());
            let wits = concat_map(witness_stacks(t), witness_stack_writer());
            let p1 = 6 + c1.len() as int;
            let p2 = p1 + ins.len();
            let p3 = p2 + c2.len();
            let p4 = p3 + outs.len();
            let p5 = p4 + wits.len();
            &&& s.len() == p5 + 4
            &&& s.subrange(0, 4) == i32_bytes(t.version)
            &&& s[4] == 0x00
            &&& s[5] == 0x01
            &&& s.subrange(6, p1) == c1
            &&& s.subrange(p1, p2) == ins
            &&& s.subrange(p2, p3) == c2
            &&& s.subrange(p3, p4) == outs
            &&& s.subrange(p4, p5) == wits
            &&& s.subrange(p5, p5 + 4) == u32_bytes(t.locktime)
        }),
{
    reveal_with_fuel(le_bytes, 9);
    let s = segwit_bytes(t);
    let v = i32_bytes(t.version);
    let c1 = compact_size_bytes(t.inputs.len() as u64);
    let ins = concat_map(t.inputs, input_writer());
    let c2 = compact_size_bytes(t.outputs.len() as u64);
    let outs = concat_map(t.outputs, output_writer());
    let wits = concat_map(witness_stacks(t), witness_stack_writer());
    let l = u32_bytes(t.locktime);
    let p1 = 6 + c1.len() as int;
    let p2 = p1 + ins.len();
    let p3 = p2 + c2.len();
    let p4 = p3 + outs.len();
    let p5 = p4 + wits.len();
    assert(s == v + seq![0x00u8, 0x01u8] + c1 + ins + c2 + outs + wits + l);
    assert(s.subrange(0, 4) =~= v);
    assert(s.subrange(6, p1) =~= c1);
    assert(s.subrange(p1, p2) =~= ins);
    assert(s.subrange(p2, p3) =~= c2);
    assert(s.subrange(p3, p4) =~= outs);
    assert(s.subrange(p4, p5) =~= wits);
    assert(s.subrange(p5, p5 + 4) =~= l);
}

/// The inputs as read from the full serialization: without their witness
/// stacks, which come after the outputs.
pub open spec fn stripped_inputs(t: TxModel) -> Seq<TxInputModel> {
    t.inputs.map_values(|i: TxInputModel| input_without_witness(i))
}

/// Decoding the full serialization of a SegWit transaction gives the
/// transaction back, witness stacks included, and consumes all of its bytes.
#[verifier::spinoff_prover]
pub proof fn law_segwit_tx_roundtrip(t: TxModel)
    requires
        segwit_writable(t),
    ensures
        tx_at(segwit_bytes(t)) == Ok::<(TxModel, int), ParseError>(
            (t, segwit_bytes(t).len() as int),
        ),
{
    let s = segwit_bytes(t);
    let c1 = compact_size_bytes(t.inputs.len() as u64);
    let ins = concat_map(t.inputs, input_writer());
    let c2 = compact_size_bytes(t.outputs.len() as u64);
    let outs = concat_map(t.outputs, output_writer());
    let stacks = witness_stacks(t);
    let wits = concat_map(stacks, witness_stack_writer());
    let p1 = 6 + c1.len() as int;
    let p2 = p1 + ins.len();
    let p3 = p2 + c2.len();
    let p4 = p3 + outs.len();
    let p5 = p4 + wits.len();
    lemma_segwit_layout(t);
    lemma_i32_written(s, 0, t.version);
    lemma_compact_size_written(s, 6, t.inputs.len() as u64);
    let stripped = stripped_inputs(t);
    assert forall|j: int| 0 <= j < stripped.len() implies input_writer()(#[trigger] stripped[j])
        == input_writer()(t.inputs[j]) by {
        assert(input_bytes(stripped[j]) == input_bytes(t.inputs[j]));
    }
    lemma_concat_map_congruent(stripped, t.inputs, input_writer());
    lemma_inputs_read_back(s);
    assert(forall|j: int| 0 <= j < stripped.len() ==> input_writable(#[trigger] stripped[j]));
    lemma_repeat_written(
        input_reader(),
        input_writer(),
        |x: TxInputModel| input_writable(x),
        s,
        p1,
        stripped,
    );
    lemma_compact_size_written(s, p2, t.outputs.len() as u64);
    lemma_outputs_read_back(s);
    lemma_repeat_written(
        output_reader(),
        output_writer(),
        |o: TxOutputModel| output_writable(o),
        s,
        p3,
        t.outputs,
    );
    lemma_stacks_read_back(s);
    assert(forall|j: int| 0 <= j < stacks.len() ==> stack_writable(#[trigger] stacks[j]));
    lemma_repeat_written(
        witness_stack_reader(),
        witness_stack_writer(),
        |ws: Seq<Seq<u8>>| stack_writable(ws),
        s,
        p4,
        stacks,
    );
    lemma_u32_written(s, p5, t.locktime);
    assert(attach_witness(stripped, stacks) =~= t.inputs);
}

// ---------------------------------------------------------------------------
// Blocks of encoded transactions.
// ---------------------------------------------------------------------------
/// A transaction as a block carries it: the full serialization of a SegWit
/// transaction, the legacy one otherwise.
pub open spec fn tx_bytes(t: TxModel) -> Seq<u8> {
    if t.is_segwit {
        segwit_bytes(t)
    } else {
        non_witness_bytes(t)
    }
}

pub open spec fn tx_writer() -> spec_fn(TxModel) -> Seq<u8> {
    |t: TxModel| tx_bytes(t)
}

/// A transaction that its serialization can carry.
pub open spec fn tx_writable(t: TxModel) -> bool {
    if t.is_segwit {
        segwit_writable(t)
    } else {
        legacy_writable(t)
    }
}

/// A block as written: an 80-byte header, the transaction count, and the
/// transactions one after the other.
pub open spec fn block_bytes(header: Seq<u8>, txs: Seq<TxModel>) -> Seq<u8> {
    header + compact_size_bytes(txs.len() as u64) + concat_map(txs, tx_writer())
}

proof fn lemma_tx_bytes_read(t: TxModel, rest: Seq<u8>)
    requires
        tx_writable(t),
    ensures
        tx_at(tx_bytes(t) + rest) == Ok::<(TxModel, int), ParseError>(
            (t, tx_bytes(t).len() as int),
        ),
{
    if t.is_segwit {
        law_segwit_tx_roundtrip(t);
    } else {
        law_legacy_tx_roundtrip(t);
    }
    law_trailing_bytes_do_not_matter(tx_bytes(t), rest);
}

proof fn lemma_concat_map_prefix<T>(xs: Seq<T>, f: spec_fn(T) -> Seq<u8>, k: int)
    requires
        0 <= k <= xs.len(),
    ensures
        concat_map(xs.take(k), f).len() <= concat_map(xs, f).len(),
        concat_map(xs, f).subrange(0, concat_map(xs.take(k), f).len() as int) == concat_map(
            xs.take(k),
            f,
        ),
    decreases xs.len(),
{
    if k == xs.len() {
        assert(xs.take(k) =~= xs);
        assert(concat_map(xs, f).subrange(0, concat_map(xs, f).len() as int) =~= concat_map(xs, f));
    } else {
        assert(xs.drop_last().take(k) =~= xs.take(k));
        lemma_concat_map_prefix(xs.drop_last(), f, k);
        let whole = concat_map(xs, f);
        let front = concat_map(xs.drop_last(), f);
        let pre = concat_map(xs.take(k), f);
        assert(whole == front + f(xs.last()));
        assert(whole.subrange(0, pre.len() as int) =~= front.subrange(0, pre.len() as int));
    }
}

proof fn lemma_tx_piece(d: Seq<u8>, pos: int, txs: Seq<TxModel>, i: int)
    requires
        0 <= pos,
        pos + concat_map(txs, tx_writer()).len() <= d.len(),
        d.subrange(pos, pos + concat_map(txs, tx_writer()).len()) == concat_map(txs, tx_writer()),
        0 <= i < txs.len(),
    ensures
        ({
            let p = pos + concat_map(txs.take(i), tx_writer()).len();
            let n = tx_bytes(txs[i]).len();
            &&& concat_map(txs.take(i + 1), tx_writer()).len() == concat_map(txs.take(i), tx_writer()).len() + n
            &&& p + n <= d.len()
            &&& d.subrange(p, d.len() as int) == tx_bytes(txs[i]) + d.subrange(p + n, d.len() as int)
        }),
{
    let f = tx_writer();
    let x = txs[i];
    assert(txs.take(i).push(x) =~= txs.take(i + 1));
    lemma_concat_map_push(txs.take(i), x, f);
    lemma_concat_map_prefix(txs, f, i + 1);
    let whole = concat_map(txs, f);
    let pre = concat_map(txs.take(i + 1), f);
    let before = concat_map(txs.take(i), f);
    lemma_piece_at(d, pos, whole, 0, pre);
    assert(pre.subrange(before.len() as int, pre.len() as int) =~= f(x));
    lemma_piece_at(d, pos, pre, before.len() as int, f(x));
    let p = pos + before.len();
    let n = f(x).len();
    assert(d.subrange(p, d.len() as int) =~= d.subrange(p, p + n) + d.subrange(p + n, d.len() as int));
}

#[verifier::spinoff_prover]
#[verifier::rlimit(30)]
proof fn lemma_txs_read(d: Seq<u8>, pos: int, txs: Seq<TxModel>, k: nat)
    requires
        0 <= pos,
        pos + concat_map(txs, tx_writer()).len() <= d.len(),
        d.subrange(pos, pos + concat_map(txs, tx_writer()).len()) == concat_map(txs, tx_writer()),
        forall|j: int| 0 <= j < txs.len() ==> tx_writable(#[trigger] txs[j]),
        k <= txs.len(),
    ensures
        txs_at(d, pos, k) is Ok,
        ({
            let (slots, end) = txs_at(d, pos, k)->Ok_0;
            &&& end == pos + concat_map(txs.take(k as int), tx_writer()).len()
            &&& slots.len() == k
            &&& forall|j: int|
                0 <= j < k ==> (#[trigger] slots[j]).tx == txs[j] && slots[j].size == tx_bytes(
                    txs[j],
                ).len() && slots[j].start == pos + concat_map(txs.take(j), tx_writer()).len()
        }),
    decreases k,
{
    if k == 0 {
        assert(txs.take(0) =~= Seq::<TxModel>::empty());
    } else {
        let i = (k - 1) as int;
        lemma_txs_read(d, pos, txs, (k - 1) as nat);
        let (prev, p) = txs_at(d, pos, (k - 1) as nat)->Ok_0;
        let x = txs[i];
        lemma_tx_piece(d, pos, txs, i);
        let n = tx_bytes(x).len();
        lemma_tx_bytes_read(x, d.subrange(p + n, d.len() as int));
        assert(tx_at(d.subrange(p, d.len() as int)) == Ok::<(TxModel, int), ParseError>(
            (x, n as int),
        ));
        let (slots, end) = txs_at(d, pos, k)->Ok_0;
        assert(slots == prev.push(TxSlot { tx: x, start: p, size: n as int }));
        assert forall|j: int| 0 <= j < k implies (#[trigger] slots[j]).tx == txs[j]
            && slots[j].size == tx_bytes(txs[j]).len() && slots[j].start == pos + concat_map(
            txs.take(j),
            tx_writer(),
        ).len() by {
            if j < i {
                assert(slots[j] == prev[j]);
            }
        }
    }
}

/// A block written from a header and transactions decodes back to those
/// transactions, in order, each with its full serialized length as its
/// size, one starting right where the previous one's bytes end.
pub proof fn law_block_of_encoded_transactions_decodes_back(header: Seq<u8>, txs: Seq<TxModel>)
    requires
        header.len() == 80,
        txs.len() <= u64::MAX,
        forall|j: int| 0 <= j < txs.len() ==> tx_writable(#[trigger] txs[j]),
    ensures
        block_at(block_bytes(header, txs)) is Ok,
        ({
            let m = block_at(block_bytes(header, txs))->Ok_0;
            &&& m.txs.len() == txs.len()
            &&& forall|j: int|
                0 <= j < txs.len() ==> (#[trigger] m.txs[j]).tx == txs[j] && m.txs[j].size
                    == tx_bytes(txs[j]).len() && m.txs[j].start == 80 + compact_size_bytes(
                    txs.len() as u64,
                ).len() + concat_map(txs.take(j), tx_writer()).len()
        }),
{
    let d = block_bytes(header, txs);
    let c = compact_size_bytes(txs.len() as u64);
    let body = concat_map(txs, tx_writer());
    let pos = 80 + c.len() as int;
    assert(d.subrange(80, pos) =~= c);
    lemma_compact_size_written(d, 80, txs.len() as u64);
    assert(d.subrange(pos, pos + body.len()) =~= body);
    assert(txs.take(txs.len() as int) =~= txs);
    lemma_txs_read(d, pos, txs, txs.len() as nat);
}

} // verus!
