use vstd::prelude::*;

use crate::hash::{display_hex, double_sha256, hex_of, sha256d, to_display_hex, to_hex};
use crate::parser::varint::{
    bytes_at, compact_size_at, compact_size_bytes, encode_compact_size, i32_at, i64_at, le4, le8,
    le_bytes, lemma_compact_size_written, lemma_le4_written, lemma_le8_written, push_le,
    read_bytes, read_compact_size, read_i32_le, read_i64_le, read_u32_le, signed32, signed64,
    u32_at, Cursor, ParseError,
};
use crate::parser::wire::{
    append_bytes, concat_map, lemma_compact_size_shortest, lemma_concat_map_congruent,
    lemma_concat_map_push, lemma_piece_at, lemma_repeat_covers, lemma_repeat_fails_on,
    lemma_repeat_written, reader_covers, reads_back, repeat_at,
};

verus! {

/// A transaction input as plain values.
pub struct TxInputModel {
    pub prev_txid: Seq<u8>,
    pub vout: u32,
    pub script_sig: Seq<u8>,
    pub sequence: u32,
    pub witness: Seq<Seq<u8>>,
}

/// A transaction output as plain values.
pub struct TxOutputModel {
    pub value: i64,
    pub script_pubkey: Seq<u8>,
}

/// The fields that a transaction's wire encoding carries.
pub struct TxModel {
    pub version: i32,
    pub is_segwit: bool,
    pub inputs: Seq<TxInputModel>,
    pub outputs: Seq<TxOutputModel>,
    pub locktime: u32,
}

#[derive(Debug, Clone)]
pub struct TxInput {
    pub prev_txid: [u8; 32],
    pub vout: u32,
    pub script_sig: Vec<u8>,
    pub sequence: u32,
    pub witness: Vec<Vec<u8>>,
}

#[derive(Debug, Clone)]
pub struct TxOutput {
    pub value: i64,
    pub script_pubkey: Vec<u8>,
}

/// A decoded transaction, with the identifiers and sizes computed from its
/// bytes.
#[derive(Debug, Clone)]
pub struct RawTx {
    pub version: i32,
    pub is_segwit: bool,
    pub inputs: Vec<TxInput>,
    pub outputs: Vec<TxOutput>,
    pub locktime: u32,
    pub non_witness_bytes: Vec<u8>,
    pub txid: String,
    pub txid_hash: [u8; 32],
    pub wtxid: Option<String>,
    pub size: usize,
    pub weight: usize,
}

impl View for TxInput {
    type V = TxInputModel;

    open spec fn view(&self) -> TxInputModel {
        TxInputModel {
            prev_txid: self.prev_txid@,
            vout: self.vout,
            script_sig: self.script_sig@,
            sequence: self.sequence,
            witness: self.witness@.map_values(|w: Vec<u8>| w@),
        }
    }
}

impl View for TxOutput {
    type V = TxOutputModel;

    open spec fn view(&self) -> TxOutputModel {
        TxOutputModel { value: self.value, script_pubkey: self.script_pubkey@ }
    }
}

impl View for RawTx {
    type V = TxModel;

    open spec fn view(&self) -> TxModel {
        TxModel {
            version: self.version,
            is_segwit: self.is_segwit,
            inputs: self.inputs@.map_values(|i: TxInput| i@),
            outputs: self.outputs@.map_values(|o: TxOutput| o@),
            locktime: self.locktime,
        }
    }
}

impl TxInput {
    /// The spent transaction's id as displayed: hexadecimal, last byte first.
    pub fn prev_txid_hex(&self) -> (s: String)
        ensures
            s@ == display_hex(self.prev_txid@),
    {
        to_display_hex(&self.prev_txid)
    }
}

// ---------------------------------------------------------------------------
// The wire format, read.
// ---------------------------------------------------------------------------
/// One input without its witness: outpoint, scriptSig, sequence.
pub open spec fn input_at(s: Seq<u8>, pos: int) -> Option<(TxInputModel, int)> {
    match bytes_at(s, pos, 32) {
        None => None,
        Some((txid, p1)) => match u32_at(s, p1) {
            None => None,
            Some((vout, p2)) => match compact_size_at(s, p2) {
                None => None,
                Some((n, p3)) => match bytes_at(s, p3, n as int) {
                    None => None,
                    Some((sig, p4)) => match u32_at(s, p4) {
                        None => None,
                        Some((sequence, p5)) => Some(
                            (
                                TxInputModel {
                                    prev_txid: txid,
                                    vout,
                                    script_sig: sig,
                                    sequence,
                                    witness: Seq::empty(),
                                },
                                p5,
                            ),
                        ),
                    },
                },
            },
        },
    }
}

/// One output: value and scriptPubKey.
pub open spec fn output_at(s: Seq<u8>, pos: int) -> Option<(TxOutputModel, int)> {
    match i64_at(s, pos) {
        None => None,
        Some((value, p1)) => match compact_size_at(s, p1) {
            None => None,
            Some((n, p2)) => match bytes_at(s, p2, n as int) {
                None => None,
                Some((script, p3)) => Some((TxOutputModel { value, script_pubkey: script }, p3)),
            },
        },
    }
}

/// One witness item: a CompactSize length and that many bytes.
pub open spec fn witness_item_at(s: Seq<u8>, pos: int) -> Option<(Seq<u8>, int)> {
    match compact_size_at(s, pos) {
        None => None,
        Some((n, p1)) => bytes_at(s, p1, n as int),
    }
}

/// One input's witness stack: a CompactSize count and that many items.
pub open spec fn witness_stack_at(s: Seq<u8>, pos: int) -> Option<(Seq<Seq<u8>>, int)> {
    match compact_size_at(s, pos) {
        None => None,
        Some((n, p1)) => repeat_at(witness_item_reader(), s, p1, n as nat),
    }
}

pub open spec fn input_reader() -> spec_fn(Seq<u8>, int) -> Option<(TxInputModel, int)> {
    |s: Seq<u8>, p: int| input_at(s, p)
}

pub open spec fn output_reader() -> spec_fn(Seq<u8>, int) -> Option<(TxOutputModel, int)> {
    |s: Seq<u8>, p: int| output_at(s, p)
}

pub open spec fn witness_item_reader() -> spec_fn(Seq<u8>, int) -> Option<(Seq<u8>, int)> {
    |s: Seq<u8>, p: int| witness_item_at(s, p)
}

pub open spec fn witness_stack_reader() -> spec_fn(Seq<u8>, int) -> Option<(Seq<Seq<u8>>, int)> {
    |s: Seq<u8>, p: int| witness_stack_at(s, p)
}

/// The inputs with the witness stacks read after the outputs attached, one
/// per input in order.
pub open spec fn attach_witness(ins: Seq<TxInputModel>, ws: Seq<Seq<Seq<u8>>>) -> Seq<
    TxInputModel,
> {
    Seq::new(
        ins.len(),
        |j: int|
            TxInputModel {
                prev_txid: ins[j].prev_txid,
                vout: ins[j].vout,
                script_sig: ins[j].script_sig,
                sequence: ins[j].sequence,
                witness: ws[j],
            },
    )
}

/// Everything after the version (and the SegWit marker and flag): inputs,
/// outputs, the witness stacks when `segwit`, and the lock time.
pub open spec fn tx_body_at(s: Seq<u8>, version: i32, segwit: bool, start: int) -> Result<
    (TxModel, int),
    ParseError,
> {
    match compact_size_at(s, start) {
        None => Err(ParseError::UnexpectedEof),
        Some((n_in, p1)) => match repeat_at(input_reader(), s, p1, n_in as nat) {
            None => Err(ParseError::UnexpectedEof),
            Some((ins, p2)) => match compact_size_at(s, p2) {
                None => Err(ParseError::UnexpectedEof),
                Some((n_out, p3)) => match repeat_at(output_reader(), s, p3, n_out as nat) {
                    None => Err(ParseError::UnexpectedEof),
                    Some((outs, p4)) => match (if segwit {
                        repeat_at(witness_stack_reader(), s, p4, ins.len())
                    } else {
                        Some((Seq::empty(), p4))
                    }) {
                        None => Err(ParseError::UnexpectedEof),
                        Some((ws, p5)) => match u32_at(s, p5) {
                            None => Err(ParseError::UnexpectedEof),
                            Some((locktime, p6)) => Ok(
                                (
                                    TxModel {
                                        version,
                                        is_segwit: segwit,
                                        inputs: if segwit {
                                            attach_witness(ins, ws)
                                        } else {
                                            ins
                                        },
                                        outputs: outs,
                                        locktime,
                                    },
                                    p6,
                                ),
                            ),
                        },
                    },
                },
            },
        },
    }
}

/// A transaction at the start of `s`, and the number of bytes it takes.
/// A zero byte after the version is the SegWit marker; the flag after it
/// must be `0x01`.
pub open spec fn tx_at(s: Seq<u8>) -> Result<(TxModel, int), ParseError> {
    match i32_at(s, 0) {
        None => Err(ParseError::UnexpectedEof),
        Some((version, p0)) => if s.len() < 5 {
            Err(ParseError::UnexpectedEof)
        } else if s[4] == 0 && s.len() < 6 {
            Err(ParseError::UnexpectedEof)
        } else if s[4] == 0 && s[5] != 1 {
            Err(ParseError::InvalidSegwitFlag)
        } else if s[4] == 0 {
            tx_body_at(s, version, true, 6)
        } else {
            tx_body_at(s, version, false, 4)
        },
    }
}

// ---------------------------------------------------------------------------
// The wire format, written (without witness data).
// ---------------------------------------------------------------------------
pub open spec fn u32_bytes(v: u32) -> Seq<u8> {
    le_bytes(v as nat, 4)
}

pub open spec fn i32_bytes(v: i32) -> Seq<u8> {
    le_bytes((if v >= 0 { v as int } else { v + 0x1_0000_0000 }) as nat, 4)
}

pub open spec fn i64_bytes(v: i64) -> Seq<u8> {
    le_bytes((if v >= 0 { v as int } else { v + 0x1_0000_0000_0000_0000 }) as nat, 8)
}

pub open spec fn input_bytes(i: TxInputModel) -> Seq<u8> {
    i.prev_txid + u32_bytes(i.vout) + compact_size_bytes(i.script_sig.len() as u64) + i.script_sig
        + u32_bytes(i.sequence)
}

pub open spec fn output_bytes(o: TxOutputModel) -> Seq<u8> {
    i64_bytes(o.value) + compact_size_bytes(o.script_pubkey.len() as u64) + o.script_pubkey
}

pub open spec fn input_writer() -> spec_fn(TxInputModel) -> Seq<u8> {
    |i: TxInputModel| input_bytes(i)
}

pub open spec fn output_writer() -> spec_fn(TxOutputModel) -> Seq<u8> {
    |o: TxOutputModel| output_bytes(o)
}

/// The legacy serialization of a transaction: what its txid hashes.
pub open spec fn non_witness_bytes(t: TxModel) -> Seq<u8> {
    i32_bytes(t.version) + compact_size_bytes(t.inputs.len() as u64) + concat_map(
        t.inputs,
        input_writer(),
    ) + compact_size_bytes(t.outputs.len() as u64) + concat_map(t.outputs, output_writer())
        + u32_bytes(t.locktime)
}

/// What `parse_raw_tx_bytes` gives for a transaction `t` of `size` bytes at
/// the start of `raw`.
pub open spec fn decoded_as(tx: RawTx, raw: Seq<u8>, t: TxModel, size: int) -> bool {
    let nw = non_witness_bytes(t);
    &&& tx@ == t
    &&& tx.size == size
    &&& tx.non_witness_bytes@ == nw
    &&& tx.txid_hash@ == double_sha256(nw)
    &&& tx.txid@ == display_hex(double_sha256(nw))
    &&& tx.wtxid == (if t.is_segwit {
        Some(tx.wtxid->Some_0)
    } else {
        None::<String>
    })
    &&& t.is_segwit ==> tx.wtxid->Some_0@ == display_hex(double_sha256(raw.subrange(0, size)))
    &&& nw.len() <= size
    &&& tx.weight == nw.len() * 4 + (size - nw.len())
}

// ---------------------------------------------------------------------------
// Readers.
// ---------------------------------------------------------------------------
fn read_prev_txid(c: &mut Cursor) -> (r: Result<[u8; 32], ParseError>)
    requires
        old(c).wf(),
    ensures
        final(c).data@ == old(c).data@,
        final(c).wf(),
        match bytes_at(old(c).data@, old(c).pos as int, 32) {
            Some((b, p)) => r is Ok && r->Ok_0@ == b && final(c).pos == p,
            None => r == Err::<[u8; 32], ParseError>(ParseError::UnexpectedEof),
        },
{
    if c.data.len() - c.pos < 32 {
        return Err(ParseError::UnexpectedEof);
    }
    let p = c.pos;
    let mut out = [0u8; 32];
    let mut i: usize = 0;
    while i < 32
        invariant
            p + 32 <= c.data@.len(),
            c.wf(),
            i <= 32,
            out@.len() == 32,
            forall|j: int| 0 <= j < i ==> out@[j] == c.data@[p + j],
        decreases 32 - i,
    {
        out[i] = c.data[p + i];
        i = i + 1;
    }
    c.pos = p + 32;
    assert(out@ =~= c.data@.subrange(p as int, p + 32));
    Ok(out)
}

fn read_input(c: &mut Cursor) -> (r: Result<TxInput, ParseError>)
    requires
        old(c).wf(),
    ensures
        final(c).data@ == old(c).data@,
        final(c).wf(),
        match input_at(old(c).data@, old(c).pos as int) {
            Some((m, p)) => r is Ok && r->Ok_0@ == m && final(c).pos == p,
            None => r == Err::<TxInput, ParseError>(ParseError::UnexpectedEof),
        },
{
    let prev_txid = read_prev_txid(c)?;
    let vout = read_u32_le(c)?;
    let sig_len = read_compact_size(c)?;
    if sig_len > usize::MAX as u64 {
        return Err(ParseError::UnexpectedEof);
    }
    let script_sig = read_bytes(c, sig_len as usize)?;
    let sequence = read_u32_le(c)?;
    let inp = TxInput { prev_txid, vout, script_sig, sequence, witness: Vec::new() };
    assert(inp@.witness =~= Seq::<Seq<u8>>::empty());
    Ok(inp)
}

fn read_output(c: &mut Cursor) -> (r: Result<TxOutput, ParseError>)
    requires
        old(c).wf(),
    ensures
        final(c).data@ == old(c).data@,
        final(c).wf(),
        match output_at(old(c).data@, old(c).pos as int) {
            Some((m, p)) => r is Ok && r->Ok_0@ == m && final(c).pos == p,
            None => r == Err::<TxOutput, ParseError>(ParseError::UnexpectedEof),
        },
{
    let value = read_i64_le(c)?;
    let pk_len = read_compact_size(c)?;
    if pk_len > usize::MAX as u64 {
        return Err(ParseError::UnexpectedEof);
    }
    let script_pubkey = read_bytes(c, pk_len as usize)?;
    Ok(TxOutput { value, script_pubkey })
}

fn read_witness_item(c: &mut Cursor) -> (r: Result<Vec<u8>, ParseError>)
    requires
        old(c).wf(),
    ensures
        final(c).data@ == old(c).data@,
        final(c).wf(),
        match witness_item_at(old(c).data@, old(c).pos as int) {
            Some((m, p)) => r is Ok && r->Ok_0@ == m && final(c).pos == p,
            None => r == Err::<Vec<u8>, ParseError>(ParseError::UnexpectedEof),
        },
{
    let n = read_compact_size(c)?;
    if n > usize::MAX as u64 {
        return Err(ParseError::UnexpectedEof);
    }
    read_bytes(c, n as usize)
}

fn read_witness_stack(c: &mut Cursor) -> (r: Result<Vec<Vec<u8>>, ParseError>)
    requires
        old(c).wf(),
    ensures
        final(c).data@ == old(c).data@,
        final(c).wf(),
        match witness_stack_at(old(c).data@, old(c).pos as int) {
            Some((m, p)) => r is Ok && r->Ok_0@.map_values(|w: Vec<u8>| w@) == m && final(c).pos
                == p,
            None => r == Err::<Vec<Vec<u8>>, ParseError>(ParseError::UnexpectedEof),
        },
{
    let ghost s = c.data@;
    let item_cnt = read_compact_size(c)?;
    let start = c.pos;
    assert(compact_size_at(s, old(c).pos as int) == Some((item_cnt, start as int)));
    let mut items: Vec<Vec<u8>> = Vec::new();
    let mut k: u64 = 0;
    while k < item_cnt
        invariant
            c.data@ == s,
            s == old(c).data@,
            witness_stack_at(s, old(c).pos as int) == repeat_at(
                witness_item_reader(),
                s,
                start as int,
                item_cnt as nat,
            ),
            c.wf(),
            k <= item_cnt,
            repeat_at(witness_item_reader(), s, start as int, k as nat) == Some(
                (items@.map_values(|w: Vec<u8>| w@), c.pos as int),
            ),
        decreases item_cnt - k,
    {
        let ghost before = items@;
        let item = match read_witness_item(c) {
            Ok(x) => x,
            Err(e) => {
                proof {
                    lemma_repeat_fails_on(
                        witness_item_reader(),
                        s,
                        start as int,
                        (k + 1) as nat,
                        item_cnt as nat,
                    );
                }
                return Err(e);
            },
        };
        items.push(item);
        assert(items@.map_values(|w: Vec<u8>| w@) =~= before.map_values(|w: Vec<u8>| w@).push(
            item@,
        ));
        k = k + 1;
    }
    Ok(items)
}

// ---------------------------------------------------------------------------
// The transaction.
// ---------------------------------------------------------------------------
/// Decodes the transaction at the start of `raw`; bytes after it are left
/// unread. Computes its txid (double SHA-256 of the legacy serialization),
/// its wtxid for SegWit transactions (double SHA-256 of all its bytes), its
/// size and its weight.
pub fn parse_raw_tx_bytes(raw: &[u8]) -> (r: Result<RawTx, ParseError>)
    requires
        raw@.len() * 4 <= usize::MAX,
    ensures
        match tx_at(raw@) {
            Ok((t, size)) => r is Ok && decoded_as(r->Ok_0, raw@, t, size),
            Err(e) => r == Err::<RawTx, ParseError>(e),
        },
{
    let ghost s = raw@;
    let mut c = Cursor::new(raw);
    let version = read_i32_le(&mut c)?;
    if raw.len() < 5 {
        return Err(ParseError::UnexpectedEof);
    }
    let is_segwit = if raw[4] == 0 {
        if raw.len() < 6 {
            return Err(ParseError::UnexpectedEof);
        }
        if raw[5] != 1 {
            return Err(ParseError::InvalidSegwitFlag);
        }
        c.pos = 6;
        true
    } else {
        false
    };
    let ghost start = c.pos as int;
    let body = read_tx_body(&mut c, version, is_segwit);
    let (inputs, outputs, locktime) = match body {
        Ok(b) => b,
        Err(e) => {
            return Err(e);
        },
    };
    let ghost t = TxModel {
        version,
        is_segwit,
        inputs: inputs@.map_values(|i: TxInput| i@),
        outputs: outputs@.map_values(|o: TxOutput| o@),
        locktime,
    };
    let size = c.pos;
    let non_witness = write_non_witness(version, &inputs, &outputs, locktime);
    proof {
        lemma_non_witness_fits(s, version, is_segwit, start);
    }
    let txid_hash = sha256d(non_witness.as_slice());
    let txid = to_display_hex(&txid_hash);
    let wtxid = if is_segwit {
        let tx_bytes = vstd::slice::slice_subrange(raw, 0, size);
        let wtxid_hash = sha256d(tx_bytes);
        Some(to_display_hex(&wtxid_hash))
    } else {
        None
    };
    let non_witness_size = non_witness.len();
    let witness_size = size - non_witness_size;
    let weight = non_witness_size * 4 + witness_size;
    Ok(
        RawTx {
            version,
            is_segwit,
            inputs,
            outputs,
            locktime,
            non_witness_bytes: non_witness,
            txid,
            txid_hash,
            wtxid,
            size,
            weight,
        },
    )
}

/// Reads inputs, outputs, witnesses and lock time from the cursor's
/// position.
fn read_tx_body(c: &mut Cursor, version: i32, segwit: bool) -> (r: Result<
    (Vec<TxInput>, Vec<TxOutput>, u32),
    ParseError,
>)
    requires
        old(c).wf(),
    ensures
        final(c).data@ == old(c).data@,
        final(c).wf(),
        match tx_body_at(old(c).data@, version, segwit, old(c).pos as int) {
            Ok((t, p)) => r is Ok && ({
                let (ins, outs, lock) = r->Ok_0;
                &&& ins@.map_values(|i: TxInput| i@) == t.inputs
                &&& outs@.map_values(|o: TxOutput| o@) == t.outputs
                &&& lock == t.locktime
                &&& t.version == version
                &&& t.is_segwit == segwit
                &&& final(c).pos == p
            }),
            Err(e) => r == Err::<(Vec<TxInput>, Vec<TxOutput>, u32), ParseError>(e),
        },
{
    let ghost s = c.data@;
    let ghost p0 = c.pos as int;
    let n_in = read_compact_size(c)?;
    let p1 = c.pos;
    assert(compact_size_at(s, p0) == Some((n_in, p1 as int)));
    let mut inputs: Vec<TxInput> = Vec::new();
    let mut k: u64 = 0;
    while k < n_in
        invariant
            c.data@ == s,
            s == old(c).data@,
            p0 == old(c).pos,
            compact_size_at(s, p0) == Some((n_in, p1 as int)),
            c.wf(),
            k <= n_in,
            repeat_at(input_reader(), s, p1 as int, k as nat) == Some(
                (inputs@.map_values(|i: TxInput| i@), c.pos as int),
            ),
        decreases n_in - k,
    {
        let ghost before = inputs@;
        let inp = match read_input(c) {
            Ok(x) => x,
            Err(e) => {
                proof {
                    lemma_repeat_fails_on(input_reader(), s, p1 as int, (k + 1) as nat, n_in as nat);
                }
                return Err(e);
            },
        };
        inputs.push(inp);
        assert(inputs@.map_values(|i: TxInput| i@) =~= before.map_values(|i: TxInput| i@).push(
            inp@,
        ));
        k = k + 1;
    }
    let ghost ins = inputs@.map_values(|i: TxInput| i@);
    let ghost p2 = c.pos as int;
    let n_out = read_compact_size(c)?;
    let p3 = c.pos;
    assert(compact_size_at(s, p2) == Some((n_out, p3 as int)));
    let mut outputs: Vec<TxOutput> = Vec::new();
    let mut k: u64 = 0;
    while k < n_out
        invariant
            c.data@ == s,
            s == old(c).data@,
            p0 == old(c).pos,
            compact_size_at(s, p0) == Some((n_in, p1 as int)),
            repeat_at(input_reader(), s, p1 as int, n_in as nat) == Some((ins, p2)),
            compact_size_at(s, p2) == Some((n_out, p3 as int)),
            c.wf(),
            k <= n_out,
            repeat_at(output_reader(), s, p3 as int, k as nat) == Some(
                (outputs@.map_values(|o: TxOutput| o@), c.pos as int),
            ),
        decreases n_out - k,
    {
        let ghost before = outputs@;
        let out = match read_output(c) {
            Ok(x) => x,
            Err(e) => {
                proof {
                    lemma_repeat_fails_on(
                        output_reader(),
                        s,
                        p3 as int,
                        (k + 1) as nat,
                        n_out as nat,
                    );
                }
                return Err(e);
            },
        };
        outputs.push(out);
        assert(outputs@.map_values(|o: TxOutput| o@) =~= before.map_values(|o: TxOutput| o@).push(
            out@,
        ));
        k = k + 1;
    }
    let ghost outs = outputs@.map_values(|o: TxOutput| o@);
    if segwit {
        let p4 = c.pos;
        let ghost mut ws: Seq<Seq<Seq<u8>>> = Seq::empty();
        let mut i: usize = 0;
        while i < inputs.len()
            invariant
                c.data@ == s,
                s == old(c).data@,
                p0 == old(c).pos,
                compact_size_at(s, p0) == Some((n_in, p1 as int)),
                repeat_at(input_reader(), s, p1 as int, n_in as nat) == Some((ins, p2)),
                compact_size_at(s, p2) == Some((n_out, p3 as int)),
                repeat_at(output_reader(), s, p3 as int, n_out as nat) == Some((outs, p4 as int)),
                segwit,
                c.wf(),
                i <= inputs@.len(),
                inputs@.len() == ins.len(),
                ws.len() == i,
                repeat_at(witness_stack_reader(), s, p4 as int, i as nat) == Some(
                    (ws, c.pos as int),
                ),
                forall|j: int|
                    0 <= j < i ==> #[trigger] inputs@[j]@ == attach_witness(ins, ws)[j],
                forall|j: int|
                    i <= j < inputs@.len() ==> #[trigger] inputs@[j]@ == ins[j],
            decreases inputs@.len() - i,
        {
            let items = match read_witness_stack(c) {
                Ok(x) => x,
                Err(e) => {
                    proof {
                        lemma_repeat_fails_on(
                            witness_stack_reader(),
                            s,
                            p4 as int,
                            (i + 1) as nat,
                            ins.len(),
                        );
                        assert(repeat_at(witness_stack_reader(), s, p4 as int, ins.len()) is None);
                        assert(tx_body_at(s, version, segwit, p0) == Err::<(TxModel, int), ParseError>(ParseError::UnexpectedEof));
                    }
                    return Err(e);
                },
            };
            let ghost old_ws = ws;
            let ghost old_inputs = inputs@;
            proof {
                ws = ws.push(items@.map_values(|w: Vec<u8>| w@));
            }
            inputs[i].witness = items;
            proof {
                assert forall|j: int| 0 <= j < i + 1 implies #[trigger] inputs@[j]@
                    == attach_witness(ins, ws)[j] by {
                    if j < i {
                        assert(old_inputs[j] == inputs@[j]);
                        assert(old_ws[j] == ws[j]);
                        assert(attach_witness(ins, old_ws)[j] == attach_witness(ins, ws)[j]);
                    } else {
                        assert(j == i);
                        assert(old_inputs[j]@ == ins[j]);
                        assert(inputs@[j].witness@.map_values(|w: Vec<u8>| w@) == ws[j]);
                        assert(inputs@[j].prev_txid == old_inputs[j].prev_txid);
                        assert(inputs@[j].script_sig == old_inputs[j].script_sig);
                    }
                }
                assert forall|j: int| i + 1 <= j < inputs@.len() implies #[trigger] inputs@[j]@
                    == ins[j] by {
                    assert(old_inputs[j] == inputs@[j]);
                }
            }
            i = i + 1;
        }
        assert(inputs@.map_values(|i: TxInput| i@) =~= attach_witness(ins, ws));
    }
    let locktime = read_u32_le(c)?;
    Ok((inputs, outputs, locktime))
}

/// The legacy serialization (no marker, flag or witnesses).
fn write_non_witness(version: i32, inputs: &Vec<TxInput>, outputs: &Vec<TxOutput>, locktime: u32) -> (out: Vec<u8>)
    ensures
        out@ == non_witness_bytes(
            TxModel {
                version,
                is_segwit: false,
                inputs: inputs@.map_values(|i: TxInput| i@),
                outputs: outputs@.map_values(|o: TxOutput| o@),
                locktime,
            },
        ),
{
    let mut buf: Vec<u8> = Vec::new();
    push_i32(&mut buf, version);
    let ghost after_version = buf@;
    encode_compact_size(&mut buf, inputs.len() as u64);
    let ghost head = buf@;
    let ghost ins = inputs@.map_values(|i: TxInput| i@);
    let mut i: usize = 0;
    while i < inputs.len()
        invariant
            i <= inputs@.len(),
            ins == inputs@.map_values(|i: TxInput| i@),
            buf@ == head + concat_map(ins.subrange(0, i as int), input_writer()),
        decreases inputs@.len() - i,
    {
        let inp = &inputs[i];
        let ghost before = buf@;
        append_bytes(&mut buf, inp.prev_txid.as_slice());
        push_le(&mut buf, inp.vout as u64, 4);
        encode_compact_size(&mut buf, inp.script_sig.len() as u64);
        append_bytes(&mut buf, inp.script_sig.as_slice());
        push_le(&mut buf, inp.sequence as u64, 4);
        proof {
            lemma_concat_map_push(ins.subrange(0, i as int), ins[i as int], input_writer());
            assert(ins.subrange(0, i + 1) =~= ins.subrange(0, i as int).push(ins[i as int]));
            assert(buf@ =~= before + input_bytes(ins[i as int]));
        }
        i = i + 1;
    }
    assert(ins.subrange(0, inputs@.len() as int) =~= ins);
    let ghost mid = buf@;
    encode_compact_size(&mut buf, outputs.len() as u64);
    let ghost head2 = buf@;
    let ghost outs = outputs@.map_values(|o: TxOutput| o@);
    let mut i: usize = 0;
    while i < outputs.len()
        invariant
            i <= outputs@.len(),
            outs == outputs@.map_values(|o: TxOutput| o@),
            buf@ == head2 + concat_map(outs.subrange(0, i as int), output_writer()),
        decreases outputs@.len() - i,
    {
        let out = &outputs[i];
        let ghost before = buf@;
        push_i64(&mut buf, out.value);
        encode_compact_size(&mut buf, out.script_pubkey.len() as u64);
        append_bytes(&mut buf, out.script_pubkey.as_slice());
        proof {
            lemma_concat_map_push(outs.subrange(0, i as int), outs[i as int], output_writer());
            assert(outs.subrange(0, i + 1) =~= outs.subrange(0, i as int).push(outs[i as int]));
            assert(buf@ =~= before + output_bytes(outs[i as int]));
        }
        i = i + 1;
    }
    assert(outs.subrange(0, outputs@.len() as int) =~= outs);
    push_le(&mut buf, locktime as u64, 4);
    assert(buf@ =~= non_witness_bytes(
        TxModel { version, is_segwit: false, inputs: ins, outputs: outs, locktime },
    ));
    buf
}

fn push_i32(buf: &mut Vec<u8>, v: i32)
    ensures
        final(buf)@ == old(buf)@ + i32_bytes(v),
{
    let u: u64 = if v >= 0 {
        v as u64
    } else {
        (v as i64 + 0x1_0000_0000) as u64
    };
    push_le(buf, u, 4);
}

fn push_i64(buf: &mut Vec<u8>, v: i64)
    ensures
        final(buf)@ == old(buf)@ + i64_bytes(v),
{
    let u: u64 = if v >= 0 {
        v as u64
    } else {
        ((v + 0x7FFF_FFFF_FFFF_FFFF + 1) as u64) + 0x8000_0000_0000_0000
    };
    push_le(buf, u, 8);
}

// ---------------------------------------------------------------------------
// The legacy serialization is never longer than the bytes read.
// ---------------------------------------------------------------------------
pub(crate) proof fn lemma_input_reader_covers(s: Seq<u8>)
    ensures
        reader_covers(input_reader(), input_writer(), s),
{
    assert forall|pos: int| #![trigger input_reader()(s, pos)]
        match input_reader()(s, pos) {
            Some((x, q)) => pos <= q && input_writer()(x).len() <= q - pos,
            None => true,
        } by {
        if input_at(s, pos) is Some {
            let p2 = pos + 36;
            lemma_compact_size_shortest(s, p2);
            reveal_with_fuel(le_bytes, 5);
        }
    }
}

pub(crate) proof fn lemma_output_reader_covers(s: Seq<u8>)
    ensures
        reader_covers(output_reader(), output_writer(), s),
{
    assert forall|pos: int| #![trigger output_reader()(s, pos)]
        match output_reader()(s, pos) {
            Some((x, q)) => pos <= q && output_writer()(x).len() <= q - pos,
            None => true,
        } by {
        if output_at(s, pos) is Some {
            lemma_compact_size_shortest(s, pos + 8);
            reveal_with_fuel(le_bytes, 9);
        }
    }
}

proof fn lemma_stack_reader_moves_forward(s: Seq<u8>)
    ensures
        reader_covers(witness_stack_reader(), |x: Seq<Seq<u8>>| Seq::<u8>::empty(), s),
{
    let none = |x: Seq<u8>| Seq::<u8>::empty();
    assert forall|pos: int| #![trigger witness_item_reader()(s, pos)]
        match witness_item_reader()(s, pos) {
            Some((x, q)) => pos <= q && none(x).len() <= q - pos,
            None => true,
        } by {
        if witness_item_at(s, pos) is Some {
            lemma_compact_size_shortest(s, pos);
        }
    }
    assert forall|pos: int| #![trigger witness_stack_reader()(s, pos)]
        match witness_stack_reader()(s, pos) {
            Some((x, q)) => pos <= q && Seq::<u8>::empty().len() <= q - pos,
            None => true,
        } by {
        if witness_stack_at(s, pos) is Some {
            lemma_compact_size_shortest(s, pos);
            let (n, p1) = compact_size_at(s, pos)->Some_0;
            lemma_repeat_covers(witness_item_reader(), none, s, p1, n as nat);
        }
    }
}

proof fn lemma_non_witness_fits(s: Seq<u8>, version: i32, segwit: bool, start: int)
    requires
        4 <= start,
        tx_body_at(s, version, segwit, start) is Ok,
    ensures
        ({
            let (t, size) = tx_body_at(s, version, segwit, start)->Ok_0;
            non_witness_bytes(t).len() <= size
        }),
{
    reveal_with_fuel(le_bytes, 9);
    lemma_input_reader_covers(s);
    lemma_output_reader_covers(s);
    lemma_stack_reader_moves_forward(s);
    let (n_in, p1) = compact_size_at(s, start)->Some_0;
    lemma_compact_size_shortest(s, start);
    lemma_repeat_covers(input_reader(), input_writer(), s, p1, n_in as nat);
    let (ins, p2) = repeat_at(input_reader(), s, p1, n_in as nat)->Some_0;
    let (n_out, p3) = compact_size_at(s, p2)->Some_0;
    lemma_compact_size_shortest(s, p2);
    lemma_repeat_covers(output_reader(), output_writer(), s, p3, n_out as nat);
    let (outs, p4) = repeat_at(output_reader(), s, p3, n_out as nat)->Some_0;
    let (t, size) = tx_body_at(s, version, segwit, start)->Ok_0;
    if segwit {
        lemma_repeat_covers(
            witness_stack_reader(),
            |x: Seq<Seq<u8>>| Seq::<u8>::empty(),
            s,
            p4,
            ins.len(),
        );
        let (ws, p5) = repeat_at(witness_stack_reader(), s, p4, ins.len())->Some_0;
        assert forall|j: int| 0 <= j < t.inputs.len() implies input_writer()(#[trigger] t.inputs[j])
            == input_writer()(ins[j]) by {}
        lemma_concat_map_congruent(t.inputs, ins, input_writer());
    }
}

// ---------------------------------------------------------------------------
// Reading back what was written.
// ---------------------------------------------------------------------------
/// An input that the legacy serialization can carry and give back: a
/// 32-byte outpoint hash, a scriptSig whose length fits a CompactSize, and
/// no witness.
pub open spec fn input_writable(x: TxInputModel) -> bool {
    x.prev_txid.len() == 32 && x.script_sig.len() <= u64::MAX && x.witness.len() == 0
}

/// An output whose script length fits a CompactSize.
pub open spec fn output_writable(o: TxOutputModel) -> bool {
    o.script_pubkey.len() <= u64::MAX
}

/// A legacy (non-SegWit) transaction that its serialization can carry: at
/// least one input (none would look like a SegWit marker), counts that fit
/// a CompactSize, and writable inputs and outputs.
pub open spec fn legacy_writable(t: TxModel) -> bool {
    &&& !t.is_segwit
    &&& 0 < t.inputs.len() <= u64::MAX
    &&& t.outputs.len() <= u64::MAX
    &&& forall|i: int| 0 <= i < t.inputs.len() ==> input_writable(#[trigger] t.inputs[i])
    &&& forall|j: int| 0 <= j < t.outputs.len() ==> output_writable(#[trigger] t.outputs[j])
}

pub(crate) proof fn lemma_u32_written(s: Seq<u8>, p: int, v: u32)
    requires
        0 <= p,
        p + 4 <= s.len(),
        s.subrange(p, p + 4) == u32_bytes(v),
    ensures
        u32_at(s, p) == Some((v, p + 4)),
{
    lemma_le4_written(s, p, v as nat);
}

pub(crate) proof fn lemma_i32_written(s: Seq<u8>, p: int, v: i32)
    requires
        0 <= p,
        p + 4 <= s.len(),
        s.subrange(p, p + 4) == i32_bytes(v),
    ensures
        i32_at(s, p) == Some((v, p + 4)),
{
    let u = (if v >= 0 { v as int } else { v + 0x1_0000_0000 }) as nat;
    lemma_le4_written(s, p, u);
}

proof fn lemma_i64_written(s: Seq<u8>, p: int, v: i64)
    requires
        0 <= p,
        p + 8 <= s.len(),
        s.subrange(p, p + 8) == i64_bytes(v),
    ensures
        i64_at(s, p) == Some((v, p + 8)),
{
    let u = (if v >= 0 { v as int } else { v + 0x1_0000_0000_0000_0000 }) as nat;
    lemma_le8_written(s, p, u);
}

proof fn lemma_input_written(s: Seq<u8>, p: int, x: TxInputModel)
    requires
        input_writable(x),
        0 <= p,
        p + input_bytes(x).len() <= s.len(),
        s.subrange(p, p + input_bytes(x).len()) == input_bytes(x),
    ensures
        input_at(s, p) == Some((x, p + input_bytes(x).len())),
{
    reveal_with_fuel(le_bytes, 5);
    let w = input_bytes(x);
    let cs = compact_size_bytes(x.script_sig.len() as u64);
    let a = 32int;
    let b = a + 4;
    let c = b + cs.len();
    let d = c + x.script_sig.len();
    assert(w.subrange(0, a) =~= x.prev_txid);
    lemma_piece_at(s, p, w, 0, x.prev_txid);
    assert(s.subrange(p, p + 32) == x.prev_txid);
    assert(w.subrange(a, b) =~= u32_bytes(x.vout));
    lemma_piece_at(s, p, w, a, u32_bytes(x.vout));
    lemma_u32_written(s, p + a, x.vout);
    assert(w.subrange(b, c) =~= cs);
    lemma_piece_at(s, p, w, b, cs);
    lemma_compact_size_written(s, p + b, x.script_sig.len() as u64);
    assert(w.subrange(c, d) =~= x.script_sig);
    lemma_piece_at(s, p, w, c, x.script_sig);
    assert(w.subrange(d, d + 4) =~= u32_bytes(x.sequence));
    lemma_piece_at(s, p, w, d, u32_bytes(x.sequence));
    lemma_u32_written(s, p + d, x.sequence);
    assert(x.witness =~= Seq::<Seq<u8>>::empty());
}

proof fn lemma_output_written(s: Seq<u8>, p: int, o: TxOutputModel)
    requires
        output_writable(o),
        0 <= p,
        p + output_bytes(o).len() <= s.len(),
        s.subrange(p, p + output_bytes(o).len()) == output_bytes(o),
    ensures
        output_at(s, p) == Some((o, p + output_bytes(o).len())),
{
    reveal_with_fuel(le_bytes, 9);
    let w = output_bytes(o);
    let cs = compact_size_bytes(o.script_pubkey.len() as u64);
    let b = 8int;
    let c = b + cs.len();
    assert(w.subrange(0, b) =~= i64_bytes(o.value));
    lemma_piece_at(s, p, w, 0, i64_bytes(o.value));
    lemma_i64_written(s, p, o.value);
    assert(w.subrange(b, c) =~= cs);
    lemma_piece_at(s, p, w, b, cs);
    lemma_compact_size_written(s, p + b, o.script_pubkey.len() as u64);
    assert(w.subrange(c, c + o.script_pubkey.len()) =~= o.script_pubkey);
    lemma_piece_at(s, p, w, c, o.script_pubkey);
}

pub(crate) proof fn lemma_inputs_read_back(s: Seq<u8>)
    ensures
        reads_back(input_reader(), input_writer(), |x: TxInputModel| input_writable(x), s),
{
    assert forall|pos: int, x: TxInputModel|
        #![trigger input_reader()(s, pos), input_writer()(x)]
        input_writable(x) && 0 <= pos && pos + input_writer()(x).len() <= s.len() && s.subrange(
            pos,
            pos + input_writer()(x).len(),
        ) == input_writer()(x) implies input_reader()(s, pos) == Some(
        (x, pos + input_writer()(x).len()),
    ) by {
        lemma_input_written(s, pos, x);
    }
}

pub(crate) proof fn lemma_outputs_read_back(s: Seq<u8>)
    ensures
        reads_back(output_reader(), output_writer(), |o: TxOutputModel| output_writable(o), s),
{
    assert forall|pos: int, o: TxOutputModel|
        #![trigger output_reader()(s, pos), output_writer()(o)]
        output_writable(o) && 0 <= pos && pos + output_writer()(o).len() <= s.len() && s.subrange(
            pos,
            pos + output_writer()(o).len(),
        ) == output_writer()(o) implies output_reader()(s, pos) == Some(
        (o, pos + output_writer()(o).len()),
    ) by {
        lemma_output_written(s, pos, o);
    }
}

proof fn lemma_legacy_layout(t: TxModel)
    requires
        legacy_writable(t),
    ensures
        ({
            let s = non_witness_bytes(t);
            let c1 = compact_size_bytes(t.inputs.len() as u64);
            let ins = concat_map(t.inputs, input_writer());
            let c2 = compact_size_bytes(t.outputs.len() as u64);
            let outs = concat_map(t.outputs, output_writer());
            let p2 = 4 + c1.len() as int;
            let p3 = p2 + ins.len();
            let p4 = p3 + c2.len();
            let p5 = p4 + outs.len();
            &&& s.len() == p5 + 4
            &&& s.subrange(0, 4) == i32_bytes(t.version)
            &&& s.subrange(4, p2) == c1
            &&& s.subrange(p2, p3) == ins
            &&& s.subrange(p3, p4) == c2
            &&& s.subrange(p4, p5) == outs
            &&& s.subrange(p5, p5 + 4) == u32_bytes(t.locktime)
            &&& s[4] == c1[0]
        }),
{
    reveal_with_fuel(le_bytes, 9);
    let s = non_witness_bytes(t);
    let v = i32_bytes(t.version);
    let c1 = compact_size_bytes(t.inputs.len() as u64);
    let ins = concat_map(t.inputs, input_writer());
    let c2 = compact_size_bytes(t.outputs.len() as u64);
    let outs = concat_map(t.outputs, output_writer());
    let l = u32_bytes(t.locktime);
    let p2 = 4 + c1.len() as int;
    let p3 = p2 + ins.len();
    let p4 = p3 + c2.len();
    let p5 = p4 + outs.len();
    assert(s == v + c1 + ins + c2 + outs + l);
    assert(s.subrange(0, 4) =~= v);
    assert(s.subrange(4, p2) =~= c1);
    assert(s.subrange(p2, p3) =~= ins);
    assert(s.subrange(p3, p4) =~= c2);
    assert(s.subrange(p4, p5) =~= outs);
    assert(s.subrange(p5, p5 + 4) =~= l);
}

/// Decoding the legacy serialization of a transaction gives the
/// transaction back, and consumes all of its bytes.
#[verifier::spinoff_prover]
pub proof fn law_legacy_tx_roundtrip(t: TxModel)
    requires
        legacy_writable(t),
    ensures
        tx_at(non_witness_bytes(t)) == Ok::<(TxModel, int), ParseError>(
            (t, non_witness_bytes(t).len() as int),
        ),
{
    let s = non_witness_bytes(t);
    let c1 = compact_size_bytes(t.inputs.len() as u64);
    let ins = concat_map(t.inputs, input_writer());
    let c2 = compact_size_bytes(t.outputs.len() as u64);
    let outs = concat_map(t.outputs, output_writer());
    let p2 = 4 + c1.len() as int;
    let p3 = p2 + ins.len();
    let p4 = p3 + c2.len();
    let p5 = p4 + outs.len();
    lemma_legacy_layout(t);
    lemma_i32_written(s, 0, t.version);
    lemma_compact_size_written(s, 4, t.inputs.len() as u64);
    assert(c1[0] != 0) by {
        reveal_with_fuel(le_bytes, 9);
    }
    lemma_inputs_read_back(s);
    lemma_repeat_written(input_reader(), input_writer(), |x: TxInputModel| input_writable(x), s, p2, t.inputs);
    lemma_compact_size_written(s, p3, t.outputs.len() as u64);
    lemma_outputs_read_back(s);
    lemma_repeat_written(output_reader(), output_writer(), |o: TxOutputModel| output_writable(o), s, p4, t.outputs);
    lemma_u32_written(s, p5, t.locktime);
}

/// An input without its witness.
pub open spec fn input_without_witness(i: TxInputModel) -> TxInputModel {
    TxInputModel {
        prev_txid: i.prev_txid,
        vout: i.vout,
        script_sig: i.script_sig,
        sequence: i.sequence,
        witness: Seq::empty(),
    }
}

/// A transaction as its legacy serialization carries it: no SegWit flag and
/// no witnesses.
pub open spec fn without_witness(t: TxModel) -> TxModel {
    TxModel {
        version: t.version,
        is_segwit: false,
        inputs: t.inputs.map_values(|i: TxInputModel| input_without_witness(i)),
        outputs: t.outputs,
        locktime: t.locktime,
    }
}

/// The bytes that a txid hashes decode to the transaction without its
/// witness data: the flag and the witnesses are all that they leave out.
pub proof fn law_txid_bytes_decode_without_witness(t: TxModel)
    requires
        legacy_writable(without_witness(t)),
    ensures
        non_witness_bytes(without_witness(t)) == non_witness_bytes(t),
        tx_at(non_witness_bytes(t)) == Ok::<(TxModel, int), ParseError>(
            (without_witness(t), non_witness_bytes(t).len() as int),
        ),
{
    let s = without_witness(t);
    assert forall|j: int| 0 <= j < s.inputs.len() implies input_writer()(#[trigger] s.inputs[j])
        == input_writer()(t.inputs[j]) by {
        assert(input_bytes(s.inputs[j]) == input_bytes(t.inputs[j]));
    }
    lemma_concat_map_congruent(s.inputs, t.inputs, input_writer());
    assert(non_witness_bytes(s) == non_witness_bytes(t));
    law_legacy_tx_roundtrip(s);
}

} // verus!
