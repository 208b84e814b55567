use vstd::prelude::*;

use crate::hash::double_sha256;
use crate::parser::tx::{
    decoded_as, i32_bytes, i64_bytes, input_at, input_bytes, input_reader, input_writer,
    lemma_input_reader_covers, lemma_output_reader_covers, non_witness_bytes, output_at,
    output_bytes, output_reader, output_writer, tx_at, u32_bytes, RawTx, TxInputModel,
    TxOutputModel,
};
use crate::parser::varint::{
    bytes_at, compact_size_at, compact_size_bytes, i32_at, i64_at, le2, le4, le8, le_bytes,
    signed32, signed64, u32_at,
};
use crate::parser::wire::{
    concat_map, lemma_compact_size_shortest, lemma_concat_map_push, lemma_repeat_covers,
    reader_covers, repeat_at,
};

verus! {

// ---------------------------------------------------------------------------
// Bytes read whose encoding is as short as the one written are the ones
// written.
// ---------------------------------------------------------------------------
/// The number that the bytes of `b` spell, least significant first.
pub open spec fn base256(b: Seq<u8>) -> nat
    decreases b.len(),
{
    if b.len() == 0 {
        0
    } else {
        b[0] as nat + 256 * base256(b.subrange(1, b.len() as int))
    }
}

proof fn lemma_digit(a: nat, r: nat)
    requires
        a < 256,
    ensures
        (a + 256 * r) % 256 == a,
        (a + 256 * r) / 256 == r,
{
    assert((a + 256 * r) % 256 == a && (a + 256 * r) / 256 == r) by (nonlinear_arith)
        requires
            a < 256,
    ;
}

/// Writing back the number that some bytes spell gives those bytes.
proof fn lemma_le_bytes_of_base256(b: Seq<u8>)
    ensures
        le_bytes(base256(b), b.len()) == b,
    decreases b.len(),
{
    if b.len() > 0 {
        let rest = b.subrange(1, b.len() as int);
        lemma_le_bytes_of_base256(rest);
        lemma_digit(b[0] as nat, base256(rest));
        assert(le_bytes(base256(b), b.len()) =~= seq![b[0]] + rest);
        assert(seq![b[0]] + rest =~= b);
    }
}

proof fn lemma_le4_base256(s: Seq<u8>, p: int)
    requires
        0 <= p,
        p + 4 <= s.len(),
    ensures
        le4(s, p) == base256(s.subrange(p, p + 4)),
        le2(s, p) == base256(s.subrange(p, p + 2)),
{
    reveal_with_fuel(base256, 5);
    let b = s.subrange(p, p + 4);
    assert(b.subrange(1, 4) =~= s.subrange(p + 1, p + 4));
    assert(b.subrange(1, 4).subrange(1, 3) =~= s.subrange(p + 2, p + 4));
    assert(b.subrange(1, 4).subrange(1, 3).subrange(1, 2) =~= s.subrange(p + 3, p + 4));
    assert(b.subrange(1, 4).subrange(1, 3).subrange(1, 2).subrange(1, 1) =~= Seq::<u8>::empty());
    let c = s.subrange(p, p + 2);
    assert(c.subrange(1, 2) =~= s.subrange(p + 1, p + 2));
    assert(c.subrange(1, 2).subrange(1, 1) =~= Seq::<u8>::empty());
}

proof fn lemma_base256_split(b: Seq<u8>, k: int)
    requires
        0 <= k <= b.len(),
    ensures
        base256(b) == base256(b.subrange(0, k)) + vstd::arithmetic::power::pow(256, k as nat)
            * base256(b.subrange(k, b.len() as int)),
    decreases k,
{
    if k == 0 {
        assert(b.subrange(0, 0) =~= Seq::<u8>::empty());
        assert(b.subrange(0, b.len() as int) =~= b);
        assert(vstd::arithmetic::power::pow(256, 0) == 1) by {
            reveal(vstd::arithmetic::power::pow);
        }
    } else {
        let rest = b.subrange(1, b.len() as int);
        lemma_base256_split(rest, k - 1);
        let head = b.subrange(0, k);
        assert(rest.subrange(0, k - 1) =~= head.subrange(1, k));
        assert(rest.subrange(k - 1, rest.len() as int) =~= b.subrange(k, b.len() as int));
        let lo = base256(rest.subrange(0, k - 1));
        let hi = base256(b.subrange(k, b.len() as int));
        let pk1 = vstd::arithmetic::power::pow(256, (k - 1) as nat);
        assert(base256(rest) == lo + pk1 * hi);
        assert(base256(b) == b[0] + 256 * base256(rest));
        assert(base256(head) == head[0] + 256 * lo);
        assert(vstd::arithmetic::power::pow(256, k as nat) == 256 * pk1) by {
            reveal(vstd::arithmetic::power::pow);
        }
        assert(256 * (lo + pk1 * hi) == 256 * lo + (256 * pk1) * hi) by (nonlinear_arith);
    }
}

proof fn lemma_le8_base256(s: Seq<u8>, p: int)
    requires
        0 <= p,
        p + 8 <= s.len(),
    ensures
        le8(s, p) == base256(s.subrange(p, p + 8)),
{
    let b = s.subrange(p, p + 8);
    lemma_le4_base256(s, p);
    lemma_le4_base256(s, p + 4);
    lemma_base256_split(b, 4);
    assert(b.subrange(0, 4) =~= s.subrange(p, p + 4));
    assert(b.subrange(4, 8) =~= s.subrange(p + 4, p + 8));
    assert(vstd::arithmetic::power::pow(256, 4) == 4294967296) by {
        reveal_with_fuel(vstd::arithmetic::power::pow, 5);
    }
}

/// The bytes of a CompactSize that are as many as its shortest encoding are
/// that encoding.
proof fn lemma_compact_size_exact(s: Seq<u8>, p: int)
    requires
        compact_size_at(s, p) is Some,
        compact_size_bytes(compact_size_at(s, p)->Some_0.0).len() == compact_size_at(
            s,
            p,
        )->Some_0.1 - p,
    ensures
        s.subrange(p, compact_size_at(s, p)->Some_0.1) == compact_size_bytes(
            compact_size_at(s, p)->Some_0.0,
        ),
{
    reveal_with_fuel(le_bytes, 9);
    let (v, q) = compact_size_at(s, p)->Some_0;
    if s[p] <= 0xFC {
        assert(s.subrange(p, q) =~= seq![s[p]]);
    } else if s[p] == 0xFD {
        let b = s.subrange(p + 1, p + 3);
        assert(le2(s, p + 1) == base256(b)) by {
            reveal_with_fuel(base256, 3);
            assert(b.subrange(1, 2) =~= s.subrange(p + 2, p + 3));
            assert(b.subrange(1, 2).subrange(1, 1) =~= Seq::<u8>::empty());
        }
        lemma_le_bytes_of_base256(b);
        assert(s.subrange(p, q) =~= seq![0xFDu8] + b);
    } else if s[p] == 0xFE {
        let b = s.subrange(p + 1, p + 5);
        lemma_le4_base256(s, p + 1);
        lemma_le_bytes_of_base256(b);
        assert(s.subrange(p, q) =~= seq![0xFEu8] + b);
    } else {
        let b = s.subrange(p + 1, p + 9);
        lemma_le8_base256(s, p + 1);
        lemma_le_bytes_of_base256(b);
        assert(s.subrange(p, q) =~= seq![0xFFu8] + b);
    }
}

proof fn lemma_u32_exact(s: Seq<u8>, p: int)
    requires
        u32_at(s, p) is Some,
    ensures
        s.subrange(p, p + 4) == u32_bytes(u32_at(s, p)->Some_0.0),
{
    let b = s.subrange(p, p + 4);
    lemma_le4_base256(s, p);
    lemma_le_bytes_of_base256(b);
}

proof fn lemma_i32_exact(s: Seq<u8>, p: int)
    requires
        i32_at(s, p) is Some,
    ensures
        s.subrange(p, p + 4) == i32_bytes(i32_at(s, p)->Some_0.0),
{
    let b = s.subrange(p, p + 4);
    lemma_le4_base256(s, p);
    lemma_le_bytes_of_base256(b);
}

proof fn lemma_i64_exact(s: Seq<u8>, p: int)
    requires
        i64_at(s, p) is Some,
    ensures
        s.subrange(p, p + 8) == i64_bytes(i64_at(s, p)->Some_0.0),
{
    let b = s.subrange(p, p + 8);
    lemma_le8_base256(s, p);
    lemma_le_bytes_of_base256(b);
}

/// An input read from bytes as long as its encoding is that encoding.
proof fn lemma_input_exact(s: Seq<u8>, p: int)
    requires
        input_at(s, p) is Some,
        input_bytes(input_at(s, p)->Some_0.0).len() == input_at(s, p)->Some_0.1 - p,
    ensures
        s.subrange(p, input_at(s, p)->Some_0.1) == input_bytes(input_at(s, p)->Some_0.0),
{
    reveal_with_fuel(le_bytes, 5);
    let (x, q) = input_at(s, p)->Some_0;
    let p1 = p + 32;
    let p2 = p1 + 4;
    let (n, p3) = compact_size_at(s, p2)->Some_0;
    let p4 = p3 + n;
    lemma_compact_size_shortest(s, p2);
    lemma_compact_size_exact(s, p2);
    lemma_u32_exact(s, p1);
    lemma_u32_exact(s, p4);
    assert(s.subrange(p, q) =~= s.subrange(p, p1) + s.subrange(p1, p2) + s.subrange(p2, p3)
        + s.subrange(p3, p4) + s.subrange(p4, q));
}

/// An output read from bytes as long as its encoding is that encoding.
proof fn lemma_output_exact(s: Seq<u8>, p: int)
    requires
        output_at(s, p) is Some,
        output_bytes(output_at(s, p)->Some_0.0).len() == output_at(s, p)->Some_0.1 - p,
    ensures
        s.subrange(p, output_at(s, p)->Some_0.1) == output_bytes(output_at(s, p)->Some_0.0),
{
    reveal_with_fuel(le_bytes, 9);
    let (o, q) = output_at(s, p)->Some_0;
    let p1 = p + 8;
    let (n, p2) = compact_size_at(s, p1)->Some_0;
    lemma_compact_size_shortest(s, p1);
    lemma_compact_size_exact(s, p1);
    lemma_i64_exact(s, p);
    assert(s.subrange(p, q) =~= s.subrange(p, p1) + s.subrange(p1, p2) + s.subrange(p2, q));
}

/// A reader that stays within the bytes and, when it consumes exactly as
/// many bytes as `f` writes for what it read, consumed exactly those bytes.
pub open spec fn reader_exact<T>(
    item: spec_fn(Seq<u8>, int) -> Option<(T, int)>,
    f: spec_fn(T) -> Seq<u8>,
    s: Seq<u8>,
) -> bool {
    forall|pos: int|
        #![trigger item(s, pos)]
        match item(s, pos) {
            Some((x, q)) => q <= s.len() && (f(x).len() == q - pos ==> s.subrange(pos, q) == f(x)),
            None => true,
        }
}

proof fn lemma_repeat_exact<T>(
    item: spec_fn(Seq<u8>, int) -> Option<(T, int)>,
    f: spec_fn(T) -> Seq<u8>,
    s: Seq<u8>,
    pos: int,
    k: nat,
)
    requires
        reader_covers(item, f, s),
        reader_exact(item, f, s),
        0 <= pos <= s.len(),
        repeat_at(item, s, pos, k) is Some,
        concat_map(repeat_at(item, s, pos, k)->Some_0.0, f).len() == repeat_at(
            item,
            s,
            pos,
            k,
        )->Some_0.1 - pos,
    ensures
        repeat_at(item, s, pos, k)->Some_0.1 <= s.len(),
        s.subrange(pos, repeat_at(item, s, pos, k)->Some_0.1) == concat_map(
            repeat_at(item, s, pos, k)->Some_0.0,
            f,
        ),
    decreases k,
{
    if k == 0 {
        assert(s.subrange(pos, pos) =~= Seq::<u8>::empty());
    } else {
        let (xs0, p) = repeat_at(item, s, pos, (k - 1) as nat)->Some_0;
        let (x, q) = item(s, p)->Some_0;
        lemma_repeat_covers(item, f, s, pos, (k - 1) as nat);
        lemma_concat_map_push(xs0, x, f);
        assert(concat_map(xs0, f).len() == p - pos);
        lemma_repeat_exact(item, f, s, pos, (k - 1) as nat);
        assert(s.subrange(pos, q) =~= s.subrange(pos, p) + s.subrange(p, q));
    }
}

proof fn lemma_inputs_exact(s: Seq<u8>)
    ensures
        reader_exact(input_reader(), input_writer(), s),
{
    assert forall|pos: int| #![trigger input_reader()(s, pos)]
        match input_reader()(s, pos) {
            Some((x, q)) => q <= s.len() && (input_writer()(x).len() == q - pos ==> s.subrange(
                pos,
                q,
            ) == input_writer()(x)),
            None => true,
        } by {
        if input_at(s, pos) is Some {
            let (x, q) = input_at(s, pos)->Some_0;
            if input_bytes(x).len() == q - pos {
                lemma_input_exact(s, pos);
            }
        }
    }
}

proof fn lemma_outputs_exact(s: Seq<u8>)
    ensures
        reader_exact(output_reader(), output_writer(), s),
{
    assert forall|pos: int| #![trigger output_reader()(s, pos)]
        match output_reader()(s, pos) {
            Some((o, q)) => q <= s.len() && (output_writer()(o).len() == q - pos ==> s.subrange(
                pos,
                q,
            ) == output_writer()(o)),
            None => true,
        } by {
        if output_at(s, pos) is Some {
            let (o, q) = output_at(s, pos)->Some_0;
            if output_bytes(o).len() == q - pos {
                lemma_output_exact(s, pos);
            }
        }
    }
}

proof fn lemma_le_bytes_len(v: nat, n: nat)
    ensures
        le_bytes(v, n).len() == n,
    decreases n,
{
    if n > 0 {
        lemma_le_bytes_len(v / 256, (n - 1) as nat);
    }
}

/// The pieces of a legacy transaction read from `s`, each as long as what
/// it writes back.
#[verifier::spinoff_prover]
proof fn lemma_legacy_piece_lengths(s: Seq<u8>)
    requires
        tx_at(s) is Ok,
        !tx_at(s)->Ok_0.0.is_segwit,
        non_witness_bytes(tx_at(s)->Ok_0.0).len() == tx_at(s)->Ok_0.1,
    ensures
        ({
            let (t, size) = tx_at(s)->Ok_0;
            let (n_in, p1) = compact_size_at(s, 4)->Some_0;
            let (ins, p2) = repeat_at(input_reader(), s, p1, n_in as nat)->Some_0;
            let (n_out, p3) = compact_size_at(s, p2)->Some_0;
            let (outs, p4) = repeat_at(output_reader(), s, p3, n_out as nat)->Some_0;
            &&& s[4] != 0
            &&& i32_at(s, 0)->Some_0.0 == t.version
            &&& u32_at(s, p4) == Some((t.locktime, size))
            &&& t.inputs == ins
            &&& t.outputs == outs
            &&& ins.len() == n_in
            &&& outs.len() == n_out
            &&& compact_size_bytes(n_in).len() == p1 - 4
            &&& concat_map(ins, input_writer()).len() == p2 - p1
            &&& compact_size_bytes(n_out).len() == p3 - p2
            &&& concat_map(outs, output_writer()).len() == p4 - p3
            &&& 4 <= p1 <= p2 <= p3 <= p4
        }),
{
    let (t, size) = tx_at(s)->Ok_0;
    assert(s[4] != 0);
    let (n_in, p1) = compact_size_at(s, 4)->Some_0;
    let (ins, p2) = repeat_at(input_reader(), s, p1, n_in as nat)->Some_0;
    let (n_out, p3) = compact_size_at(s, p2)->Some_0;
    lemma_input_reader_covers(s);
    lemma_output_reader_covers(s);
    lemma_compact_size_shortest(s, 4);
    lemma_compact_size_shortest(s, p2);
    lemma_repeat_covers(input_reader(), input_writer(), s, p1, n_in as nat);
    lemma_repeat_covers(output_reader(), output_writer(), s, p3, n_out as nat);
    lemma_le_bytes_len((if t.version >= 0 {
        t.version as int
    } else {
        t.version + 0x1_0000_0000
    }) as nat, 4);
    lemma_le_bytes_len(t.locktime as nat, 4);
}

#[verifier::spinoff_prover]
proof fn lemma_legacy_parts_exact(
    s: Seq<u8>,
    n_in: u64,
    p1: int,
    ins: Seq<TxInputModel>,
    p2: int,
    n_out: u64,
    p3: int,
    outs: Seq<TxOutputModel>,
    p4: int,
    locktime: u32,
    size: int,
)
    requires
        i32_at(s, 0) is Some,
        compact_size_at(s, 4) == Some((n_in, p1)),
        repeat_at(input_reader(), s, p1, n_in as nat) == Some((ins, p2)),
        compact_size_at(s, p2) == Some((n_out, p3)),
        repeat_at(output_reader(), s, p3, n_out as nat) == Some((outs, p4)),
        u32_at(s, p4) == Some((locktime, size)),
        compact_size_bytes(n_in).len() == p1 - 4,
        concat_map(ins, input_writer()).len() == p2 - p1,
        compact_size_bytes(n_out).len() == p3 - p2,
        concat_map(outs, output_writer()).len() == p4 - p3,
        4 <= p1 <= p2 <= p3 <= p4,
    ensures
        s.subrange(0, size) == i32_bytes(i32_at(s, 0)->Some_0.0) + compact_size_bytes(n_in)
            + concat_map(ins, input_writer()) + compact_size_bytes(n_out) + concat_map(
            outs,
            output_writer(),
        ) + u32_bytes(locktime),
{
    let ci = concat_map(ins, input_writer());
    let co = concat_map(outs, output_writer());
    assert(s.subrange(0, 4) == i32_bytes(i32_at(s, 0)->Some_0.0)) by {
        lemma_i32_exact(s, 0);
    }
    assert(s.subrange(4, p1) == compact_size_bytes(n_in)) by {
        lemma_compact_size_exact(s, 4);
    }
    assert(s.subrange(p1, p2) == ci) by {
        lemma_input_reader_covers(s);
        lemma_inputs_exact(s);
        lemma_repeat_exact(input_reader(), input_writer(), s, p1, n_in as nat);
    }
    assert(s.subrange(p2, p3) == compact_size_bytes(n_out)) by {
        lemma_compact_size_exact(s, p2);
    }
    assert(s.subrange(p3, p4) == co) by {
        lemma_output_reader_covers(s);
        lemma_outputs_exact(s);
        lemma_repeat_exact(output_reader(), output_writer(), s, p3, n_out as nat);
    }
    assert(s.subrange(p4, size) == u32_bytes(locktime)) by {
        lemma_u32_exact(s, p4);
    }
    assert(s.subrange(0, size) =~= s.subrange(0, 4) + s.subrange(4, p1) + s.subrange(p1, p2)
        + s.subrange(p2, p3) + s.subrange(p3, p4) + s.subrange(p4, size));
}

/// Re-encoding a decoded legacy transaction gives back exactly the bytes it
/// was read from, whenever its legacy serialization is as long as those
/// bytes (a count or length written with a longer CompactSize than needed
/// makes the bytes read longer).
#[verifier::spinoff_prover]
proof fn lemma_legacy_bytes_exact(s: Seq<u8>)
    requires
        tx_at(s) is Ok,
        !tx_at(s)->Ok_0.0.is_segwit,
        non_witness_bytes(tx_at(s)->Ok_0.0).len() == tx_at(s)->Ok_0.1,
    ensures
        s.subrange(0, tx_at(s)->Ok_0.1) == non_witness_bytes(tx_at(s)->Ok_0.0),
{
    let (t, size) = tx_at(s)->Ok_0;
    lemma_legacy_piece_lengths(s);
    let (n_in, p1) = compact_size_at(s, 4)->Some_0;
    let (ins, p2) = repeat_at(input_reader(), s, p1, n_in as nat)->Some_0;
    let (n_out, p3) = compact_size_at(s, p2)->Some_0;
    let (outs, p4) = repeat_at(output_reader(), s, p3, n_out as nat)->Some_0;
    lemma_legacy_parts_exact(s, n_in, p1, ins, p2, n_out, p3, outs, p4, t.locktime, size);
}

/// Re-encoding a decoded legacy transaction gives back exactly the bytes it
/// was read from, whenever its legacy serialization is as long as those
/// bytes (a count or length written with a longer CompactSize than needed
/// makes the bytes read longer). Its txid then hashes those very bytes, and
/// its weight is four times its size.
pub proof fn law_minimal_legacy_tx_reencodes(s: Seq<u8>, r: RawTx)
    requires
        tx_at(s) is Ok,
        !tx_at(s)->Ok_0.0.is_segwit,
        non_witness_bytes(tx_at(s)->Ok_0.0).len() == tx_at(s)->Ok_0.1,
        decoded_as(r, s, tx_at(s)->Ok_0.0, tx_at(s)->Ok_0.1),
    ensures
        ({
            let (t, size) = tx_at(s)->Ok_0;
            &&& s.subrange(0, size) == non_witness_bytes(t)
            &&& r.non_witness_bytes@ == s.subrange(0, size)
            &&& r.txid_hash@ == double_sha256(s.subrange(0, size))
            &&& r.weight == 4 * size
            &&& r.wtxid is None
        }),
{
    lemma_legacy_bytes_exact(s);
}

} // verus!
