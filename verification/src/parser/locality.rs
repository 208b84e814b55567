use vstd::prelude::*;

use crate::parser::tx::{
    input_at, input_reader, output_at, output_reader, tx_at, tx_body_at, witness_item_at,
    witness_item_reader, witness_stack_at, witness_stack_reader,
};
use crate::parser::varint::{bytes_at, compact_size_at, i32_at, i64_at, u32_at};
use crate::parser::wire::repeat_at;

verus! {

// ---------------------------------------------------------------------------
// A successful read depends only on the bytes it reads.
// ---------------------------------------------------------------------------
/// `s` and `t` hold the same first `m` bytes.
pub open spec fn same_prefix(s: Seq<u8>, t: Seq<u8>, m: int) -> bool {
    &&& 0 <= m <= s.len()
    &&& m <= t.len()
    &&& forall|i: int| 0 <= i < m ==> #[trigger] s[i] == t[i]
}

proof fn lemma_bytes_local(s: Seq<u8>, t: Seq<u8>, m: int, p: int, n: int)
    requires
        same_prefix(s, t, m),
        bytes_at(s, p, n) is Some,
        bytes_at(s, p, n)->Some_0.1 <= m,
    ensures
        bytes_at(t, p, n) == bytes_at(s, p, n),
{
    assert(s.subrange(p, p + n) =~= t.subrange(p, p + n));
}

proof fn lemma_fixed_local(s: Seq<u8>, t: Seq<u8>, m: int, p: int)
    requires
        same_prefix(s, t, m),
    ensures
        u32_at(s, p) is Some && p + 4 <= m ==> u32_at(t, p) == u32_at(s, p),
        i32_at(s, p) is Some && p + 4 <= m ==> i32_at(t, p) == i32_at(s, p),
        i64_at(s, p) is Some && p + 8 <= m ==> i64_at(t, p) == i64_at(s, p),
{
    if 0 <= p && p + 4 <= m {
        assert(s[p] == t[p] && s[p + 1] == t[p + 1] && s[p + 2] == t[p + 2] && s[p + 3] == t[p + 3]);
    }
    if 0 <= p && p + 8 <= m {
        assert(s[p + 4] == t[p + 4] && s[p + 5] == t[p + 5] && s[p + 6] == t[p + 6] && s[p + 7]
            == t[p + 7]);
    }
}

proof fn lemma_compact_size_local(s: Seq<u8>, t: Seq<u8>, m: int, p: int)
    requires
        same_prefix(s, t, m),
        compact_size_at(s, p) is Some,
    ensures
        p < compact_size_at(s, p)->Some_0.1,
        compact_size_at(s, p)->Some_0.1 <= m ==> compact_size_at(t, p) == compact_size_at(s, p),
{
    if compact_size_at(s, p)->Some_0.1 <= m {
        assert(s[p] == t[p]);
        lemma_fixed_local(s, t, m, p + 1);
        if s[p] == 0xFD {
            assert(s[p + 1] == t[p + 1] && s[p + 2] == t[p + 2]);
        }
    }
}

proof fn lemma_input_local(s: Seq<u8>, t: Seq<u8>, m: int, p: int)
    requires
        same_prefix(s, t, m),
        input_at(s, p) is Some,
    ensures
        p <= input_at(s, p)->Some_0.1,
        input_at(s, p)->Some_0.1 <= m ==> input_at(t, p) == input_at(s, p),
{
    let (_, p1) = bytes_at(s, p, 32)->Some_0;
    let (_, p2) = u32_at(s, p1)->Some_0;
    let (n, p3) = compact_size_at(s, p2)->Some_0;
    let (_, p4) = bytes_at(s, p3, n as int)->Some_0;
    let (_, p5) = u32_at(s, p4)->Some_0;
    if p5 <= m {
        lemma_bytes_local(s, t, m, p, 32);
        lemma_fixed_local(s, t, m, p1);
        lemma_compact_size_local(s, t, m, p2);
        lemma_bytes_local(s, t, m, p3, n as int);
        lemma_fixed_local(s, t, m, p4);
    }
}

proof fn lemma_output_local(s: Seq<u8>, t: Seq<u8>, m: int, p: int)
    requires
        same_prefix(s, t, m),
        output_at(s, p) is Some,
    ensures
        p <= output_at(s, p)->Some_0.1,
        output_at(s, p)->Some_0.1 <= m ==> output_at(t, p) == output_at(s, p),
{
    let (_, p1) = i64_at(s, p)->Some_0;
    let (n, p2) = compact_size_at(s, p1)->Some_0;
    let (_, p3) = bytes_at(s, p2, n as int)->Some_0;
    if p3 <= m {
        lemma_fixed_local(s, t, m, p);
        lemma_compact_size_local(s, t, m, p1);
        lemma_bytes_local(s, t, m, p2, n as int);
    }
}

proof fn lemma_witness_item_local(s: Seq<u8>, t: Seq<u8>, m: int, p: int)
    requires
        same_prefix(s, t, m),
        witness_item_at(s, p) is Some,
    ensures
        p <= witness_item_at(s, p)->Some_0.1,
        witness_item_at(s, p)->Some_0.1 <= m ==> witness_item_at(t, p) == witness_item_at(s, p),
{
    let (n, p1) = compact_size_at(s, p)->Some_0;
    let (_, p2) = bytes_at(s, p1, n as int)->Some_0;
    if p2 <= m {
        lemma_compact_size_local(s, t, m, p);
        lemma_bytes_local(s, t, m, p1, n as int);
    }
}

/// A repetition of a reader that only looks at the bytes it reads, and
/// never moves back, only looks at the bytes it reads.
proof fn lemma_repeat_local<T>(
    item: spec_fn(Seq<u8>, int) -> Option<(T, int)>,
    s: Seq<u8>,
    t: Seq<u8>,
    m: int,
    pos: int,
    k: nat,
)
    requires
        forall|p: int| #[trigger] item(s, p) is Some ==> p <= item(s, p)->Some_0.1,
        forall|p: int|
            #[trigger] item(s, p) is Some && item(s, p)->Some_0.1 <= m ==> item(t, p) == item(
                s,
                p,
            ),
        repeat_at(item, s, pos, k) is Some,
        repeat_at(item, s, pos, k)->Some_0.1 <= m,
    ensures
        pos <= repeat_at(item, s, pos, k)->Some_0.1,
        repeat_at(item, t, pos, k) == repeat_at(item, s, pos, k),
    decreases k,
{
    if k > 0 {
        let (_, p) = repeat_at(item, s, pos, (k - 1) as nat)->Some_0;
        assert(item(s, p) is Some);
        assert(p <= item(s, p)->Some_0.1);
        lemma_repeat_local(item, s, t, m, pos, (k - 1) as nat);
    }
}

proof fn lemma_witness_stack_local(s: Seq<u8>, t: Seq<u8>, m: int, p: int)
    requires
        same_prefix(s, t, m),
        witness_stack_at(s, p) is Some,
    ensures
        p <= witness_stack_at(s, p)->Some_0.1,
        witness_stack_at(s, p)->Some_0.1 <= m ==> witness_stack_at(t, p) == witness_stack_at(s, p),
{
    let (n, p1) = compact_size_at(s, p)->Some_0;
    let item = witness_item_reader();
    assert forall|q: int| #[trigger] item(s, q) is Some implies q <= item(s, q)->Some_0.1 by {
        lemma_witness_item_local(s, t, m, q);
    }
    assert forall|q: int|
        #[trigger] item(s, q) is Some && item(s, q)->Some_0.1 <= m implies item(t, q) == item(
            s,
            q,
        ) by {
        lemma_witness_item_local(s, t, m, q);
    }
    lemma_compact_size_local(s, t, m, p);
    lemma_repeat_local_bound(item, s, t, m, p1, n as nat);
    if repeat_at(item, s, p1, n as nat)->Some_0.1 <= m {
        lemma_repeat_local(item, s, t, m, p1, n as nat);
    }
}

/// A repetition of a reader that never moves back ends at or after where it
/// starts.
proof fn lemma_repeat_local_bound<T>(
    item: spec_fn(Seq<u8>, int) -> Option<(T, int)>,
    s: Seq<u8>,
    t: Seq<u8>,
    m: int,
    pos: int,
    k: nat,
)
    requires
        forall|p: int| #[trigger] item(s, p) is Some ==> p <= item(s, p)->Some_0.1,
        repeat_at(item, s, pos, k) is Some,
    ensures
        pos <= repeat_at(item, s, pos, k)->Some_0.1,
    decreases k,
{
    if k > 0 {
        let (_, p) = repeat_at(item, s, pos, (k - 1) as nat)->Some_0;
        assert(item(s, p) is Some);
        lemma_repeat_local_bound(item, s, t, m, pos, (k - 1) as nat);
    }
}

#[verifier::spinoff_prover]
proof fn lemma_readers_local(s: Seq<u8>, t: Seq<u8>, m: int)
    requires
        same_prefix(s, t, m),
    ensures
        forall|p: int| #[trigger] input_reader()(s, p) is Some ==> p <= input_reader()(s, p)->Some_0.1,
        forall|p: int|
            #[trigger] input_reader()(s, p) is Some && input_reader()(s, p)->Some_0.1 <= m
                ==> input_reader()(t, p) == input_reader()(s, p),
        forall|p: int|
            #[trigger] output_reader()(s, p) is Some ==> p <= output_reader()(s, p)->Some_0.1,
        forall|p: int|
            #[trigger] output_reader()(s, p) is Some && output_reader()(s, p)->Some_0.1 <= m
                ==> output_reader()(t, p) == output_reader()(s, p),
        forall|p: int|
            #[trigger] witness_stack_reader()(s, p) is Some ==> p <= witness_stack_reader()(
                s,
                p,
            )->Some_0.1,
        forall|p: int|
            #[trigger] witness_stack_reader()(s, p) is Some && witness_stack_reader()(
                s,
                p,
            )->Some_0.1 <= m ==> witness_stack_reader()(t, p) == witness_stack_reader()(s, p),
{
    assert forall|p: int| #[trigger] input_reader()(s, p) is Some implies {
        &&& p <= input_reader()(s, p)->Some_0.1
        &&& input_reader()(s, p)->Some_0.1 <= m ==> input_reader()(t, p) == input_reader()(s, p)
    } by {
        lemma_input_local(s, t, m, p);
    }
    assert forall|p: int| #[trigger] output_reader()(s, p) is Some implies {
        &&& p <= output_reader()(s, p)->Some_0.1
        &&& output_reader()(s, p)->Some_0.1 <= m ==> output_reader()(t, p) == output_reader()(s, p)
    } by {
        lemma_output_local(s, t, m, p);
    }
    assert forall|p: int| #[trigger] witness_stack_reader()(s, p) is Some implies {
        &&& p <= witness_stack_reader()(s, p)->Some_0.1
        &&& witness_stack_reader()(s, p)->Some_0.1 <= m ==> witness_stack_reader()(t, p)
            == witness_stack_reader()(s, p)
    } by {
        lemma_witness_stack_local(s, t, m, p);
    }
}

#[verifier::spinoff_prover]
proof fn lemma_body_local(s: Seq<u8>, t: Seq<u8>, version: i32, segwit: bool, start: int)
    requires
        tx_body_at(s, version, segwit, start) is Ok,
        same_prefix(s, t, tx_body_at(s, version, segwit, start)->Ok_0.1),
    ensures
        tx_body_at(t, version, segwit, start) == tx_body_at(s, version, segwit, start),
{
    let m = tx_body_at(s, version, segwit, start)->Ok_0.1;
    lemma_readers_local(s, t, m);
    let (n_in, p1) = compact_size_at(s, start)->Some_0;
    let (ins, p2) = repeat_at(input_reader(), s, p1, n_in as nat)->Some_0;
    let (n_out, p3) = compact_size_at(s, p2)->Some_0;
    let (outs, p4) = repeat_at(output_reader(), s, p3, n_out as nat)->Some_0;
    let p5 = if segwit {
        repeat_at(witness_stack_reader(), s, p4, ins.len())->Some_0.1
    } else {
        p4
    };
    lemma_repeat_local_bound(input_reader(), s, t, m, p1, n_in as nat);
    lemma_repeat_local_bound(output_reader(), s, t, m, p3, n_out as nat);
    if segwit {
        lemma_repeat_local_bound(witness_stack_reader(), s, t, m, p4, ins.len());
    }
    lemma_fixed_local(s, t, m, p5);
    assert(p5 + 4 == m);
    if segwit {
        lemma_repeat_local(witness_stack_reader(), s, t, m, p4, ins.len());
    }
    lemma_repeat_local(output_reader(), s, t, m, p3, n_out as nat);
    lemma_compact_size_local(s, t, m, p2);
    lemma_repeat_local(input_reader(), s, t, m, p1, n_in as nat);
    lemma_compact_size_local(s, t, m, start);
}

#[verifier::spinoff_prover]
proof fn lemma_tx_local(s: Seq<u8>, t: Seq<u8>)
    requires
        tx_at(s) is Ok,
        same_prefix(s, t, tx_at(s)->Ok_0.1),
    ensures
        tx_at(t) == tx_at(s),
{
    let m = tx_at(s)->Ok_0.1;
    let version = i32_at(s, 0)->Some_0.0;
    if s[4] == 0 {
        lemma_body_end(s, version, true, 6);
        assert(s[4] == t[4] && s[5] == t[5]);
        lemma_fixed_local(s, t, m, 0);
        lemma_body_local(s, t, version, true, 6);
    } else {
        lemma_body_end(s, version, false, 4);
        assert(s[4] == t[4]);
        lemma_fixed_local(s, t, m, 0);
        lemma_body_local(s, t, version, false, 4);
    }
}

/// A transaction body ends after where it starts.
#[verifier::spinoff_prover]
proof fn lemma_body_end(s: Seq<u8>, version: i32, segwit: bool, start: int)
    requires
        tx_body_at(s, version, segwit, start) is Ok,
    ensures
        start < tx_body_at(s, version, segwit, start)->Ok_0.1 <= s.len(),
{
    let m = tx_body_at(s, version, segwit, start)->Ok_0.1;
    lemma_readers_local(s, s, m);
    let (n_in, p1) = compact_size_at(s, start)->Some_0;
    let (ins, p2) = repeat_at(input_reader(), s, p1, n_in as nat)->Some_0;
    let (n_out, p3) = compact_size_at(s, p2)->Some_0;
    let (outs, p4) = repeat_at(output_reader(), s, p3, n_out as nat)->Some_0;
    lemma_repeat_local_bound(input_reader(), s, s, m, p1, n_in as nat);
    lemma_repeat_local_bound(output_reader(), s, s, m, p3, n_out as nat);
    if segwit {
        lemma_repeat_local_bound(witness_stack_reader(), s, s, m, p4, ins.len());
    }
}

/// Only the bytes of a transaction decide its decoding: any bytes after it
/// leave the decoding unchanged, and its own bytes alone decode the same.
#[verifier::spinoff_prover]
pub proof fn law_trailing_bytes_do_not_matter(s: Seq<u8>, extra: Seq<u8>)
    requires
        tx_at(s) is Ok,
    ensures
        tx_at(s)->Ok_0.1 <= s.len(),
        tx_at(s + extra) == tx_at(s),
        tx_at(s.subrange(0, tx_at(s)->Ok_0.1)) == tx_at(s),
{
    let m = tx_at(s)->Ok_0.1;
    let version = i32_at(s, 0)->Some_0.0;
    if s[4] == 0 {
        lemma_body_end(s, version, true, 6);
    } else {
        lemma_body_end(s, version, false, 4);
    }
    let longer = s + extra;
    let own = s.subrange(0, m);
    assert(same_prefix(s, longer, m));
    assert(same_prefix(s, own, m));
    lemma_tx_local(s, longer);
    lemma_tx_local(s, own);
}

} // verus!
