use vstd::prelude::*;

use crate::parser::varint::{compact_size_at, compact_size_bytes, le_bytes, ParseError};

verus! {

/// `item` applied `k` times in a row from `pos`: the items read, in order, and
/// the position after the last one; `None` as soon as one read fails.
pub open spec fn repeat_at<T>(
    item: spec_fn(Seq<u8>, int) -> Option<(T, int)>,
    s: Seq<u8>,
    pos: int,
    k: nat,
) -> Option<(Seq<T>, int)>
    decreases k,
{
    if k == 0 {
        Some((Seq::empty(), pos))
    } else {
        match repeat_at(item, s, pos, (k - 1) as nat) {
            Some((xs, p)) => match item(s, p) {
                Some((x, q)) => Some((xs.push(x), q)),
                None => None,
            },
            None => None,
        }
    }
}

/// `item` applied `k` times in a row from `pos`, where a read can fail with
/// an error: the items read and the position after them, or the first
/// error.
pub open spec fn repeat_res<T>(
    item: spec_fn(Seq<u8>, int) -> Result<(T, int), ParseError>,
    s: Seq<u8>,
    pos: int,
    k: nat,
) -> Result<(Seq<T>, int), ParseError>
    decreases k,
{
    if k == 0 {
        Ok((Seq::empty(), pos))
    } else {
        match repeat_res(item, s, pos, (k - 1) as nat) {
            Ok((xs, p)) => match item(s, p) {
                Ok((x, q)) => Ok((xs.push(x), q)),
                Err(e) => Err(e),
            },
            Err(e) => Err(e),
        }
    }
}

/// Once a repetition fails, every longer one fails with the same error.
pub proof fn lemma_repeat_res_fails_on<T>(
    item: spec_fn(Seq<u8>, int) -> Result<(T, int), ParseError>,
    s: Seq<u8>,
    pos: int,
    k: nat,
    m: nat,
)
    requires
        repeat_res(item, s, pos, k) is Err,
        k <= m,
    ensures
        repeat_res(item, s, pos, m) == repeat_res(item, s, pos, k),
    decreases m,
{
    if m > k {
        lemma_repeat_res_fails_on(item, s, pos, k, (m - 1) as nat);
    }
}

/// The encodings of `xs` under `f`, one after the other.
pub open spec fn concat_map<T>(xs: Seq<T>, f: spec_fn(T) -> Seq<u8>) -> Seq<u8>
    decreases xs.len(),
{
    if xs.len() == 0 {
        Seq::empty()
    } else {
        concat_map(xs.drop_last(), f) + f(xs.last())
    }
}

/// A reader never moves backwards and, when it succeeds, consumes at least
/// as many bytes as `f` needs to write what it read.
pub open spec fn reader_covers<T>(
    item: spec_fn(Seq<u8>, int) -> Option<(T, int)>,
    f: spec_fn(T) -> Seq<u8>,
    s: Seq<u8>,
) -> bool {
    forall|pos: int|
        #![trigger item(s, pos)]
        match item(s, pos) {
            Some((x, q)) => pos <= q && f(x).len() <= q - pos,
            None => true,
        }
}

/// Once a repetition fails, every longer one fails too.
pub proof fn lemma_repeat_fails_on<T>(
    item: spec_fn(Seq<u8>, int) -> Option<(T, int)>,
    s: Seq<u8>,
    pos: int,
    k: nat,
    m: nat,
)
    requires
        repeat_at(item, s, pos, k) is None,
        k <= m,
    ensures
        repeat_at(item, s, pos, m) is None,
    decreases m,
{
    if m > k {
        lemma_repeat_fails_on(item, s, pos, k, (m - 1) as nat);
    }
}

/// A successful repetition of `k` reads yields `k` items, does not move
/// backwards, and consumes at least the bytes that `f` writes for them.
pub proof fn lemma_repeat_covers<T>(
    item: spec_fn(Seq<u8>, int) -> Option<(T, int)>,
    f: spec_fn(T) -> Seq<u8>,
    s: Seq<u8>,
    pos: int,
    k: nat,
)
    requires
        reader_covers(item, f, s),
        repeat_at(item, s, pos, k) is Some,
    ensures
        ({
            let (xs, q) = repeat_at(item, s, pos, k)->Some_0;
            &&& xs.len() == k
            &&& pos <= q
            &&& concat_map(xs, f).len() <= q - pos
        }),
    decreases k,
{
    if k > 0 {
        lemma_repeat_covers(item, f, s, pos, (k - 1) as nat);
        let (xs, p) = repeat_at(item, s, pos, (k - 1) as nat)->Some_0;
        let (x, q) = item(s, p)->Some_0;
        assert(xs.push(x).drop_last() =~= xs);
    }
}

/// `concat_map` only depends on what `f` gives for each item.
pub proof fn lemma_concat_map_congruent<T>(xs: Seq<T>, ys: Seq<T>, f: spec_fn(T) -> Seq<u8>)
    requires
        xs.len() == ys.len(),
        forall|j: int| 0 <= j < xs.len() ==> f(#[trigger] xs[j]) == f(ys[j]),
    ensures
        concat_map(xs, f) == concat_map(ys, f),
    decreases xs.len(),
{
    if xs.len() > 0 {
        lemma_concat_map_congruent(xs.drop_last(), ys.drop_last(), f);
    }
}

/// Appending one item appends its encoding.
pub proof fn lemma_concat_map_push<T>(xs: Seq<T>, x: T, f: spec_fn(T) -> Seq<u8>)
    ensures
        concat_map(xs.push(x), f) == concat_map(xs, f) + f(x),
{
    assert(xs.push(x).drop_last() =~= xs);
}

/// The CompactSize encoding of a value is never longer than any encoding of
/// it that `compact_size_at` accepts.
pub proof fn lemma_compact_size_shortest(s: Seq<u8>, pos: int)
    requires
        compact_size_at(s, pos) is Some,
    ensures
        ({
            let (v, q) = compact_size_at(s, pos)->Some_0;
            pos < q && compact_size_bytes(v).len() <= q - pos
        }),
{
    reveal_with_fuel(le_bytes, 9);
}

/// `item` reads back each value satisfying `valid` that `f` writes, wherever
/// in `s` it is written.
pub open spec fn reads_back<T>(
    item: spec_fn(Seq<u8>, int) -> Option<(T, int)>,
    f: spec_fn(T) -> Seq<u8>,
    valid: spec_fn(T) -> bool,
    s: Seq<u8>,
) -> bool {
    forall|pos: int, x: T|
        #![trigger item(s, pos), f(x)]
        valid(x) && 0 <= pos && pos + f(x).len() <= s.len() && s.subrange(pos, pos + f(x).len())
            == f(x) ==> item(s, pos) == Some((x, pos + f(x).len()))
}

/// The bytes `piece` found at `off` inside `whole`, itself found at `p`
/// in `s`, are found at `p + off` in `s`.
pub proof fn lemma_piece_at(s: Seq<u8>, p: int, whole: Seq<u8>, off: int, piece: Seq<u8>)
    requires
        0 <= p,
        p + whole.len() <= s.len(),
        s.subrange(p, p + whole.len()) == whole,
        0 <= off,
        off + piece.len() <= whole.len(),
        whole.subrange(off, off + piece.len()) == piece,
    ensures
        s.subrange(p + off, p + off + piece.len()) == piece,
{
    assert(s.subrange(p + off, p + off + piece.len()) =~= whole.subrange(off, off + piece.len()));
}

/// A repetition reads back the items that `concat_map` wrote.
pub proof fn lemma_repeat_written<T>(
    item: spec_fn(Seq<u8>, int) -> Option<(T, int)>,
    f: spec_fn(T) -> Seq<u8>,
    valid: spec_fn(T) -> bool,
    s: Seq<u8>,
    p: int,
    xs: Seq<T>,
)
    requires
        reads_back(item, f, valid, s),
        forall|i: int| 0 <= i < xs.len() ==> valid(#[trigger] xs[i]),
        0 <= p,
        p + concat_map(xs, f).len() <= s.len(),
        s.subrange(p, p + concat_map(xs, f).len()) == concat_map(xs, f),
    ensures
        repeat_at(item, s, p, xs.len()) == Some((xs, p + concat_map(xs, f).len())),
    decreases xs.len(),
{
    if xs.len() == 0 {
        assert(xs =~= Seq::<T>::empty());
    } else {
        let init = xs.drop_last();
        let x = xs.last();
        let c0 = concat_map(init, f);
        let whole = concat_map(xs, f);
        assert(whole == c0 + f(x));
        assert(whole.subrange(0, c0.len() as int) =~= c0);
        lemma_piece_at(s, p, whole, 0, c0);
        assert(forall|i: int| 0 <= i < init.len() ==> valid(#[trigger] init[i]) == valid(xs[i]));
        lemma_repeat_written(item, f, valid, s, p, init);
        assert(whole.subrange(c0.len() as int, (c0.len() + f(x).len()) as int) =~= f(x));
        lemma_piece_at(s, p, whole, c0.len() as int, f(x));
        let q = p + c0.len();
        assert(valid(x));
        assert(item(s, q) == Some((x, q + f(x).len())));
        assert(init.push(x) =~= xs);
    }
}

/// Appends the bytes of `src` to `buf`.
pub fn append_bytes(buf: &mut Vec<u8>, src: &[u8])
    ensures
        final(buf)@ == old(buf)@ + src@,
{
    let ghost start = buf@;
    let mut i: usize = 0;
    while i < src.len()
        invariant
            i <= src@.len(),
            buf@ == start + src@.subrange(0, i as int),
        decreases src@.len() - i,
    {
        buf.push(src[i]);
        i = i + 1;
        assert(buf@ =~= start + src@.subrange(0, i as int));
    }
    assert(src@.subrange(0, src@.len() as int) =~= src@);
}

} // verus!
