use vstd::prelude::*;

verus! {

/// Why decoding a block file, an undo file or a transaction failed.
#[derive(Debug, Clone, Copy, PartialEq, Eq, Structural)]
pub enum ParseError {
    /// The bytes ended before the value being read was complete.
    UnexpectedEof,
    /// A SegWit marker byte was followed by a flag other than `0x01`.
    InvalidSegwitFlag,
    /// An undo record did not start with the network magic.
    BadRevMagic,
    /// A compressed amount in undo data decompresses to more than `u64::MAX`.
    AmountOverflow,
    /// A block record is shorter than the 80-byte block header.
    ShortBlockRecord,
    /// An undo record's body runs past the end of the file.
    TruncatedUndoRecord,
}

impl ParseError {
    /// The message that describes this error.
    pub fn message(&self) -> (m: &'static str)
        ensures
            m == self.text(),
    {
        match self {
            ParseError::UnexpectedEof => "failed to fill whole buffer",
            ParseError::InvalidSegwitFlag => "Invalid Segwit Flag",
            ParseError::BadRevMagic => "Bad rev magic",
            ParseError::AmountOverflow => "Compressed amount out of range",
            ParseError::ShortBlockRecord => "Block record shorter than its header",
            ParseError::TruncatedUndoRecord => "Undo record runs past the end of the file",
        }
    }

    pub open spec fn text(self) -> &'static str {
        match self {
            ParseError::UnexpectedEof => "failed to fill whole buffer",
            ParseError::InvalidSegwitFlag => "Invalid Segwit Flag",
            ParseError::BadRevMagic => "Bad rev magic",
            ParseError::AmountOverflow => "Compressed amount out of range",
            ParseError::ShortBlockRecord => "Block record shorter than its header",
            ParseError::TruncatedUndoRecord => "Undo record runs past the end of the file",
        }
    }
}

/// A read position inside a borrowed byte buffer.
pub struct Cursor<'a> {
    pub data: &'a [u8],
    pub pos: usize,
}

impl<'a> Cursor<'a> {
    /// A cursor at the start of `data`.
    pub fn new(data: &'a [u8]) -> (c: Cursor<'a>)
        ensures
            c.data@ == data@,
            c.pos == 0,
            c.wf(),
    {
        let n = data.len();
        assert(n == data@.len());
        Cursor { data, pos: 0 }
    }

    /// The cursor reads inside its buffer (or at its very end).
    pub open spec fn wf(&self) -> bool {
        &&& self.pos <= self.data@.len()
        &&& self.data@.len() <= usize::MAX
    }
}

/// Little-endian value of the two bytes of `s` at `i`.
pub open spec fn le2(s: Seq<u8>, i: int) -> nat {
    (s[i] + 256 * s[i + 1]) as nat
}

/// Little-endian value of the four bytes of `s` at `i`.
pub open spec fn le4(s: Seq<u8>, i: int) -> nat {
    le2(s, i) + 65536 * le2(s, i + 2)
}

/// Little-endian value of the eight bytes of `s` at `i`.
pub open spec fn le8(s: Seq<u8>, i: int) -> nat {
    le4(s, i) + 4294967296 * le4(s, i + 4)
}

/// The two's-complement reading of a 32-bit pattern.
pub open spec fn signed32(v: nat) -> int {
    if v < 0x8000_0000 {
        v as int
    } else {
        v - 0x1_0000_0000
    }
}

/// The two's-complement reading of a 64-bit pattern.
pub open spec fn signed64(v: nat) -> int {
    if v < 0x8000_0000_0000_0000 {
        v as int
    } else {
        v - 0x1_0000_0000_0000_0000
    }
}

/// The `n` bytes of `s` at `pos`, and the position after them.
pub open spec fn bytes_at(s: Seq<u8>, pos: int, n: int) -> Option<(Seq<u8>, int)> {
    if 0 <= pos && 0 <= n && pos + n <= s.len() {
        Some((s.subrange(pos, pos + n), pos + n))
    } else {
        None
    }
}

/// A little-endian `u32` at `pos`.
pub open spec fn u32_at(s: Seq<u8>, pos: int) -> Option<(u32, int)> {
    if 0 <= pos && pos + 4 <= s.len() {
        Some((le4(s, pos) as u32, pos + 4))
    } else {
        None
    }
}

/// A little-endian `i32` at `pos`.
pub open spec fn i32_at(s: Seq<u8>, pos: int) -> Option<(i32, int)> {
    if 0 <= pos && pos + 4 <= s.len() {
        Some((signed32(le4(s, pos)) as i32, pos + 4))
    } else {
        None
    }
}

/// A little-endian `i64` at `pos`.
pub open spec fn i64_at(s: Seq<u8>, pos: int) -> Option<(i64, int)> {
    if 0 <= pos && pos + 8 <= s.len() {
        Some((signed64(le8(s, pos)) as i64, pos + 8))
    } else {
        None
    }
}

/// A CompactSize integer at `pos`: one byte below `0xFD`, or the marker
/// `0xFD`, `0xFE`, `0xFF` followed by a 2-, 4- or 8-byte little-endian value.
pub open spec fn compact_size_at(s: Seq<u8>, pos: int) -> Option<(u64, int)> {
    if pos < 0 || pos + 1 > s.len() {
        None
    } else if s[pos] <= 0xFC {
        Some((s[pos] as u64, pos + 1))
    } else if s[pos] == 0xFD {
        if pos + 3 <= s.len() {
            Some((le2(s, pos + 1) as u64, pos + 3))
        } else {
            None
        }
    } else if s[pos] == 0xFE {
        if pos + 5 <= s.len() {
            Some((le4(s, pos + 1) as u64, pos + 5))
        } else {
            None
        }
    } else {
        if pos + 9 <= s.len() {
            Some((le8(s, pos + 1) as u64, pos + 9))
        } else {
            None
        }
    }
}

/// The shortest CompactSize encoding of `v`.
pub open spec fn compact_size_bytes(v: u64) -> Seq<u8> {
    if v < 0xFD {
        seq![v as u8]
    } else if v <= 0xFFFF {
        seq![0xFDu8] + le_bytes(v as nat, 2)
    } else if v <= 0xFFFF_FFFF {
        seq![0xFEu8] + le_bytes(v as nat, 4)
    } else {
        seq![0xFFu8] + le_bytes(v as nat, 8)
    }
}

/// The `n` low bytes of `v`, least significant first.
pub open spec fn le_bytes(v: nat, n: nat) -> Seq<u8>
    decreases n,
{
    if n == 0 {
        Seq::empty()
    } else {
        seq![(v % 256) as u8] + le_bytes(v / 256, (n - 1) as nat)
    }
}

/// Reads a CompactSize integer.
pub fn read_compact_size(c: &mut Cursor) -> (r: Result<u64, ParseError>)
    requires
        old(c).wf(),
    ensures
        final(c).data@ == old(c).data@,
        final(c).wf(),
        match compact_size_at(old(c).data@, old(c).pos as int) {
            Some((v, p)) => r == Ok::<u64, ParseError>(v) && final(c).pos == p,
            None => r == Err::<u64, ParseError>(ParseError::UnexpectedEof) && final(c).pos
                == old(c).pos,
        },
{
    let avail = c.data.len() - c.pos;
    if avail < 1 {
        return Err(ParseError::UnexpectedEof);
    }
    let p = c.pos;
    let first = c.data[p];
    if first <= 0xFC {
        c.pos = p + 1;
        Ok(first as u64)
    } else if first == 0xFD {
        if avail < 3 {
            return Err(ParseError::UnexpectedEof);
        }
        let v: u64 = c.data[p + 1] as u64 + 256 * (c.data[p + 2] as u64);
        c.pos = p + 3;
        Ok(v)
    } else if first == 0xFE {
        if avail < 5 {
            return Err(ParseError::UnexpectedEof);
        }
        let v = le4_exec(c.data, p + 1);
        c.pos = p + 5;
        Ok(v as u64)
    } else {
        if avail < 9 {
            return Err(ParseError::UnexpectedEof);
        }
        let v = le8_exec(c.data, p + 1);
        c.pos = p + 9;
        Ok(v)
    }
}

fn le4_exec(data: &[u8], i: usize) -> (v: u32)
    requires
        i + 4 <= data@.len(),
    ensures
        v == le4(data@, i as int),
{
    data[i] as u32 + 256 * (data[i + 1] as u32) + 65536 * (data[i + 2] as u32 + 256 * (
    data[i + 3] as u32))
}

fn le8_exec(data: &[u8], i: usize) -> (v: u64)
    requires
        i + 8 <= data.len(),
    ensures
        v == le8(data@, i as int),
{
    let lo = le4_exec(data, i);
    let hi = le4_exec(data, i + 4);
    lo as u64 + 4294967296 * (hi as u64)
}

/// Reads `n` bytes into a new vector.
pub fn read_bytes(c: &mut Cursor, n: usize) -> (r: Result<Vec<u8>, ParseError>)
    requires
        old(c).wf(),
    ensures
        final(c).data@ == old(c).data@,
        final(c).wf(),
        match bytes_at(old(c).data@, old(c).pos as int, n as int) {
            Some((b, p)) => r is Ok && r->Ok_0@ == b && final(c).pos == p,
            None => r == Err::<Vec<u8>, ParseError>(ParseError::UnexpectedEof) && final(c).pos
                == old(c).pos,
        },
{
    if c.data.len() - c.pos < n {
        return Err(ParseError::UnexpectedEof);
    }
    let p = c.pos;
    let mut out: Vec<u8> = Vec::new();
    let mut i: usize = 0;
    while i < n
        invariant
            p + n <= c.data.len(),
            c.data@.len() == c.data.len(),
            i <= n,
            out@ == c.data@.subrange(p as int, p + i),
        decreases n - i,
    {
        out.push(c.data[p + i]);
        i = i + 1;
        assert(out@ =~= c.data@.subrange(p as int, p + i));
    }
    c.pos = p + n;
    Ok(out)
}

/// Reads a little-endian `u32`.
pub fn read_u32_le(c: &mut Cursor) -> (r: Result<u32, ParseError>)
    requires
        old(c).wf(),
    ensures
        final(c).data@ == old(c).data@,
        final(c).wf(),
        match u32_at(old(c).data@, old(c).pos as int) {
            Some((v, p)) => r == Ok::<u32, ParseError>(v) && final(c).pos == p,
            None => r == Err::<u32, ParseError>(ParseError::UnexpectedEof) && final(c).pos
                == old(c).pos,
        },
{
    if c.data.len() - c.pos < 4 {
        return Err(ParseError::UnexpectedEof);
    }
    let p = c.pos;
    let v = le4_exec(c.data, p);
    c.pos = p + 4;
    Ok(v)
}

/// Reads a little-endian `i32` (two's complement).
pub fn read_i32_le(c: &mut Cursor) -> (r: Result<i32, ParseError>)
    requires
        old(c).wf(),
    ensures
        final(c).data@ == old(c).data@,
        final(c).wf(),
        match i32_at(old(c).data@, old(c).pos as int) {
            Some((v, p)) => r == Ok::<i32, ParseError>(v) && final(c).pos == p,
            None => r == Err::<i32, ParseError>(ParseError::UnexpectedEof) && final(c).pos
                == old(c).pos,
        },
{
    if c.data.len() - c.pos < 4 {
        return Err(ParseError::UnexpectedEof);
    }
    let p = c.pos;
    let u = le4_exec(c.data, p);
    c.pos = p + 4;
    if u < 0x8000_0000 {
        Ok(u as i32)
    } else {
        Ok(((u - 0x8000_0000) as i32) - 0x7FFF_FFFF - 1)
    }
}

/// Reads a little-endian `i64` (two's complement).
pub fn read_i64_le(c: &mut Cursor) -> (r: Result<i64, ParseError>)
    requires
        old(c).wf(),
    ensures
        final(c).data@ == old(c).data@,
        final(c).wf(),
        match i64_at(old(c).data@, old(c).pos as int) {
            Some((v, p)) => r == Ok::<i64, ParseError>(v) && final(c).pos == p,
            None => r == Err::<i64, ParseError>(ParseError::UnexpectedEof) && final(c).pos
                == old(c).pos,
        },
{
    if c.data.len() - c.pos < 8 {
        return Err(ParseError::UnexpectedEof);
    }
    let p = c.pos;
    let u = le8_exec(c.data, p);
    c.pos = p + 8;
    if u < 0x8000_0000_0000_0000 {
        Ok(u as i64)
    } else {
        Ok(((u - 0x8000_0000_0000_0000) as i64) - 0x7FFF_FFFF_FFFF_FFFF - 1)
    }
}

/// Appends the shortest CompactSize encoding of `val` to `buf`.
pub fn encode_compact_size(buf: &mut Vec<u8>, val: u64)
    ensures
        final(buf)@ == old(buf)@ + compact_size_bytes(val),
{
    proof {
        reveal_with_fuel(le_bytes, 9);
    }
    if val < 0xFD {
        buf.push(val as u8);
    } else if val <= 0xFFFF {
        buf.push(0xFD);
        push_le(buf, val, 2);
    } else if val <= 0xFFFF_FFFF {
        buf.push(0xFE);
        push_le(buf, val, 4);
    } else {
        buf.push(0xFF);
        push_le(buf, val, 8);
    }
}

/// Appends the `n` low bytes of `v`, least significant first.
pub fn push_le(buf: &mut Vec<u8>, v: u64, n: usize)
    ensures
        final(buf)@ == old(buf)@ + le_bytes(v as nat, n as nat),
{
    let ghost target = buf@ + le_bytes(v as nat, n as nat);
    let mut rest = v;
    let mut i: usize = 0;
    while i < n
        invariant
            i <= n,
            buf@ + le_bytes(rest as nat, (n - i) as nat) == target,
        decreases n - i,
    {
        let ghost before = buf@;
        let ghost k = (n - i) as nat;
        buf.push((rest % 256) as u8);
        assert(le_bytes(rest as nat, k) == seq![(rest as nat % 256) as u8] + le_bytes(
            rest as nat / 256,
            (k - 1) as nat,
        ));
        assert(buf@ + le_bytes(rest as nat / 256, (k - 1) as nat) =~= before + le_bytes(
            rest as nat,
            k,
        ));
        rest = rest / 256;
        i = i + 1;
    }
    assert(le_bytes(rest as nat, 0) =~= Seq::<u8>::empty());
    assert(buf@ =~= buf@ + le_bytes(rest as nat, 0));
}

} // verus!
verus! {

/// Two little-endian bytes written for `v` read back as `v`.
pub proof fn lemma_le2_written(s: Seq<u8>, p: int, v: nat)
    requires
        v < 0x1_0000,
        0 <= p,
        p + 2 <= s.len(),
        s.subrange(p, p + 2) == le_bytes(v, 2),
    ensures
        le2(s, p) == v,
{
    reveal_with_fuel(le_bytes, 3);
    let b = le_bytes(v, 2);
    assert(s[p] == b[0] && s[p + 1] == b[1]);
    let w = v as u64;
    assert(w % 256 + 256 * ((w / 256) % 256) == w) by (bit_vector)
        requires
            w < 0x1_0000,
    ;
}

/// Four little-endian bytes written for `v` read back as `v`.
pub proof fn lemma_le4_written(s: Seq<u8>, p: int, v: nat)
    requires
        v < 0x1_0000_0000,
        0 <= p,
        p + 4 <= s.len(),
        s.subrange(p, p + 4) == le_bytes(v, 4),
    ensures
        le4(s, p) == v,
{
    reveal_with_fuel(le_bytes, 5);
    let b = le_bytes(v, 4);
    assert(s[p] == b[0] && s[p + 1] == b[1] && s[p + 2] == b[2] && s[p + 3] == b[3]);
    let w = v as u64;
    assert(w % 256 + 256 * ((w / 256) % 256) + 65536 * ((w / 256 / 256) % 256 + 256 * ((w / 256
        / 256 / 256) % 256)) == w) by (bit_vector)
        requires
            w < 0x1_0000_0000,
    ;
}

/// Eight little-endian bytes written for `v` read back as `v`.
pub proof fn lemma_le8_written(s: Seq<u8>, p: int, v: nat)
    requires
        v < 0x1_0000_0000_0000_0000,
        0 <= p,
        p + 8 <= s.len(),
        s.subrange(p, p + 8) == le_bytes(v, 8),
    ensures
        le8(s, p) == v,
{
    reveal_with_fuel(le_bytes, 9);
    let b = le_bytes(v, 8);
    assert(s[p] == b[0] && s[p + 1] == b[1] && s[p + 2] == b[2] && s[p + 3] == b[3]);
    assert(s[p + 4] == b[4] && s[p + 5] == b[5] && s[p + 6] == b[6] && s[p + 7] == b[7]);
    let w = v as u64;
    assert(w % 256 + 256 * ((w / 256) % 256) + 65536 * ((w / 256 / 256) % 256 + 256 * ((w / 256
        / 256 / 256) % 256)) + 4294967296 * ((w / 256 / 256 / 256 / 256) % 256 + 256 * ((w / 256
        / 256 / 256 / 256 / 256) % 256) + 65536 * ((w / 256 / 256 / 256 / 256 / 256 / 256) % 256
        + 256 * ((w / 256 / 256 / 256 / 256 / 256 / 256 / 256) % 256))) == w) by (bit_vector);
}

/// A CompactSize written at `p` reads back as the same value, consuming
/// exactly its bytes.
pub proof fn lemma_compact_size_written(s: Seq<u8>, p: int, v: u64)
    requires
        0 <= p,
        p + compact_size_bytes(v).len() <= s.len(),
        s.subrange(p, p + compact_size_bytes(v).len()) == compact_size_bytes(v),
    ensures
        compact_size_at(s, p) == Some((v, p + compact_size_bytes(v).len())),
{
    reveal_with_fuel(le_bytes, 9);
    let b = compact_size_bytes(v);
    assert(s[p] == b[0]);
    if v < 0xFD {
    } else if v <= 0xFFFF {
        assert(s.subrange(p + 1, p + 3) =~= b.subrange(1, 3));
        assert(b.subrange(1, 3) =~= le_bytes(v as nat, 2));
        lemma_le2_written(s, p + 1, v as nat);
    } else if v <= 0xFFFF_FFFF {
        assert(s.subrange(p + 1, p + 5) =~= b.subrange(1, 5));
        assert(b.subrange(1, 5) =~= le_bytes(v as nat, 4));
        lemma_le4_written(s, p + 1, v as nat);
    } else {
        assert(s.subrange(p + 1, p + 9) =~= b.subrange(1, 9));
        assert(b.subrange(1, 9) =~= le_bytes(v as nat, 8));
        lemma_le8_written(s, p + 1, v as nat);
    }
}

/// Reading a CompactSize back from its own encoding gives the value.
pub proof fn law_compact_size_roundtrip(v: u64)
    ensures
        compact_size_at(compact_size_bytes(v), 0) == Some((v, compact_size_bytes(v).len() as int)),
{
    let b = compact_size_bytes(v);
    assert(b.subrange(0, b.len() as int) =~= b);
    lemma_compact_size_written(b, 0, v);
}

} // verus!
