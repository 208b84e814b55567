use vstd::prelude::*;

use crate::parser::block::BLOCK_MAGIC;
use crate::parser::varint::{
    bytes_at, compact_size_at, le4, read_bytes, read_compact_size, read_u32_le, Cursor,
    ParseError,
};
use crate::parser::wire::{lemma_repeat_res_fails_on, repeat_res};

verus! {

#[derive(Debug, Clone)]
pub struct UndoCoin {
    pub height: u32,
    pub coinbase: bool,
    pub amount: u64,
    pub script_pubkey: Vec<u8>,
}

#[derive(Debug)]
pub struct TxUndo {
    pub prevouts: Vec<UndoCoin>,
}

#[derive(Debug)]
pub struct BlockUndo {
    pub tx_undos: Vec<TxUndo>,
}

/// A spent output as plain values.
pub struct UndoCoinModel {
    pub height: u32,
    pub coinbase: bool,
    pub amount: u64,
    pub script_pubkey: Seq<u8>,
}

impl View for UndoCoin {
    type V = UndoCoinModel;

    open spec fn view(&self) -> UndoCoinModel {
        UndoCoinModel {
            height: self.height,
            coinbase: self.coinbase,
            amount: self.amount,
            script_pubkey: self.script_pubkey@,
        }
    }
}

impl View for TxUndo {
    type V = Seq<UndoCoinModel>;

    open spec fn view(&self) -> Seq<UndoCoinModel> {
        self.prevouts@.map_values(|c: UndoCoin| c@)
    }
}

impl View for BlockUndo {
    type V = Seq<Seq<UndoCoinModel>>;

    open spec fn view(&self) -> Seq<Seq<UndoCoinModel>> {
        self.tx_undos@.map_values(|t: TxUndo| t@)
    }
}

// ---------------------------------------------------------------------------
// Bitcoin Core's serialization of undo data.
// ---------------------------------------------------------------------------
/// One step of Bitcoin Core's variable-length integer: shift seven bits in,
/// modulo 2^64.
pub open spec fn varint_step(acc: u64, digit: nat) -> u64 {
    ((acc * 128 + digit) % 0x1_0000_0000_0000_0000) as u64
}

/// Bitcoin Core's variable-length integer from `pos`, with `acc` the value
/// of the bytes already read: each byte carries seven bits, high bit set on
/// all but the last, and every byte but the last adds one.
pub open spec fn varint_from(s: Seq<u8>, pos: int, acc: u64) -> Option<(u64, int)>
    decreases s.len() - pos,
{
    if pos < 0 || pos >= s.len() {
        None
    } else if s[pos] < 128 {
        Some((varint_step(acc, s[pos] as nat), pos + 1))
    } else {
        varint_from(s, pos + 1, varint_step(acc, (s[pos] - 128 + 1) as nat))
    }
}

pub open spec fn varint_at(s: Seq<u8>, pos: int) -> Option<(u64, int)> {
    varint_from(s, pos, 0)
}

pub open spec fn pow10(e: nat) -> nat
    decreases e,
{
    if e == 0 {
        1
    } else {
        10 * pow10((e - 1) as nat)
    }
}

/// Bitcoin Core's amount decompression (`compressor.cpp`): 0 stays 0;
/// otherwise `x - 1` holds the exponent `e` in its last decimal digit and,
/// below 9, the last nonzero digit of the mantissa in base 9.
pub open spec fn decompress(x: u64) -> int {
    if x == 0 {
        0
    } else {
        let y = x - 1;
        let e = y % 10;
        let z = y / 10;
        if e < 9 {
            (z / 9 * 10 + z % 9 + 1) * pow10(e as nat)
        } else {
            (z + 1) * pow10(e as nat)
        }
    }
}

/// `n` with up to `9 - e` trailing decimal zeros removed, and the exponent
/// raised by one for each.
pub open spec fn strip_zeros(n: nat, e: nat) -> (nat, nat)
    decreases 9 - e,
{
    if e < 9 && n > 0 && n % 10 == 0 {
        strip_zeros(n / 10, e + 1)
    } else {
        (n, e)
    }
}

/// Bitcoin Core's amount compression (`compressor.cpp`), the inverse of
/// `decompress`: the exponent of up to nine trailing zeros in the last
/// decimal digit and, below nine, the last nonzero digit folded in base 9.
pub open spec fn compress(n: nat) -> nat {
    if n == 0 {
        0
    } else {
        let (m, e) = strip_zeros(n, 0);
        if e < 9 {
            (1 + ((m / 10) * 9 + m % 10 - 1) * 10 + e) as nat
        } else {
            (1 + (m - 1) * 10 + 9) as nat
        }
    }
}

proof fn lemma_strip_zeros(n: nat, e: nat)
    requires
        n > 0,
        e <= 9,
    ensures
        ({
            let (m, f) = strip_zeros(n, e);
            &&& m > 0
            &&& e <= f <= 9
            &&& f < 9 ==> m % 10 != 0
            &&& m * pow10((f - e) as nat) == n
        }),
    decreases 9 - e,
{
    if e < 9 && n % 10 == 0 {
        assert(n == 10 * (n / 10) && n / 10 > 0) by (nonlinear_arith)
            requires
                n % 10 == 0,
                n > 0,
        ;
        lemma_strip_zeros(n / 10, e + 1);
        let (m, f) = strip_zeros(n / 10, e + 1);
        let k = (f - (e + 1)) as nat;
        assert(pow10((f - e) as nat) == 10 * pow10(k));
        assert(m * (10 * pow10(k)) == 10 * (m * pow10(k))) by (nonlinear_arith);
        assert(m * pow10((f - e) as nat) == n);
    } else {
        assert(pow10(0) == 1);
        assert(n * pow10(0) == n);
    }
}

proof fn lemma_pow10_positive(e: nat)
    ensures
        pow10(e) >= 1,
    decreases e,
{
    if e > 0 {
        lemma_pow10_positive((e - 1) as nat);
    }
}

/// Every amount up to the 21 million bitcoin supply compresses into 64
/// bits.
pub proof fn law_money_compresses_in_64_bits(n: nat)
    requires
        n <= 2_100_000_000_000_000,
    ensures
        compress(n) <= u64::MAX,
{
    if n > 0 {
        lemma_strip_zeros(n, 0);
        let (m, e) = strip_zeros(n, 0);
        lemma_pow10_positive(e);
        assert(m <= n) by (nonlinear_arith)
            requires
                m * pow10(e) == n,
                pow10(e) >= 1,
                m > 0,
        ;
        assert((m / 10) * 9 <= m) by (nonlinear_arith);
    }
}

/// Decompressing a compressed amount gives the amount back, for every
/// amount whose compressed form fits in 64 bits.
pub proof fn law_decompress_undoes_compress(n: nat)
    requires
        compress(n) <= u64::MAX,
    ensures
        decompress(compress(n) as u64) == n,
{
    if n > 0 {
        lemma_strip_zeros(n, 0);
        let (m, e) = strip_zeros(n, 0);
        let x = compress(n);
        if e < 9 {
            let q = m / 10;
            let d = m % 10;
            assert(1 <= d <= 9);
            let z = q * 9 + d - 1;
            assert(x == 1 + z * 10 + e);
            assert((x - 1) % 10 == e && (x - 1) / 10 == z) by (nonlinear_arith)
                requires
                    x == 1 + z * 10 + e,
                    0 <= e < 9,
                    z >= 0,
            ;
            assert(z / 9 == q && z % 9 == d - 1) by (nonlinear_arith)
                requires
                    z == q * 9 + d - 1,
                    1 <= d <= 9,
                    q >= 0,
            ;
            assert(m == q * 10 + d) by (nonlinear_arith)
                requires
                    q == m / 10,
                    d == m % 10,
            ;
        } else {
            assert(x == 1 + (m - 1) * 10 + 9);
            assert((x - 1) % 10 == 9 && (x - 1) / 10 == m - 1) by (nonlinear_arith)
                requires
                    x == 1 + (m - 1) * 10 + 9,
                    m >= 1,
            ;
        }
    }
}

/// A compressed scriptPubKey (`compressor.cpp`) from `pos`: kind 0 and 1
/// rebuild P2PKH and P2SH scripts around a 20-byte hash, kinds 2 to 5 a
/// pay-to-pubkey script around a 32-byte key (the key is kept as read, with
/// the kind as prefix for 2 and 3 and `0x02`/`0x03` for 4 and 5), and kind
/// `n >= 6` is a raw script of `n - 6` bytes.
pub open spec fn compressed_script_at(s: Seq<u8>, pos: int) -> Option<(Seq<u8>, int)> {
    match varint_at(s, pos) {
        None => None,
        Some((n, p)) => if n == 0 {
            match bytes_at(s, p, 20) {
                Some((h, q)) => Some((seq![0x76u8, 0xa9u8, 0x14u8] + h + seq![0x88u8, 0xacu8], q)),
                None => None,
            }
        } else if n == 1 {
            match bytes_at(s, p, 20) {
                Some((h, q)) => Some((seq![0xa9u8, 0x14u8] + h + seq![0x87u8], q)),
                None => None,
            }
        } else if n == 2 || n == 3 {
            match bytes_at(s, p, 32) {
                Some((k, q)) => Some((seq![0x21u8, n as u8] + k + seq![0xacu8], q)),
                None => None,
            }
        } else if n == 4 || n == 5 {
            match bytes_at(s, p, 32) {
                Some((k, q)) => Some(
                    (seq![0x21u8, (if n == 4 { 0x02u8 } else { 0x03u8 })] + k + seq![0xacu8], q),
                ),
                None => None,
            }
        } else {
            bytes_at(s, p, n - 6)
        },
    }
}

/// Bitcoin Core's compressed form (`compressor.cpp`) of a P2PKH script
/// `76 a9 14 <h> 88 ac` (kind 0 then h), a P2SH script `a9 14 <h> 87`
/// (kind 1 then h), or a pay-to-compressed-key script `21 <02|03> <x> ac`
/// (the key's prefix as kind, then x), each kept as it stands in the script.
pub open spec fn compact_script(spk: Seq<u8>) -> Option<Seq<u8>> {
    if spk.len() == 25 && spk[0] == 0x76 && spk[1] == 0xa9 && spk[2] == 0x14 && spk[23] == 0x88
        && spk[24] == 0xac {
        Some(seq![0x00u8] + spk.subrange(3, 23))
    } else if spk.len() == 23 && spk[0] == 0xa9 && spk[1] == 0x14 && spk[22] == 0x87 {
        Some(seq![0x01u8] + spk.subrange(2, 22))
    } else if spk.len() == 35 && spk[0] == 0x21 && (spk[1] == 0x02 || spk[1] == 0x03) && spk[34]
        == 0xac {
        Some(seq![spk[1]] + spk.subrange(2, 34))
    } else {
        None
    }
}

/// Expanding the compressed form of a P2PKH, P2SH or compressed-key script
/// gives the script back, whatever bytes follow it, and consumes exactly
/// the compressed form.
pub proof fn law_compressed_script_expands_back(spk: Seq<u8>, rest: Seq<u8>)
    requires
        compact_script(spk) is Some,
    ensures
        compressed_script_at(compact_script(spk)->Some_0 + rest, 0) == Some(
            (spk, compact_script(spk)->Some_0.len() as int),
        ),
{
    let c = compact_script(spk)->Some_0;
    let s = c + rest;
    assert(s[0] == c[0]);
    assert(varint_step(0, s[0] as nat) == s[0]);
    assert(s.subrange(1, 21) =~= c.subrange(1, 21));
    if spk.len() == 25 {
        assert(c.subrange(1, 21) =~= spk.subrange(3, 23));
        assert(seq![0x76u8, 0xa9u8, 0x14u8] + spk.subrange(3, 23) + seq![0x88u8, 0xacu8] =~= spk);
    } else if spk.len() == 23 {
        assert(c.subrange(1, 21) =~= spk.subrange(2, 22));
        assert(seq![0xa9u8, 0x14u8] + spk.subrange(2, 22) + seq![0x87u8] =~= spk);
    } else {
        assert(s.subrange(1, 33) =~= spk.subrange(2, 34));
        assert(seq![0x21u8, spk[1]] + spk.subrange(2, 34) + seq![0xacu8] =~= spk);
    }
}

/// Any other script is stored whole after its length plus six; for a
/// script short enough that this takes one byte, reading it back gives the
/// script, whatever bytes follow.
pub proof fn law_raw_script_reads_back(spk: Seq<u8>, rest: Seq<u8>)
    requires
        spk.len() + 6 < 128,
    ensures
        compressed_script_at(seq![(spk.len() + 6) as u8] + spk + rest, 0) == Some(
            (spk, spk.len() + 1 as int),
        ),
{
    let s = seq![(spk.len() + 6) as u8] + spk + rest;
    assert(varint_step(0, s[0] as nat) == s[0]);
    assert(s.subrange(1, spk.len() + 1 as int) =~= spk);
}

/// One spent output: code (height times two plus the coinbase bit), a
/// legacy version byte when the height is not zero, the compressed amount
/// and the compressed script.
pub open spec fn undo_coin_at(s: Seq<u8>, pos: int) -> Result<(UndoCoinModel, int), ParseError> {
    match varint_at(s, pos) {
        None => Err(ParseError::UnexpectedEof),
        Some((code, p1)) => {
            let height = (code / 2) as u32;
            if height > 0 && p1 + 1 > s.len() {
                Err(ParseError::UnexpectedEof)
            } else {
                let p2 = if height > 0 {
                    p1 + 1
                } else {
                    p1
                };
                match varint_at(s, p2) {
                    None => Err(ParseError::UnexpectedEof),
                    Some((cx, p3)) => if decompress(cx) > u64::MAX {
                        Err(ParseError::AmountOverflow)
                    } else {
                        match compressed_script_at(s, p3) {
                            None => Err(ParseError::UnexpectedEof),
                            Some((script, p4)) => Ok(
                                (
                                    UndoCoinModel {
                                        height,
                                        coinbase: code % 2 == 1,
                                        amount: decompress(cx) as u64,
                                        script_pubkey: script,
                                    },
                                    p4,
                                ),
                            ),
                        }
                    },
                }
            }
        },
    }
}

pub open spec fn undo_coin_reader() -> spec_fn(Seq<u8>, int) -> Result<(UndoCoinModel, int), ParseError> {
    |s: Seq<u8>, p: int| undo_coin_at(s, p)
}

/// The spent outputs of one transaction: a CompactSize count and the coins.
pub open spec fn tx_undo_at(s: Seq<u8>, pos: int) -> Result<(Seq<UndoCoinModel>, int), ParseError> {
    match compact_size_at(s, pos) {
        None => Err(ParseError::UnexpectedEof),
        Some((n, p)) => repeat_res(undo_coin_reader(), s, p, n as nat),
    }
}

pub open spec fn tx_undo_reader() -> spec_fn(Seq<u8>, int) -> Result<(Seq<UndoCoinModel>, int), ParseError> {
    |s: Seq<u8>, p: int| tx_undo_at(s, p)
}

/// The undo data of one block (its record body): a CompactSize count of
/// transactions (all but the coinbase) and their spent outputs.
pub open spec fn block_undo_at(u: Seq<u8>) -> Result<Seq<Seq<UndoCoinModel>>, ParseError> {
    match compact_size_at(u, 0) {
        None => Err(ParseError::UnexpectedEof),
        Some((n, p)) => match repeat_res(tx_undo_reader(), u, p, n as nat) {
            Err(e) => Err(e),
            Ok((txs, _)) => Ok(txs),
        },
    }
}

/// Up to `k` undo records of a `rev*.dat` file from `pos`. A record is the
/// magic, a little-endian size, that many bytes of undo data and a 32-byte
/// checksum. Reading stops, without error, after `k` records or at fewer
/// than 8 bytes left; a wrong magic is an error, and so is a record body
/// that runs past the end.
pub open spec fn rev_from(d: Seq<u8>, pos: int, k: nat) -> Result<Seq<Seq<Seq<UndoCoinModel>>>, ParseError>
    decreases k,
{
    if k == 0 || pos < 0 || pos + 8 > d.len() {
        Ok(Seq::empty())
    } else if le4(d, pos) != BLOCK_MAGIC {
        Err(ParseError::BadRevMagic)
    } else {
        let size = le4(d, pos + 4) as int;
        let start = pos + 8;
        if start + size > d.len() {
            Err(ParseError::TruncatedUndoRecord)
        } else {
            match block_undo_at(d.subrange(start, start + size)) {
                Err(e) => Err(e),
                Ok(b) => match rev_from(d, start + size + 32, (k - 1) as nat) {
                    Err(e) => Err(e),
                    Ok(rest) => Ok(seq![b] + rest),
                },
            }
        }
    }
}

// ---------------------------------------------------------------------------
// Readers.
// ---------------------------------------------------------------------------
proof fn lemma_varint_step(acc: u64, d: u64)
    requires
        d <= 128,
    ensures
        vstd::wrapping::u64_specs::wrapping_add(
            vstd::wrapping::u64_specs::wrapping_mul(acc, 128),
            d,
        ) == varint_step(acc, d as nat),
{
    let m: int = 0x1_0000_0000_0000_0000;
    let x: int = (acc as nat * 128nat) as int;
    assert((x % m + d as int) % m == (x + d as int) % m) by {
        vstd::arithmetic::div_mod::lemma_add_mod_noop(x, d as int, m);
        vstd::arithmetic::div_mod::lemma_small_mod(d as nat, m as nat);
    }
    assert(0 <= x % m < m) by {
        vstd::arithmetic::div_mod::lemma_mod_bound(x, m);
    }
    if x % m + d as int >= m {
        assert((x % m + d as int) % m == x % m + d as int - m) by {
            vstd::arithmetic::div_mod::lemma_fundamental_div_mod(x % m + d as int, m);
            vstd::arithmetic::div_mod::lemma_div_pos_is_pos(x % m + d as int, m);
        }
    } else {
        vstd::arithmetic::div_mod::lemma_small_mod((x % m + d as int) as nat, m as nat);
    }
}

/// Reads one of Bitcoin Core's variable-length integers.
pub fn read_bitcoin_varint(c: &mut Cursor) -> (r: Result<u64, ParseError>)
    requires
        old(c).wf(),
    ensures
        final(c).data@ == old(c).data@,
        final(c).wf(),
        match varint_at(old(c).data@, old(c).pos as int) {
            Some((v, p)) => r == Ok::<u64, ParseError>(v) && final(c).pos == p,
            None => r == Err::<u64, ParseError>(ParseError::UnexpectedEof),
        },
{
    let ghost s = c.data@;
    let ghost p0 = c.pos as int;
    let mut n: u64 = 0;
    loop
        invariant
            c.data@ == s,
            s == old(c).data@,
            p0 == old(c).pos,
            c.wf(),
            varint_from(s, c.pos as int, n) == varint_at(s, p0),
        decreases s.len() - c.pos,
    {
        if c.pos >= c.data.len() {
            return Err(ParseError::UnexpectedEof);
        }
        let ch = c.data[c.pos];
        c.pos = c.pos + 1;
        if ch < 128 {
            proof {
                lemma_varint_step(n, ch as u64);
            }
            n = n.wrapping_mul(128).wrapping_add(ch as u64);
            return Ok(n);
        } else {
            proof {
                lemma_varint_step(n, ((ch - 128) + 1) as u64);
            }
            n = n.wrapping_mul(128).wrapping_add((ch - 128) as u64 + 1);
        }
    }
}

fn pow10_exec(e: u64) -> (p: u64)
    requires
        e <= 9,
    ensures
        p == pow10(e as nat),
{
    reveal_with_fuel(pow10, 10);
    match e {
        0 => 1,
        1 => 10,
        2 => 100,
        3 => 1000,
        4 => 10000,
        5 => 100000,
        6 => 1000000,
        7 => 10000000,
        8 => 100000000,
        _ => 1000000000,
    }
}

/// Bitcoin Core's amount decompression; `None` when the amount does not fit
/// in 64 bits.
fn checked_decompress(x: u64) -> (r: Option<u64>)
    ensures
        r == (if decompress(x) <= u64::MAX {
            Some(decompress(x) as u64)
        } else {
            None::<u64>
        }),
{
    if x == 0 {
        return Some(0);
    }
    let y = x - 1;
    let e = y % 10;
    let z = y / 10;
    let p = pow10_exec(e);
    let n: u64 = if e < 9 {
        let d = (z % 9) + 1;
        let w = z / 9;
        assert(w * 10 + d <= u64::MAX) by (nonlinear_arith)
            requires
                w == z / 9,
                d <= 9,
                z <= u64::MAX / 10,
        ;
        w * 10 + d
    } else {
        z + 1
    };
    n.checked_mul(p)
}

/// Expands a compressed amount, which must decompress to at most
/// `u64::MAX`.
pub fn decompress_amount(x: u64) -> (r: u64)
    requires
        decompress(x) <= u64::MAX,
    ensures
        r == decompress(x),
{
    match checked_decompress(x) {
        Some(v) => v,
        None => 0,
    }
}

/// Reads a compressed scriptPubKey and expands it.
pub fn read_compressed_script(c: &mut Cursor) -> (r: Result<Vec<u8>, ParseError>)
    requires
        old(c).wf(),
    ensures
        final(c).data@ == old(c).data@,
        final(c).wf(),
        match compressed_script_at(old(c).data@, old(c).pos as int) {
            Some((v, p)) => r is Ok && r->Ok_0@ == v && final(c).pos == p,
            None => r == Err::<Vec<u8>, ParseError>(ParseError::UnexpectedEof),
        },
{
    let n_size = read_bitcoin_varint(c)?;
    if n_size == 0 {
        let hash = read_bytes(c, 20)?;
        let mut script: Vec<u8> = Vec::new();
        script.push(0x76);
        script.push(0xa9);
        script.push(0x14);
        crate::parser::wire::append_bytes(&mut script, hash.as_slice());
        script.push(0x88);
        script.push(0xac);
        assert(script@ =~= seq![0x76u8, 0xa9u8, 0x14u8] + hash@ + seq![0x88u8, 0xacu8]);
        Ok(script)
    } else if n_size == 1 {
        let hash = read_bytes(c, 20)?;
        let mut script: Vec<u8> = Vec::new();
        script.push(0xa9);
        script.push(0x14);
        crate::parser::wire::append_bytes(&mut script, hash.as_slice());
        script.push(0x87);
        assert(script@ =~= seq![0xa9u8, 0x14u8] + hash@ + seq![0x87u8]);
        Ok(script)
    } else if n_size == 2 || n_size == 3 || n_size == 4 || n_size == 5 {
        let key = read_bytes(c, 32)?;
        let prefix: u8 = if n_size == 4 {
            0x02
        } else if n_size == 5 {
            0x03
        } else {
            n_size as u8
        };
        let mut script: Vec<u8> = Vec::new();
        script.push(0x21);
        script.push(prefix);
        crate::parser::wire::append_bytes(&mut script, key.as_slice());
        script.push(0xac);
        assert(script@ =~= seq![0x21u8, prefix] + key@ + seq![0xacu8]);
        Ok(script)
    } else {
        let script_len = n_size - 6;
        if script_len > (c.data.len() - c.pos) as u64 {
            return Err(ParseError::UnexpectedEof);
        }
        read_bytes(c, script_len as usize)
    }
}

fn read_undo_coin(c: &mut Cursor) -> (r: Result<UndoCoin, ParseError>)
    requires
        old(c).wf(),
    ensures
        final(c).data@ == old(c).data@,
        final(c).wf(),
        match undo_coin_at(old(c).data@, old(c).pos as int) {
            Ok((m, p)) => r is Ok && r->Ok_0@ == m && final(c).pos == p,
            Err(e) => r == Err::<UndoCoin, ParseError>(e),
        },
{
    let n_code = read_bitcoin_varint(c)?;
    let height = (n_code / 2) as u32;
    let coinbase = n_code % 2 == 1;
    if height > 0 {
        if c.pos >= c.data.len() {
            return Err(ParseError::UnexpectedEof);
        }
        c.pos = c.pos + 1;
    }
    let compressed = read_bitcoin_varint(c)?;
    let amount = match checked_decompress(compressed) {
        Some(a) => a,
        None => {
            return Err(ParseError::AmountOverflow);
        },
    };
    let script_pubkey = read_compressed_script(c)?;
    Ok(UndoCoin { height, coinbase, amount, script_pubkey })
}

fn read_tx_undo(c: &mut Cursor) -> (r: Result<TxUndo, ParseError>)
    requires
        old(c).wf(),
    ensures
        final(c).data@ == old(c).data@,
        final(c).wf(),
        match tx_undo_at(old(c).data@, old(c).pos as int) {
            Ok((m, p)) => r is Ok && r->Ok_0@ == m && final(c).pos == p,
            Err(e) => r == Err::<TxUndo, ParseError>(e),
        },
{
    let ghost s = c.data@;
    let inp_count = read_compact_size(c)?;
    let start = c.pos;
    let mut prevouts: Vec<UndoCoin> = Vec::new();
    assert(prevouts@.map_values(|c: UndoCoin| c@) =~= Seq::<UndoCoinModel>::empty());
    let mut k: u64 = 0;
    while k < inp_count
        invariant
            c.data@ == s,
            s == old(c).data@,
            compact_size_at(s, old(c).pos as int) == Some((inp_count, start as int)),
            c.wf(),
            k <= inp_count,
            repeat_res(undo_coin_reader(), s, start as int, k as nat) == Ok::<
                (Seq<UndoCoinModel>, int),
                ParseError,
            >((prevouts@.map_values(|c: UndoCoin| c@), c.pos as int)),
        decreases inp_count - k,
    {
        let ghost before = prevouts@;
        let coin = match read_undo_coin(c) {
            Ok(x) => x,
            Err(e) => {
                proof {
                    lemma_repeat_res_fails_on(
                        undo_coin_reader(),
                        s,
                        start as int,
                        (k + 1) as nat,
                        inp_count as nat,
                    );
                }
                return Err(e);
            },
        };
        prevouts.push(coin);
        assert(prevouts@.map_values(|c: UndoCoin| c@) =~= before.map_values(|c: UndoCoin| c@).push(
            coin@,
        ));
        k = k + 1;
    }
    Ok(TxUndo { prevouts })
}

fn read_block_undo(u: &[u8]) -> (r: Result<BlockUndo, ParseError>)
    ensures
        match block_undo_at(u@) {
            Ok(m) => r is Ok && r->Ok_0@ == m,
            Err(e) => r == Err::<BlockUndo, ParseError>(e),
        },
{
    let ghost s = u@;
    let mut c = Cursor::new(u);
    let tx_count = read_compact_size(&mut c)?;
    let start = c.pos;
    let mut tx_undos: Vec<TxUndo> = Vec::new();
    assert(tx_undos@.map_values(|t: TxUndo| t@) =~= Seq::<Seq<UndoCoinModel>>::empty());
    let mut k: u64 = 0;
    while k < tx_count
        invariant
            c.data@ == s,
            s == u@,
            compact_size_at(s, 0) == Some((tx_count, start as int)),
            c.wf(),
            k <= tx_count,
            repeat_res(tx_undo_reader(), s, start as int, k as nat) == Ok::<
                (Seq<Seq<UndoCoinModel>>, int),
                ParseError,
            >((tx_undos@.map_values(|t: TxUndo| t@), c.pos as int)),
        decreases tx_count - k,
    {
        let ghost before = tx_undos@;
        let t = match read_tx_undo(&mut c) {
            Ok(x) => x,
            Err(e) => {
                proof {
                    lemma_repeat_res_fails_on(
                        tx_undo_reader(),
                        s,
                        start as int,
                        (k + 1) as nat,
                        tx_count as nat,
                    );
                }
                return Err(e);
            },
        };
        tx_undos.push(t);
        assert(tx_undos@.map_values(|t: TxUndo| t@) =~= before.map_values(|t: TxUndo| t@).push(
            t@,
        ));
        k = k + 1;
    }
    Ok(BlockUndo { tx_undos })
}

/// Decodes the undo records of a decoded `rev*.dat` file, at most
/// `num_blocks` of them, in order.
pub fn parse_rev_file(data: &[u8], num_blocks: usize) -> (r: Result<Vec<BlockUndo>, ParseError>)
    requires
        data@.len() + 40 <= usize::MAX,
    ensures
        match rev_from(data@, 0, num_blocks as nat) {
            Ok(ms) => r is Ok && r->Ok_0@.map_values(|b: BlockUndo| b@) == ms,
            Err(e) => r == Err::<Vec<BlockUndo>, ParseError>(e),
        },
{
    let ghost d = data@;
    let mut undos: Vec<BlockUndo> = Vec::new();
    let mut pos: usize = 0;
    let mut i: usize = 0;
    let mut c = Cursor::new(data);
    while i < num_blocks
        invariant
            d == data@,
            c.data@ == d,
            c.wf(),
            d.len() + 40 <= usize::MAX,
            pos <= d.len() + 32,
            i <= num_blocks,
            match rev_from(d, pos as int, (num_blocks - i) as nat) {
                Ok(rest) => rev_from(d, 0, num_blocks as nat) == Ok::<
                    Seq<Seq<Seq<UndoCoinModel>>>,
                    ParseError,
                >(undos@.map_values(|b: BlockUndo| b@) + rest),
                Err(e) => rev_from(d, 0, num_blocks as nat) == Err::<
                    Seq<Seq<Seq<UndoCoinModel>>>,
                    ParseError,
                >(e),
            },
        ensures
            rev_from(d, pos as int, (num_blocks - i) as nat) == Ok::<
                Seq<Seq<Seq<UndoCoinModel>>>,
                ParseError,
            >(Seq::empty()),
            match rev_from(d, pos as int, (num_blocks - i) as nat) {
                Ok(rest) => rev_from(d, 0, num_blocks as nat) == Ok::<
                    Seq<Seq<Seq<UndoCoinModel>>>,
                    ParseError,
                >(undos@.map_values(|b: BlockUndo| b@) + rest),
                Err(e) => rev_from(d, 0, num_blocks as nat) == Err::<
                    Seq<Seq<Seq<UndoCoinModel>>>,
                    ParseError,
                >(e),
            },
        decreases num_blocks - i,
    {
        if pos + 8 > data.len() {
            break;
        }
        c.pos = pos;
        let magic = match read_u32_le(&mut c) {
            Ok(v) => v,
            Err(e) => {
                return Err(e);
            },
        };
        if magic != BLOCK_MAGIC {
            return Err(ParseError::BadRevMagic);
        }
        let block_size = match read_u32_le(&mut c) {
            Ok(v) => v as usize,
            Err(e) => {
                return Err(e);
            },
        };
        let start = pos + 8;
        if block_size > data.len() - start {
            return Err(ParseError::TruncatedUndoRecord);
        }
        let undo_data = vstd::slice::slice_subrange(data, start, start + block_size);
        let b = match read_block_undo(undo_data) {
            Ok(b) => b,
            Err(e) => {
                return Err(e);
            },
        };
        let ghost before = undos@.map_values(|b: BlockUndo| b@);
        proof {
            let next = rev_from(d, (start + block_size + 32) as int, (num_blocks - i - 1) as nat);
            if next is Ok {
                assert(before + (seq![b@] + next->Ok_0) =~= before.push(b@) + next->Ok_0);
            }
        }
        undos.push(b);
        assert(undos@.map_values(|b: BlockUndo| b@) =~= before.push(b@));
        pos = start + block_size + 32;
        i = i + 1;
    }
    proof {
        assert(undos@.map_values(|b: BlockUndo| b@) + Seq::empty() =~= undos@.map_values(
            |b: BlockUndo| b@,
        ));
    }
    Ok(undos)
}

} // verus!
