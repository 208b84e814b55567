use vstd::prelude::*;

use crate::hash::{double_sha256, sha256d};
use crate::parser::tx::{decoded_as, parse_raw_tx_bytes, tx_at, RawTx, TxModel};
use crate::parser::varint::{
    bytes_at, compact_size_at, i32_at, le4, read_compact_size, read_i32_le, read_u32_le, u32_at,
    Cursor, ParseError,
};

verus! {

/// The network magic that starts every block record of a `blk*.dat` file.
pub const BLOCK_MAGIC: u32 = 0xD9B4BEF9;

#[derive(Debug, Clone)]
pub struct BlockHeader {
    pub version: i32,
    pub prev_block_hash: [u8; 32],
    pub merkle_root: [u8; 32],
    pub timestamp: u32,
    pub bits: u32,
    pub nonce: u32,
    pub block_hash: [u8; 32],
}

#[derive(Debug)]
pub struct ParsedBlock {
    pub header: BlockHeader,
    pub transactions: Vec<RawTx>,
}

/// Where a transaction sits in its block's bytes, and what it decodes to.
pub struct TxSlot {
    pub tx: TxModel,
    pub start: int,
    pub size: int,
}

/// A block record's bytes and what they decode to.
pub struct BlockModel {
    pub bytes: Seq<u8>,
    pub version: i32,
    pub prev_block_hash: Seq<u8>,
    pub merkle_root: Seq<u8>,
    pub timestamp: u32,
    pub bits: u32,
    pub nonce: u32,
    pub txs: Seq<TxSlot>,
}

/// `k` transactions one after the other from `pos`.
pub open spec fn txs_at(d: Seq<u8>, pos: int, k: nat) -> Result<(Seq<TxSlot>, int), ParseError>
    decreases k,
{
    if k == 0 {
        Ok((Seq::empty(), pos))
    } else {
        match txs_at(d, pos, (k - 1) as nat) {
            Err(e) => Err(e),
            Ok((slots, p)) => match tx_at(d.subrange(p, d.len() as int)) {
                Err(e) => Err(e),
                Ok((t, size)) => Ok((slots.push(TxSlot { tx: t, start: p, size }), p + size)),
            },
        }
    }
}

/// A block: the 80-byte header, a CompactSize transaction count, and the
/// transactions.
pub open spec fn block_at(d: Seq<u8>) -> Result<BlockModel, ParseError> {
    if d.len() < 80 {
        Err(ParseError::ShortBlockRecord)
    } else {
        match compact_size_at(d, 80) {
            None => Err(ParseError::UnexpectedEof),
            Some((n, p)) => match txs_at(d, p, n as nat) {
                Err(e) => Err(e),
                Ok((slots, _end)) => Ok(
                    BlockModel {
                        bytes: d,
                        version: i32_at(d, 0)->Some_0.0,
                        prev_block_hash: d.subrange(4, 36),
                        merkle_root: d.subrange(36, 68),
                        timestamp: u32_at(d, 68)->Some_0.0,
                        bits: u32_at(d, 72)->Some_0.0,
                        nonce: u32_at(d, 76)->Some_0.0,
                        txs: slots,
                    },
                ),
            },
        }
    }
}

/// `b` is what `parse_single_block` gives for the block `m`.
pub open spec fn block_decoded_as(b: ParsedBlock, m: BlockModel) -> bool {
    &&& b.header.version == m.version
    &&& b.header.prev_block_hash@ == m.prev_block_hash
    &&& b.header.merkle_root@ == m.merkle_root
    &&& b.header.timestamp == m.timestamp
    &&& b.header.bits == m.bits
    &&& b.header.nonce == m.nonce
    &&& b.header.block_hash@ == double_sha256(m.bytes.subrange(0, 80))
    &&& b.transactions@.len() == m.txs.len()
    &&& forall|k: int|
        0 <= k < m.txs.len() ==> decoded_as(
            #[trigger] b.transactions@[k],
            m.bytes.subrange(m.txs[k].start, m.bytes.len() as int),
            m.txs[k].tx,
            m.txs[k].size,
        )
}

/// The block records of a `blk*.dat` file from `pos`: each is the magic, a
/// little-endian size and that many bytes. Reading stops, without error, at
/// fewer than 8 bytes left, at a wrong magic, or at a record that runs past
/// the end.
pub open spec fn blocks_from(d: Seq<u8>, pos: int) -> Result<Seq<BlockModel>, ParseError>
    decreases d.len() - pos,
{
    if pos < 0 || pos + 8 > d.len() {
        Ok(Seq::empty())
    } else if le4(d, pos) != BLOCK_MAGIC {
        Ok(Seq::empty())
    } else {
        let size = le4(d, pos + 4) as int;
        let start = pos + 8;
        if start + size > d.len() {
            Ok(Seq::empty())
        } else {
            match block_at(d.subrange(start, start + size)) {
                Err(e) => Err(e),
                Ok(b) => match blocks_from(d, start + size) {
                    Err(e) => Err(e),
                    Ok(rest) => Ok(seq![b] + rest),
                },
            }
        }
    }
}

fn read_hash(c: &mut Cursor) -> (r: [u8; 32])
    requires
        old(c).wf(),
        old(c).pos + 32 <= old(c).data@.len(),
    ensures
        final(c).data@ == old(c).data@,
        final(c).wf(),
        final(c).pos == old(c).pos + 32,
        r@ == old(c).data@.subrange(old(c).pos as int, old(c).pos + 32),
{
    let p = c.pos;
    let mut out = [0u8; 32];
    let mut i: usize = 0;
    while i < 32
        invariant
            p + 32 <= c.data@.len(),
            c.wf(),
            i <= 32,
            out@.len() == 32,
            forall|j: int| 0 <= j < i ==> out@[j] == c.data@[p + j],
        decreases 32 - i,
    {
        out[i] = c.data[p + i];
        i = i + 1;
    }
    c.pos = p + 32;
    assert(out@ =~= c.data@.subrange(p as int, p + 32));
    out
}

/// Decodes one block record: its header (hashed to the block hash) and its
/// transactions.
pub fn parse_single_block(data: &[u8]) -> (r: Result<ParsedBlock, ParseError>)
    requires
        data@.len() >= 80,
        data@.len() * 4 <= usize::MAX,
    ensures
        match block_at(data@) {
            Ok(m) => r is Ok && block_decoded_as(r->Ok_0, m),
            Err(e) => r == Err::<ParsedBlock, ParseError>(e),
        },
{
    let ghost d = data@;
    let header_bytes = vstd::slice::slice_subrange(data, 0, 80);
    let block_hash = sha256d(header_bytes);
    let mut c = Cursor::new(data);
    let version = match read_i32_le(&mut c) {
        Ok(v) => v,
        Err(e) => {
            return Err(e);
        },
    };
    let prev_block_hash = read_hash(&mut c);
    let merkle_root = read_hash(&mut c);
    let timestamp = match read_u32_le(&mut c) {
        Ok(v) => v,
        Err(e) => {
            return Err(e);
        },
    };
    let bits = match read_u32_le(&mut c) {
        Ok(v) => v,
        Err(e) => {
            return Err(e);
        },
    };
    let nonce = match read_u32_le(&mut c) {
        Ok(v) => v,
        Err(e) => {
            return Err(e);
        },
    };
    let header = BlockHeader {
        version,
        prev_block_hash,
        merkle_root,
        timestamp,
        bits,
        nonce,
        block_hash,
    };
    let tx_count = read_compact_size(&mut c)?;
    let p0 = c.pos;
    let mut transactions: Vec<RawTx> = Vec::new();
    let ghost mut slots: Seq<TxSlot> = Seq::empty();
    let mut k: u64 = 0;
    while k < tx_count
        invariant
            c.data@ == d,
            d == data@,
            c.wf(),
            d.len() * 4 <= usize::MAX,
            k <= tx_count,
            compact_size_at(d, 80) == Some((tx_count, p0 as int)),
            txs_at(d, p0 as int, k as nat) == Ok::<(Seq<TxSlot>, int), ParseError>(
                (slots, c.pos as int),
            ),
            transactions@.len() == slots.len(),
            forall|j: int|
                0 <= j < slots.len() ==> decoded_as(
                    #[trigger] transactions@[j],
                    d.subrange(slots[j].start, d.len() as int),
                    slots[j].tx,
                    slots[j].size,
                ),
        decreases tx_count - k,
    {
        let start = c.pos;
        let remaining = vstd::slice::slice_subrange(data, start, data.len());
        let raw_tx = match parse_raw_tx_bytes(remaining) {
            Ok(t) => t,
            Err(e) => {
                proof {
                    lemma_txs_fail_on(d, p0 as int, (k + 1) as nat, tx_count as nat);
                }
                return Err(e);
            },
        };
        let ghost (t, size) = tx_at(remaining@)->Ok_0;
        let ghost old_tx = transactions@;
        proof {
            slots = slots.push(TxSlot { tx: t, start: start as int, size });
        }
        c.pos = start + raw_tx.size;
        transactions.push(raw_tx);
        assert forall|j: int| 0 <= j < slots.len() implies decoded_as(
            #[trigger] transactions@[j],
            d.subrange(slots[j].start, d.len() as int),
            slots[j].tx,
            slots[j].size,
        ) by {
            if j < slots.len() - 1 {
                assert(transactions@[j] == old_tx[j]);
            }
        }
        k = k + 1;
    }
    Ok(ParsedBlock { header, transactions })
}

proof fn lemma_txs_fail_on(d: Seq<u8>, pos: int, k: nat, m: nat)
    requires
        txs_at(d, pos, k) is Err,
        k <= m,
    ensures
        txs_at(d, pos, m) == txs_at(d, pos, k),
    decreases m,
{
    if m > k {
        lemma_txs_fail_on(d, pos, k, (m - 1) as nat);
    }
}

/// Decodes every block record of a decoded `blk*.dat` file, in order.
#[verifier::spinoff_prover]
#[verifier::rlimit(30)]
pub fn parse_blk_file(data: &[u8]) -> (r: Result<Vec<ParsedBlock>, ParseError>)
    requires
        data@.len() * 4 <= usize::MAX,
    ensures
        match blocks_from(data@, 0) {
            Ok(ms) => r is Ok && r->Ok_0@.len() == ms.len() && forall|k: int|
                0 <= k < ms.len() ==> block_decoded_as(#[trigger] r->Ok_0@[k], ms[k]),
            Err(e) => r == Err::<Vec<ParsedBlock>, ParseError>(e),
        },
{
    let ghost d = data@;
    let mut blocks: Vec<ParsedBlock> = Vec::new();
    let ghost mut done: Seq<BlockModel> = Seq::empty();
    let mut pos: usize = 0;
    let mut c = Cursor::new(data);
    loop
        invariant
            d == data@,
            c.data@ == d,
            c.wf(),
            d.len() * 4 <= usize::MAX,
            pos <= d.len(),
            match blocks_from(d, pos as int) {
                Ok(rest) => blocks_from(d, 0) == Ok::<Seq<BlockModel>, ParseError>(done + rest),
                Err(e) => blocks_from(d, 0) == Err::<Seq<BlockModel>, ParseError>(e),
            },
            blocks@.len() == done.len(),
            forall|k: int| 0 <= k < done.len() ==> block_decoded_as(#[trigger] blocks@[k], done[k]),
        ensures
            blocks_from(d, pos as int) == Ok::<Seq<BlockModel>, ParseError>(Seq::empty()),
            match blocks_from(d, pos as int) {
                Ok(rest) => blocks_from(d, 0) == Ok::<Seq<BlockModel>, ParseError>(done + rest),
                Err(e) => blocks_from(d, 0) == Err::<Seq<BlockModel>, ParseError>(e),
            },
            blocks@.len() == done.len(),
            forall|k: int| 0 <= k < done.len() ==> block_decoded_as(#[trigger] blocks@[k], done[k]),
        decreases d.len() - pos,
    {
        if data.len() - pos < 8 {
            break;
        }
        c.pos = pos;
        let magic = match read_u32_le(&mut c) {
            Ok(v) => v,
            Err(_) => {
                break;
            },
        };
        if magic != BLOCK_MAGIC {
            break;
        }
        let block_size = match read_u32_le(&mut c) {
            Ok(v) => v as usize,
            Err(_) => {
                break;
            },
        };
        let block_start = pos + 8;
        if block_size > data.len() - block_start {
            break;
        }
        if block_size < 80 {
            return Err(ParseError::ShortBlockRecord);
        }
        let block_data = vstd::slice::slice_subrange(data, block_start, block_start + block_size);
        let block = match parse_single_block(block_data) {
            Ok(b) => b,
            Err(e) => {
                return Err(e);
            },
        };
        let ghost m = block_at(block_data@)->Ok_0;
        let ghost old_blocks = blocks@;
        proof {
            assert(seq![m] + blocks_from(d, (block_start + block_size) as int)->Ok_0
                =~= seq![m] + blocks_from(d, (block_start + block_size) as int)->Ok_0);
            if blocks_from(d, (block_start + block_size) as int) is Ok {
                let rest = blocks_from(d, (block_start + block_size) as int)->Ok_0;
                assert(done + (seq![m] + rest) =~= done.push(m) + rest);
            }
            done = done.push(m);
        }
        blocks.push(block);
        assert forall|k: int| 0 <= k < done.len() implies block_decoded_as(
            #[trigger] blocks@[k],
            done[k],
        ) by {
            if k < done.len() - 1 {
                assert(blocks@[k] == old_blocks[k]);
            }
        }
        pos = block_start + block_size;
    }
    assert(done + Seq::<BlockModel>::empty() =~= done);
    Ok(blocks)
}

#[verifier::spinoff_prover]
proof fn lemma_txs_contiguous(d: Seq<u8>, pos: int, k: nat)
    requires
        txs_at(d, pos, k) is Ok,
    ensures
        ({
            let (slots, end) = txs_at(d, pos, k)->Ok_0;
            &&& slots.len() == k
            &&& k == 0 ==> end == pos
            &&& k > 0 ==> slots[0].start == pos && end == slots[k - 1].start + slots[k - 1].size
            &&& forall|j: int|
                0 <= j < k - 1 ==> #[trigger] slots[j + 1].start == slots[j].start + slots[j].size
            &&& forall|j: int|
                0 <= j < k ==> tx_at(d.subrange(#[trigger] slots[j].start, d.len() as int)) == Ok::<
                    (TxModel, int),
                    ParseError,
                >((slots[j].tx, slots[j].size))
        }),
    decreases k,
{
    if k > 0 {
        lemma_txs_contiguous(d, pos, (k - 1) as nat);
        let (prev, p) = txs_at(d, pos, (k - 1) as nat)->Ok_0;
        let (slots, end) = txs_at(d, pos, k)->Ok_0;
        assert forall|j: int| 0 <= j < k - 1 implies #[trigger] slots[j + 1].start == slots[j].start
            + slots[j].size by {
            if j + 1 < k - 1 {
                assert(slots[j + 1] == prev[j + 1]);
            }
            assert(slots[j] == prev[j]);
        }
        assert forall|j: int| 0 <= j < k implies tx_at(
            d.subrange(#[trigger] slots[j].start, d.len() as int),
        ) == Ok::<(TxModel, int), ParseError>((slots[j].tx, slots[j].size)) by {
            if j < k - 1 {
                assert(slots[j] == prev[j]);
            }
        }
    }
}

/// The transactions of a block lie one right after the other: the first
/// starts right after the header and the transaction count, each next one
/// starts where the full bytes of the previous one end (marker, flag and
/// witness data included), and each is what its own bytes decode to, with
/// its full length as its size.
pub proof fn law_block_transactions_are_contiguous(d: Seq<u8>)
    requires
        block_at(d) is Ok,
    ensures
        ({
            let m = block_at(d)->Ok_0;
            let (n, p) = compact_size_at(d, 80)->Some_0;
            &&& m.txs.len() == n
            &&& m.txs.len() > 0 ==> m.txs[0].start == p
            &&& forall|j: int|
                0 <= j < m.txs.len() - 1 ==> #[trigger] m.txs[j + 1].start == m.txs[j].start
                    + m.txs[j].size
            &&& forall|j: int|
                0 <= j < m.txs.len() ==> tx_at(d.subrange(#[trigger] m.txs[j].start, d.len() as int))
                    == Ok::<(TxModel, int), ParseError>((m.txs[j].tx, m.txs[j].size))
        }),
{
    let (n, p) = compact_size_at(d, 80)->Some_0;
    lemma_txs_contiguous(d, p, n as nat);
}

} // verus!
