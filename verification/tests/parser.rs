use sherlock::hash::{sha256d, to_display_hex, to_hex};
use sherlock::parser::block::{parse_blk_file, parse_single_block, BLOCK_MAGIC};
use sherlock::parser::script::{disassemble, opcode_name};
use sherlock::parser::tx::parse_raw_tx_bytes;
use sherlock::parser::undo::{decompress_amount, parse_rev_file, read_bitcoin_varint, read_compressed_script};
use sherlock::parser::varint::{
    encode_compact_size, read_bytes, read_compact_size, read_i32_le, read_i64_le, read_u32_le,
    Cursor, ParseError,
};
use sherlock::parser::xor::xor_decode;

const GENESIS_HEADER: &str = "0100000000000000000000000000000000000000000000000000000000000000000000003ba3edfd7a7b12b27ac72c3e67768f617fc81bc3888a51323a9fb8aa4b1e5e4a29ab5f49ffff001d1dac2b7c";
const GENESIS_TX: &str = "01000000010000000000000000000000000000000000000000000000000000000000000000ffffffff4d04ffff001d0104455468652054696d65732030332f4a616e2f32303039204368616e63656c6c6f72206f6e206272696e6b206f66207365636f6e64206261696c6f757420666f722062616e6b73ffffffff0100f2052a01000000434104678afdb0fe5548271967f1a67130b7105cd6a828e03909a67962e0ea1f61deb649f6bc3f4cef38c4f35504e51ec112de5c384df7ba0b8d578a4c702b6bf11d5fac00000000";

fn bytes(h: &str) -> Vec<u8> {
    hex::decode(h).expect("test hex")
}

fn genesis_block_bytes() -> Vec<u8> {
    let mut b = bytes(GENESIS_HEADER);
    b.push(1);
    b.extend_from_slice(&bytes(GENESIS_TX));
    b
}

fn framed(block: &[u8]) -> Vec<u8> {
    let mut f = BLOCK_MAGIC.to_le_bytes().to_vec();
    f.extend_from_slice(&(block.len() as u32).to_le_bytes());
    f.extend_from_slice(block);
    f
}

/// A SegWit transaction: one input with a two-item witness, one P2WPKH output.
fn segwit_tx_bytes() -> Vec<u8> {
    let mut t = Vec::new();
    t.extend_from_slice(&2i32.to_le_bytes());
    t.extend_from_slice(&[0x00, 0x01]);
    t.push(1);
    t.extend_from_slice(&[0x11; 32]);
    t.extend_from_slice(&3u32.to_le_bytes());
    t.push(0);
    t.extend_from_slice(&0xffff_fffdu32.to_le_bytes());
    t.push(1);
    t.extend_from_slice(&50_000i64.to_le_bytes());
    t.push(22);
    t.extend_from_slice(&[0x00, 0x14]);
    t.extend_from_slice(&[0x22; 20]);
    t.push(2);
    t.push(3);
    t.extend_from_slice(&[0xaa, 0xbb, 0xcc]);
    t.push(1);
    t.push(0xdd);
    t.extend_from_slice(&0u32.to_le_bytes());
    t
}

#[test]
fn compact_size_reads_every_width() {
    let data = [0xfc, 0xfd, 0x34, 0x12, 0xfe, 0x78, 0x56, 0x34, 0x12, 0xff, 1, 0, 0, 0, 0, 0, 0, 0x80];
    let mut c = Cursor::new(&data);
    assert_eq!(read_compact_size(&mut c), Ok(0xfc));
    assert_eq!(read_compact_size(&mut c), Ok(0x1234));
    assert_eq!(read_compact_size(&mut c), Ok(0x1234_5678));
    assert_eq!(read_compact_size(&mut c), Ok(0x8000_0000_0000_0001));
    assert_eq!(c.pos, data.len());
    assert_eq!(read_compact_size(&mut c), Err(ParseError::UnexpectedEof));
}

#[test]
fn compact_size_truncated_is_eof() {
    let data = [0xfe, 0x01, 0x02];
    let mut c = Cursor::new(&data);
    assert_eq!(read_compact_size(&mut c), Err(ParseError::UnexpectedEof));
}

#[test]
fn compact_size_encoding_reads_back() {
    for v in [0u64, 1, 0xfc, 0xfd, 0xffff, 0x10000, 0xffff_ffff, 0x1_0000_0000, u64::MAX] {
        let mut buf = Vec::new();
        encode_compact_size(&mut buf, v);
        let expected_len = if v < 0xfd { 1 } else if v <= 0xffff { 3 } else if v <= 0xffff_ffff { 5 } else { 9 };
        assert_eq!(buf.len(), expected_len);
        let mut c = Cursor::new(&buf);
        assert_eq!(read_compact_size(&mut c), Ok(v));
        assert_eq!(c.pos, buf.len());
    }
}

#[test]
fn fixed_width_reads() {
    let data = [0xff, 0xff, 0xff, 0xff, 0x01, 0x00, 0x00, 0x80, 0xfe, 0xff, 0xff, 0xff, 0xff, 0xff, 0xff, 0xff];
    let mut c = Cursor::new(&data);
    assert_eq!(read_i32_le(&mut c), Ok(-1));
    assert_eq!(read_u32_le(&mut c), Ok(0x8000_0001));
    assert_eq!(read_i64_le(&mut c), Ok(-2));
    assert_eq!(read_u32_le(&mut c), Err(ParseError::UnexpectedEof));
    let mut c = Cursor::new(&data);
    assert_eq!(read_bytes(&mut c, 3), Ok(vec![0xff, 0xff, 0xff]));
    assert_eq!(c.pos, 3);
    assert_eq!(read_bytes(&mut c, 14), Err(ParseError::UnexpectedEof));
}

#[test]
fn xor_decode_applies_key_cyclically() {
    let data = [0x00, 0x01, 0x02, 0x03, 0x04];
    let key = [0xff, 0x0f];
    assert_eq!(xor_decode(&data, &key), vec![0xff, 0x0e, 0xfd, 0x0c, 0xfb]);
    assert_eq!(xor_decode(&data, &[]), data.to_vec());
    assert_eq!(xor_decode(&data, &[0, 0, 0]), data.to_vec());
}

#[test]
fn xor_decode_twice_is_identity() {
    let data: Vec<u8> = (0u8..=200).collect();
    let key = [0x5a, 0x13, 0xc7, 0x00, 0x9e, 0x21, 0x44, 0x88];
    assert_eq!(xor_decode(&xor_decode(&data, &key), &key), data);
}

#[test]
fn sha256d_of_genesis_header_is_block_hash() {
    let h = sha256d(&bytes(GENESIS_HEADER));
    assert_eq!(
        to_display_hex(&h),
        "000000000019d6689c085ae165831e934ff763ae46a2a6c172b3f1b60a8ce26f"
    );
}

#[test]
fn hex_helpers() {
    assert_eq!(to_hex(&[0x00, 0xab, 0x10]), "00ab10");
    let mut h = [0u8; 32];
    h[0] = 0x01;
    h[31] = 0xfe;
    let shown = to_display_hex(&h);
    assert!(shown.starts_with("fe"));
    assert!(shown.ends_with("01"));
    assert_eq!(shown.len(), 64);
}

#[test]
fn genesis_coinbase_transaction() {
    let raw = bytes(GENESIS_TX);
    let tx = parse_raw_tx_bytes(&raw).expect("genesis tx");
    assert_eq!(tx.version, 1);
    assert!(!tx.is_segwit);
    assert_eq!(tx.inputs.len(), 1);
    assert_eq!(tx.inputs[0].vout, 0xffff_ffff);
    assert_eq!(tx.inputs[0].script_sig.len(), 77);
    assert_eq!(tx.outputs.len(), 1);
    assert_eq!(tx.outputs[0].value, 5_000_000_000);
    assert_eq!(tx.outputs[0].script_pubkey.len(), 67);
    assert_eq!(tx.locktime, 0);
    assert_eq!(tx.size, raw.len());
    assert_eq!(tx.non_witness_bytes, raw);
    assert_eq!(tx.weight, raw.len() * 4);
    assert_eq!(tx.wtxid, None);
    assert_eq!(
        tx.txid,
        "4a5e1e4baab89f3a32518a88c31bc87f618f76673e2cc77ab2127b7afdeda33b"
    );
    assert_eq!(
        tx.inputs[0].prev_txid_hex(),
        "0000000000000000000000000000000000000000000000000000000000000000"
    );
}

#[test]
fn trailing_bytes_are_not_part_of_the_transaction() {
    let mut raw = bytes(GENESIS_TX);
    let n = raw.len();
    raw.extend_from_slice(&[0xde, 0xad]);
    let tx = parse_raw_tx_bytes(&raw).expect("tx");
    assert_eq!(tx.size, n);
}

#[test]
fn minimal_legacy_transaction_reencodes_to_its_bytes() {
    let raw = bytes(GENESIS_TX);
    let tx = parse_raw_tx_bytes(&raw).expect("tx");
    assert_eq!(tx.non_witness_bytes, raw);
    assert_eq!(tx.weight, 4 * tx.size);
    assert_eq!(tx.wtxid, None);
    assert_eq!(tx.txid_hash, sha256d(&raw));

    // The input count written as 0xFD 0x01 0x00 instead of 0x01.
    let mut longer = raw[..4].to_vec();
    longer.extend_from_slice(&[0xfd, 0x01, 0x00]);
    longer.extend_from_slice(&raw[5..]);
    let tx2 = parse_raw_tx_bytes(&longer).expect("non-minimal count");
    assert_eq!(tx2.size, raw.len() + 2);
    assert_eq!(tx2.non_witness_bytes, raw);
    assert_eq!(tx2.txid, tx.txid);
}

#[test]
fn trailing_bytes_do_not_change_the_decoding() {
    let raw = segwit_tx_bytes();
    let alone = parse_raw_tx_bytes(&raw).expect("tx");
    let mut longer = raw.clone();
    longer.extend_from_slice(&[0x00, 0x01, 0xff, 0x42]);
    let with_tail = parse_raw_tx_bytes(&longer).expect("tx with tail");
    assert_eq!(with_tail.size, alone.size);
    assert_eq!(with_tail.weight, alone.weight);
    assert_eq!(with_tail.txid, alone.txid);
    assert_eq!(with_tail.wtxid, alone.wtxid);
    assert_eq!(with_tail.non_witness_bytes, alone.non_witness_bytes);
    assert_eq!(with_tail.inputs[0].witness, alone.inputs[0].witness);
    let own = parse_raw_tx_bytes(&longer[..with_tail.size]).expect("own bytes");
    assert_eq!(own.txid, alone.txid);
    assert_eq!(own.wtxid, alone.wtxid);
    assert_eq!(own.size, alone.size);
}

#[test]
fn segwit_transaction_sizes_and_ids() {
    let raw = segwit_tx_bytes();
    let tx = parse_raw_tx_bytes(&raw).expect("segwit tx");
    assert!(tx.is_segwit);
    assert_eq!(tx.version, 2);
    assert_eq!(tx.inputs[0].witness, vec![vec![0xaa, 0xbb, 0xcc], vec![0xdd]]);
    assert_eq!(tx.outputs[0].value, 50_000);
    assert_eq!(tx.size, raw.len());
    // legacy form: version, counts, input, output, locktime (no marker, flag, witness)
    let nw_len = 4 + 1 + (32 + 4 + 1 + 4) + 1 + (8 + 1 + 22) + 4;
    assert_eq!(tx.non_witness_bytes.len(), nw_len);
    assert_eq!(tx.weight, nw_len * 4 + (raw.len() - nw_len));
    assert_eq!(tx.txid, to_display_hex(&sha256d(&tx.non_witness_bytes)));
    assert_eq!(tx.wtxid, Some(to_display_hex(&sha256d(&raw))));
    assert_ne!(tx.wtxid.clone().unwrap(), tx.txid);
}

#[test]
fn txid_bytes_decode_without_witness() {
    let raw = segwit_tx_bytes();
    let tx = parse_raw_tx_bytes(&raw).expect("segwit tx");
    let legacy = parse_raw_tx_bytes(&tx.non_witness_bytes).expect("legacy form");
    assert!(!legacy.is_segwit);
    assert_eq!(legacy.size, tx.non_witness_bytes.len());
    assert_eq!(legacy.version, tx.version);
    assert_eq!(legacy.locktime, tx.locktime);
    assert_eq!(legacy.inputs.len(), 1);
    assert!(legacy.inputs[0].witness.is_empty());
    assert_eq!(legacy.inputs[0].prev_txid, tx.inputs[0].prev_txid);
    assert_eq!(legacy.inputs[0].vout, 3);
    assert_eq!(legacy.inputs[0].sequence, 0xffff_fffd);
    assert_eq!(legacy.outputs[0].script_pubkey, tx.outputs[0].script_pubkey);
    assert_eq!(legacy.non_witness_bytes, tx.non_witness_bytes);
    assert_eq!(legacy.txid, tx.txid);
    assert_eq!(legacy.wtxid, None);
}

#[test]
fn bad_segwit_flag_is_rejected() {
    let mut raw = segwit_tx_bytes();
    raw[5] = 0x02;
    assert_eq!(parse_raw_tx_bytes(&raw).err(), Some(ParseError::InvalidSegwitFlag));
    assert_eq!(ParseError::InvalidSegwitFlag.message(), "Invalid Segwit Flag");
}

#[test]
fn truncated_transaction_is_eof() {
    let raw = bytes(GENESIS_TX);
    assert_eq!(parse_raw_tx_bytes(&raw[..raw.len() - 1]).err(), Some(ParseError::UnexpectedEof));
    assert_eq!(parse_raw_tx_bytes(&raw[..3]).err(), Some(ParseError::UnexpectedEof));
    assert_eq!(parse_raw_tx_bytes(&[1, 0, 0, 0]).err(), Some(ParseError::UnexpectedEof));
}

#[test]
fn genesis_block_parses() {
    let block = parse_single_block(&genesis_block_bytes()).expect("block");
    assert_eq!(block.header.version, 1);
    assert_eq!(block.header.timestamp, 1231006505);
    assert_eq!(block.header.bits, 0x1d00ffff);
    assert_eq!(block.header.nonce, 2083236893);
    assert_eq!(block.header.prev_block_hash, [0u8; 32]);
    assert_eq!(
        to_display_hex(&block.header.block_hash),
        "000000000019d6689c085ae165831e934ff763ae46a2a6c172b3f1b60a8ce26f"
    );
    assert_eq!(
        to_display_hex(&block.header.merkle_root),
        "4a5e1e4baab89f3a32518a88c31bc87f618f76673e2cc77ab2127b7afdeda33b"
    );
    assert_eq!(block.transactions.len(), 1);
}

#[test]
fn short_block_record_is_reported() {
    let file = framed(&[0u8; 79]);
    assert_eq!(parse_blk_file(&file).err(), Some(ParseError::ShortBlockRecord));
    assert_eq!(ParseError::ShortBlockRecord.message(), "Block record shorter than its header");
}

#[test]
fn header_without_transaction_count_is_eof() {
    assert_eq!(parse_single_block(&[0u8; 80]).err(), Some(ParseError::UnexpectedEof));
}

#[test]
fn blk_file_stops_at_bad_magic_or_short_record() {
    let block = genesis_block_bytes();
    let mut file = framed(&block);
    file.extend_from_slice(&framed(&block));
    file.extend_from_slice(&[0xf9, 0xbe, 0xb4, 0xd9, 0xff, 0xff, 0x00, 0x00, 0x01]);
    let blocks = parse_blk_file(&file).expect("file");
    assert_eq!(blocks.len(), 2);
    let mut other = framed(&block);
    other.extend_from_slice(&[0u8; 16]);
    other.extend_from_slice(&framed(&block));
    assert_eq!(parse_blk_file(&other).expect("file").len(), 1);
    assert_eq!(parse_blk_file(&[]).expect("empty").len(), 0);
}

#[test]
fn blk_file_propagates_block_errors() {
    let mut block = genesis_block_bytes();
    block.truncate(block.len() - 2);
    let file = framed(&block);
    assert_eq!(parse_blk_file(&file).err(), Some(ParseError::UnexpectedEof));
}

#[test]
fn bitcoin_varint_values() {
    let data = [0x00, 0x7f, 0x80, 0x00, 0x81, 0x00, 0xff, 0x7f];
    let mut c = Cursor::new(&data);
    assert_eq!(read_bitcoin_varint(&mut c), Ok(0));
    assert_eq!(read_bitcoin_varint(&mut c), Ok(127));
    assert_eq!(read_bitcoin_varint(&mut c), Ok(128));
    assert_eq!(read_bitcoin_varint(&mut c), Ok(256));
    assert_eq!(read_bitcoin_varint(&mut c), Ok(16511));
    let mut c = Cursor::new(&[0x80]);
    assert_eq!(read_bitcoin_varint(&mut c), Err(ParseError::UnexpectedEof));
}

#[test]
fn amount_decompression() {
    assert_eq!(decompress_amount(0), 0);
    assert_eq!(decompress_amount(1), 1);
    assert_eq!(decompress_amount(7), 1_000_000);
    assert_eq!(decompress_amount(9), 100_000_000);
    assert_eq!(decompress_amount(50), 5_000_000_000);
    assert_eq!(decompress_amount(2), 10);
    assert_eq!(decompress_amount(10), 1_000_000_000);
}

#[test]
fn compressed_amounts_decompress_to_their_amount() {
    // Amounts and their compressed forms as Bitcoin Core's CompressAmount gives them.
    assert_eq!(decompress_amount(1_111_111_101), 123_456_789);
    assert_eq!(decompress_amount(21_000_000), 2_100_000_000_000_000);
    assert_eq!(decompress_amount(9), 100_000_000);
    assert_eq!(decompress_amount(7), 1_000_000);
    assert_eq!(decompress_amount(41), 5);
}

#[test]
fn compressed_scripts_expand() {
    let mut data = vec![0x00];
    data.extend_from_slice(&[0x11; 20]);
    let mut c = Cursor::new(&data);
    let s = read_compressed_script(&mut c).expect("p2pkh");
    assert_eq!(s.len(), 25);
    assert_eq!(&s[..3], &[0x76, 0xa9, 0x14]);
    assert_eq!(&s[23..], &[0x88, 0xac]);

    let mut data = vec![0x01];
    data.extend_from_slice(&[0x22; 20]);
    let s = read_compressed_script(&mut Cursor::new(&data)).expect("p2sh");
    assert_eq!(s.len(), 23);
    assert_eq!(s[22], 0x87);

    let mut data = vec![0x04];
    data.extend_from_slice(&[0x33; 32]);
    let s = read_compressed_script(&mut Cursor::new(&data)).expect("p2pk");
    assert_eq!(s.len(), 35);
    assert_eq!(&s[..2], &[0x21, 0x02]);

    let data = vec![0x09, 0x6a, 0x01, 0x05];
    let s = read_compressed_script(&mut Cursor::new(&data)).expect("raw");
    assert_eq!(s, vec![0x6a, 0x01, 0x05]);

    let data = vec![0x0a, 0x6a];
    assert_eq!(read_compressed_script(&mut Cursor::new(&data)).err(), Some(ParseError::UnexpectedEof));
}

fn rev_record(body: &[u8]) -> Vec<u8> {
    let mut r = framed(body);
    r.extend_from_slice(&[0u8; 32]);
    r
}

#[test]
fn rev_file_undo_records() {
    // one block, one transaction, one spent coin: height 100 (code 200), legacy
    // byte, amount 1 BTC compressed as 9, P2WPKH raw script (kind 6 + 22).
    let mut body = vec![1u8, 1u8];
    body.extend_from_slice(&[0x80, 0x48]);
    body.push(0);
    body.push(9);
    body.push(28);
    body.extend_from_slice(&[0x00, 0x14]);
    body.extend_from_slice(&[0x44; 20]);
    let file = rev_record(&body);
    let undos = parse_rev_file(&file, 1).expect("rev");
    assert_eq!(undos.len(), 1);
    let coin = &undos[0].tx_undos[0].prevouts[0];
    assert_eq!(coin.height, 100);
    assert!(!coin.coinbase);
    assert_eq!(coin.amount, 100_000_000);
    assert_eq!(coin.script_pubkey.len(), 22);
    assert_eq!(parse_rev_file(&file, 0).expect("none").len(), 0);
    assert_eq!(parse_rev_file(&file, 5).expect("stops").len(), 1);
}

#[test]
fn rev_file_errors() {
    let mut file = rev_record(&[0u8]);
    file[0] = 0;
    assert_eq!(parse_rev_file(&file, 1).err(), Some(ParseError::BadRevMagic));
    let mut short = framed(&[0u8; 4]);
    short.truncate(10);
    assert_eq!(parse_rev_file(&short, 1).err(), Some(ParseError::TruncatedUndoRecord));
    // amount that does not fit in 64 bits
    let body = vec![1u8, 1u8, 0x00, 0xff, 0xff, 0xff, 0xff, 0xff, 0xff, 0xff, 0xff, 0xfe, 0x7f, 0x06];
    assert_eq!(parse_rev_file(&rev_record(&body), 1).err(), Some(ParseError::AmountOverflow));
}

#[test]
fn script_disassembly() {
    let mut p2pkh = vec![0x76, 0xa9, 0x14];
    p2pkh.extend_from_slice(&[0xab; 20]);
    p2pkh.extend_from_slice(&[0x88, 0xac]);
    assert_eq!(
        disassemble(&p2pkh),
        format!("OP_DUP OP_HASH160 OP_PUSHBYTES_20 {} OP_EQUALVERIFY OP_CHECKSIG", "ab".repeat(20))
    );
    assert_eq!(disassemble(&[0x6a, 0x4c, 0x02, 0x01, 0x02]), "OP_RETURN OP_PUSHDATA1 0102");
    assert_eq!(disassemble(&[0x03, 0x01]), "OP_PUSHBYTES_3 01");
    assert_eq!(disassemble(&[0x4d, 0x01]), "OP_PUSHBYTES_1 ");
    assert_eq!(disassemble(&[0x4e, 0x01, 0x00, 0x00, 0x00, 0xff]), "OP_PUSHDATA4 ff");
    assert_eq!(disassemble(&[0x00, 0x51, 0xfe]), "OP_0 OP_1 OP_UNKNOWN");
    assert_eq!(disassemble(&[]), "");
    assert_eq!(opcode_name(0xba), "OP_CHECKSIGADD");
    assert_eq!(opcode_name(0x50), "OP_UNKNOWN");
}
