use sherlock::analysis::pipeline::{analyze_transaction, output_script_types};
use sherlock::analysis::block_report::{analyze_block, file_tally, file_tally_can_fit, is_analyzable, BlockReport};
use sherlock::analysis::classify::ScriptType;
use sherlock::analysis::summary::{HeuristicHits, ScriptTypeCounts};
use sherlock::markdown::{
    hit_rows, push_block_classes, push_block_head, push_classification_section, push_field,
    push_heuristic_section, push_list, push_rows, push_script_type_section, push_summary,
    script_type_breakdown,
};
use sherlock::parser::block::{parse_single_block, BlockHeader, ParsedBlock};
use sherlock::parser::tx::{RawTx, TxInput, TxOutput};
use sherlock::parser::undo::{BlockUndo, TxUndo, UndoCoin};

const GENESIS_HEADER: &str = "0100000000000000000000000000000000000000000000000000000000000000000000003ba3edfd7a7b12b27ac72c3e67768f617fc81bc3888a51323a9fb8aa4b1e5e4a29ab5f49ffff001d1dac2b7c";
const GENESIS_TX: &str = "01000000010000000000000000000000000000000000000000000000000000000000000000ffffffff4d04ffff001d0104455468652054696d65732030332f4a616e2f32303039204368616e63656c6c6f72206f6e206272696e6b206f66207365636f6e64206261696c6f757420666f722062616e6b73ffffffff0100f2052a01000000434104678afdb0fe5548271967f1a67130b7105cd6a828e03909a67962e0ea1f61deb649f6bc3f4cef38c4f35504e51ec112de5c384df7ba0b8d578a4c702b6bf11d5fac00000000";

fn genesis() -> ParsedBlock {
    let mut b = hex::decode(GENESIS_HEADER).unwrap();
    b.push(1);
    b.extend_from_slice(&hex::decode(GENESIS_TX).unwrap());
    parse_single_block(&b).expect("genesis block")
}

fn p2wpkh(b: u8) -> Vec<u8> {
    let mut s = vec![0x00, 0x14];
    s.extend_from_slice(&[b; 20]);
    s
}

fn raw_tx(inputs: Vec<TxInput>, outputs: Vec<(i64, Vec<u8>)>, weight: usize) -> RawTx {
    RawTx {
        version: 2,
        is_segwit: false,
        inputs,
        outputs: outputs.into_iter().map(|(value, script_pubkey)| TxOutput { value, script_pubkey }).collect(),
        locktime: 0,
        non_witness_bytes: Vec::new(),
        txid: "cd".repeat(32),
        txid_hash: [0; 32],
        wtxid: None,
        size: weight / 4,
        weight,
    }
}

fn input(n: u8, script_sig: Vec<u8>) -> TxInput {
    TxInput { prev_txid: [n; 32], vout: 0, script_sig, sequence: 0xffff_ffff, witness: Vec::new() }
}

fn coinbase(script_sig: Vec<u8>) -> TxInput {
    TxInput { prev_txid: [0; 32], vout: 0xffff_ffff, script_sig, sequence: 0xffff_ffff, witness: Vec::new() }
}

fn header() -> BlockHeader {
    BlockHeader {
        version: 4,
        prev_block_hash: [1; 32],
        merkle_root: [2; 32],
        timestamp: 0,
        bits: 0,
        nonce: 0,
        block_hash: [0xab; 32],
    }
}

fn coin(amount: u64) -> UndoCoin {
    UndoCoin { height: 1, coinbase: false, amount, script_pubkey: p2wpkh(9) }
}

#[test]
fn genesis_block_report() {
    let block = genesis();
    let undo = BlockUndo { tx_undos: Vec::new() };
    assert!(is_analyzable(&block, &undo));
    let r = analyze_block(&block, &undo);
    assert_eq!(r.block_hash, "000000000019d6689c085ae165831e934ff763ae46a2a6c172b3f1b60a8ce26f");
    assert_eq!(r.height, 0x1d00ffff);
    assert_eq!(r.transactions.len(), 1);
    assert_eq!(r.transactions[0].classification, "coinbase");
    assert_eq!(r.transactions[0].txid, "4a5e1e4baab89f3a32518a88c31bc87f618f76673e2cc77ab2127b7afdeda33b");
    assert!(r.fees[0].is_none());
    assert_eq!(r.tally.tx_count, 1);
    assert_eq!(r.tally.flagged, 0);
    assert_eq!(r.tally.script_types.get(ScriptType::Unknown), 1);
}

#[test]
fn block_report_with_spends() {
    let block = ParsedBlock {
        header: header(),
        transactions: vec![
            raw_tx(vec![coinbase(vec![0x03, 0xa0, 0x86, 0x01])], vec![(625_000_000, p2wpkh(1))], 400),
            raw_tx(
                vec![input(1, Vec::new()), input(2, Vec::new())],
                vec![(60_000, p2wpkh(2)), (30_000, p2wpkh(3))],
                573,
            ),
            raw_tx(vec![input(3, Vec::new())], vec![(5, p2wpkh(4))], 400),
        ],
    };
    let undo = BlockUndo {
        tx_undos: vec![TxUndo { prevouts: vec![coin(50_000), coin(45_000)] }, TxUndo { prevouts: Vec::new() }],
    };
    assert!(is_analyzable(&block, &undo));
    let r = analyze_block(&block, &undo);
    assert_eq!(r.block_hash, "ab".repeat(32));
    assert_eq!(r.height, 100_000);
    assert_eq!(r.transactions.len(), 3);
    assert_eq!(r.transactions[0].classification, "coinbase");
    assert_eq!(r.transactions[1].classification, "self_transfer");
    assert_eq!(r.transactions[2].classification, "simple_payment");
    assert!(r.fees[0].is_none());
    let f = r.fees[1].expect("fee of the spend");
    assert_eq!(f.fee_sats, 5_000);
    assert_eq!(f.vbytes, 144);
    assert!(r.fees[2].is_none());
    assert_eq!(r.tally.tx_count, 3);
    assert_eq!(r.tally.flagged, 1);
    assert_eq!(r.tally.script_types.get(ScriptType::P2wpkh), 4);
}

#[test]
fn empty_block_has_height_zero() {
    let block = ParsedBlock { header: header(), transactions: Vec::new() };
    let undo = BlockUndo { tx_undos: Vec::new() };
    assert!(is_analyzable(&block, &undo));
    let r = analyze_block(&block, &undo);
    assert_eq!(r.height, 0);
    assert!(r.transactions.is_empty());
    assert_eq!(r.tally.tx_count, 0);
}

#[test]
fn blocks_that_cannot_be_analysed() {
    let undo = BlockUndo { tx_undos: Vec::new() };
    let no_input = ParsedBlock { header: header(), transactions: vec![raw_tx(Vec::new(), vec![(1, p2wpkh(1))], 4)] };
    assert!(!is_analyzable(&no_input, &undo));

    let mut long_push = vec![9];
    long_push.extend_from_slice(&[1; 9]);
    let wide = ParsedBlock { header: header(), transactions: vec![raw_tx(vec![coinbase(long_push)], Vec::new(), 4)] };
    assert!(!is_analyzable(&wide, &undo));

    let overflowing = ParsedBlock {
        header: header(),
        transactions: vec![
            raw_tx(vec![coinbase(vec![0x01, 0x01])], Vec::new(), 4),
            raw_tx(vec![input(1, Vec::new())], vec![(1, p2wpkh(1))], 4),
        ],
    };
    let big = BlockUndo { tx_undos: vec![TxUndo { prevouts: vec![coin(u64::MAX), coin(1)] }] };
    assert!(!is_analyzable(&overflowing, &big));
}

#[test]
fn breakdown_and_hit_rows() {
    let mut c = ScriptTypeCounts::new();
    c.add(ScriptType::P2wpkh);
    c.add(ScriptType::OpReturn);
    c.add(ScriptType::P2wpkh);
    assert_eq!(script_type_breakdown(&c), vec![("op_return", 1), ("p2wpkh", 2)]);
    let h = HeuristicHits {
        cioh: 1,
        change_detection: 2,
        coinjoin: 3,
        consolidation: 4,
        address_reuse: 5,
        self_transfer: 6,
        round_number_payment: 7,
    };
    let rows = hit_rows(&h);
    assert_eq!(rows[0], ("cioh", 1));
    assert_eq!(rows[6], ("round_number_payment", 7));
}

#[test]
fn markdown_rows_lists_and_fields() {
    let mut md = String::new();
    push_rows(&mut md, &[("p2tr", 3), ("unknown", 10)]);
    assert_eq!(md, "| p2tr | 3 |\n| unknown | 10 |\n");
    let mut l = String::new();
    push_list(&mut l, &[("coinbase", 1), ("simple_payment", 20)]);
    assert_eq!(l, "coinbase=1, simple_payment=20");
    let mut e = String::new();
    push_list(&mut e, &[]);
    assert_eq!(e, "");
    let mut f = String::new();
    push_field(&mut f, "Flagged", 0);
    assert_eq!(f, "- **Flagged:** 0\n");
}

#[test]
fn markdown_sections() {
    let mut md = String::new();
    push_summary(&mut md, 2, 100, 40);
    assert_eq!(
        md,
        "## Summary\n\n- **Blocks analyzed:** 2\n- **Total transactions:** 100\n- **Flagged transactions:** 40\n- **Heuristic applied:** cioh, change_detection, coinjoin, consolidation, address_reuse, self_transfer, round_number_payment\n\n"
    );

    let mut c = ScriptTypeCounts::new();
    c.add(ScriptType::P2tr);
    let mut s = String::new();
    push_script_type_section(&mut s, &c);
    assert_eq!(s, "## Script Type Distribution\n\n| Type | Count |\n|------|-------|\n| p2tr | 1 |\n\n");

    let mut k = String::new();
    push_classification_section(&mut k, &[("coinbase", 1)]);
    assert_eq!(
        k,
        "## Transaction Classification\n\n| Classification | Count |\n|----------------|-------|\n| coinbase | 1 |\n\n"
    );

    let h = HeuristicHits {
        cioh: 0,
        change_detection: 0,
        coinjoin: 0,
        consolidation: 0,
        address_reuse: 0,
        self_transfer: 0,
        round_number_payment: 0,
    };
    let mut t = String::new();
    push_heuristic_section(&mut t, &h);
    assert!(t.starts_with("## Heuristic Hit Summary\n\n| Heuristic | Transactions Flagged |\n"));
    assert!(t.contains("| round_number_payment | 0 |\n"));
    assert!(t.ends_with(" |\n\n"));

    let mut b = String::new();
    push_block_head(&mut b, 0, 840_000, "00ff", 3, 1);
    push_block_classes(&mut b, &[("coinbase", 1), ("simple_payment", 2)]);
    assert_eq!(
        b,
        "### Block 0: height 840000\n\n- **Hash:** `00ff`\n- **Transactions:** 3\n- **Flagged:** 1\n- **Classifications:** coinbase=1, simple_payment=2\n\n"
    );
}

fn all_counts(c: &ScriptTypeCounts) -> usize {
    [
        ScriptType::P2pkh,
        ScriptType::P2sh,
        ScriptType::P2wpkh,
        ScriptType::P2wsh,
        ScriptType::P2tr,
        ScriptType::OpReturn,
        ScriptType::Unknown,
    ]
    .iter()
    .map(|t| c.get(*t))
    .sum()
}

fn spend_block() -> (ParsedBlock, BlockUndo) {
    let block = ParsedBlock {
        header: header(),
        transactions: vec![
            raw_tx(vec![coinbase(vec![0x01, 0x05])], vec![(1, p2wpkh(1)), (0, vec![0x6a, 0x01, 0x00])], 400),
            raw_tx(vec![input(1, Vec::new())], vec![(7, p2wpkh(2)), (8, vec![0x51]), (9, p2wpkh(3))], 400),
        ],
    };
    let undo = BlockUndo { tx_undos: vec![TxUndo { prevouts: vec![coin(30)] }] };
    (block, undo)
}

#[test]
fn every_output_is_counted_once() {
    let (block, undo) = spend_block();
    let r = analyze_block(&block, &undo);
    let outputs: usize = block.transactions.iter().map(|t| t.outputs.len()).sum();
    assert_eq!(all_counts(&r.tally.script_types), outputs);
    assert_eq!(outputs, 5);
    assert!(r.tally.flagged <= r.tally.tx_count);
}

#[test]
fn file_totals_add_up_the_blocks() {
    let (block, undo) = spend_block();
    let reports: Vec<BlockReport> = vec![analyze_block(&block, &undo), analyze_block(&genesis(), &BlockUndo { tx_undos: Vec::new() })];
    assert!(file_tally_can_fit(&reports));
    let t = file_tally(&reports);
    assert_eq!(t.tx_count, 3);
    assert_eq!(t.flagged, reports[0].tally.flagged + reports[1].tally.flagged);
    assert_eq!(t.script_types.get(ScriptType::P2wpkh), 3);
    assert_eq!(t.script_types.get(ScriptType::Unknown), 2);
    assert_eq!(t.script_types.get(ScriptType::OpReturn), 1);
    let none = file_tally(&[]);
    assert_eq!(none.tx_count, 0);
}

#[test]
fn file_totals_that_overflow_are_refused() {
    let (block, undo) = spend_block();
    let mut a = analyze_block(&block, &undo);
    let b = analyze_block(&block, &undo);
    a.tally.tx_count = usize::MAX;
    assert!(!file_tally_can_fit(&[a, b]));
}

#[test]
fn block_report_add_tx_appends_and_counts() {
    let mut r = BlockReport::new("ff".repeat(32), 7);
    assert_eq!(r.height, 7);
    assert!(r.transactions.is_empty());
    let spend = raw_tx(vec![input(1, Vec::new()), input(2, Vec::new())], vec![(5, p2wpkh(1)), (6, vec![0x51])], 400);
    let a = analyze_transaction(&spend, &[]);
    let flagged = a.heuristics.any_detected();
    r.add_tx(a, None, &output_script_types(&spend));
    assert!(flagged);
    assert_eq!(r.transactions.len(), 1);
    assert_eq!(r.transactions[0].txid, spend.txid);
    assert!(r.fees[0].is_none());
    assert_eq!(r.tally.tx_count, 1);
    assert_eq!(r.tally.flagged, 1);
    assert_eq!(r.tally.script_types.get(ScriptType::P2wpkh), 1);
    assert_eq!(r.tally.script_types.get(ScriptType::Unknown), 1);
    assert_eq!(r.block_hash, "ff".repeat(32));
}
