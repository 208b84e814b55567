use sherlock::analysis::address::derive_address;
use sherlock::analysis::classify::ScriptType;
use sherlock::analysis::fees::{compute_fees, fee_totals};
use sherlock::analysis::op_return::{detect_protocol, extract_op_return_data, try_utf8};
use sherlock::analysis::pipeline::{analyze_transaction, output_script_types};
use sherlock::analysis::summary::{count_classifications, count_heuristic_hits, BlockTally, ScriptTypeCounts};
use sherlock::error::error_json;
use sherlock::files::{is_report_file, is_safe_filename};
use sherlock::parser::tx::{RawTx, TxInput, TxOutput};
use sherlock::parser::undo::UndoCoin;
use sherlock::text::push_decimal;

fn script(prefix: &[u8], hex_body: &str, suffix: &[u8]) -> Vec<u8> {
    let mut s = prefix.to_vec();
    s.extend_from_slice(&hex::decode(hex_body).expect("test hex"));
    s.extend_from_slice(suffix);
    s
}

fn p2wpkh(b: u8) -> Vec<u8> {
    let mut s = vec![0x00, 0x14];
    s.extend_from_slice(&[b; 20]);
    s
}

fn p2tr(b: u8) -> Vec<u8> {
    let mut s = vec![0x51, 0x20];
    s.extend_from_slice(&[b; 32]);
    s
}

fn input(n: u8) -> TxInput {
    TxInput { prev_txid: [n; 32], vout: 1, script_sig: Vec::new(), sequence: 0xffff_fffe, witness: Vec::new() }
}

fn tx(n_inputs: u8, outputs: Vec<(i64, Vec<u8>)>, size: usize, weight: usize) -> RawTx {
    RawTx {
        version: 1,
        is_segwit: false,
        inputs: (1..=n_inputs).map(input).collect(),
        outputs: outputs.into_iter().map(|(value, script_pubkey)| TxOutput { value, script_pubkey }).collect(),
        locktime: 0,
        non_witness_bytes: Vec::new(),
        txid: String::from("00"),
        txid_hash: [0; 32],
        wtxid: None,
        size,
        weight,
    }
}

fn coin(amount: u64, script_pubkey: Vec<u8>) -> UndoCoin {
    UndoCoin { height: 1, coinbase: false, amount, script_pubkey }
}

// ---------------------------------------------------------------------------
// Addresses.
// ---------------------------------------------------------------------------

#[test]
fn p2pkh_address_of_the_genesis_key() {
    let spk = script(&[0x76, 0xa9, 0x14], "62e907b15cbf27d5425399ebf6f0fb50ebb88f18", &[0x88, 0xac]);
    assert_eq!(derive_address(&spk).as_deref(), Some("1A1zP1eP5QGefi2DMPTfTL5SLmv7DivfNa"));
}

#[test]
fn p2sh_address_has_version_five() {
    let spk = script(&[0xa9, 0x14], "b472a266d0bd89c13706a4132ccfb16f7c3b9fcb", &[0x87]);
    let a = derive_address(&spk).unwrap();
    assert!(a.starts_with('3'));
    assert_eq!(a.len(), 34);
}

#[test]
fn segwit_v0_addresses() {
    let wpkh = script(&[0x00, 0x14], "751e76e8199196d454941c45d1b3a323f1433bd6", &[]);
    assert_eq!(derive_address(&wpkh).as_deref(), Some("bc1qw508d6qejxtdg4y5r3zarvary0c5xw7kv8f3t4"));
    let wsh = script(&[0x00, 0x20], "1863143c14c5166804bd19203356da136c985678cd4d27a1b8c6329604903262", &[]);
    assert_eq!(
        derive_address(&wsh).as_deref(),
        Some("bc1qrp33g0q5c5txsp9arysrx4k6zdkfs4nce4xj0gdcccefvpysxf3qccfmv3")
    );
}

#[test]
fn taproot_address_is_bech32m() {
    let tr = script(&[0x51, 0x20], "79be667ef9dcbbac55a06295ce870b07029bfcdb2dce28d959f2815b16f81798", &[]);
    assert_eq!(
        derive_address(&tr).as_deref(),
        Some("bc1p0xlxvlhemja6c4dqv22uapctqupfhlxm9h8z3k2e72q4k9hcz7vqzk5jj0")
    );
}

#[test]
fn non_standard_scripts_have_no_address() {
    assert_eq!(derive_address(&[0x6a, 0x01, 0x02]), None);
    assert_eq!(derive_address(&[]), None);
    assert_eq!(derive_address(&[0x51]), None);
}

// ---------------------------------------------------------------------------
// OP_RETURN payloads.
// ---------------------------------------------------------------------------

#[test]
fn op_return_pushes_are_concatenated() {
    let spk = vec![0x6a, 0x04, b'o', b'm', b'n', b'i', 0x00, 0x4c, 0x02, 0xaa, 0xbb, 0x4d, 0x01, 0x00, 0xcc];
    assert_eq!(extract_op_return_data(&spk), vec![b'o', b'm', b'n', b'i', 0xaa, 0xbb, 0xcc]);
}

#[test]
fn op_return_truncated_push_takes_the_rest() {
    assert_eq!(extract_op_return_data(&[0x6a, 0x05, 1, 2]), vec![1, 2]);
    assert_eq!(extract_op_return_data(&[0x6a, 0x4c, 0x09, 1, 2, 3]), vec![1, 2, 3]);
    assert_eq!(extract_op_return_data(&[0x6a, 0x4d, 0x09, 0x00, 7]), vec![7]);
}

#[test]
fn op_return_stops_at_other_opcodes() {
    assert_eq!(extract_op_return_data(&[0x6a, 0x01, 9, 0x51, 0x01, 8]), vec![9]);
    assert_eq!(extract_op_return_data(&[0x6a, 0x4c]), Vec::<u8>::new());
    assert_eq!(extract_op_return_data(&[0x6a, 0x4d, 0x01]), Vec::<u8>::new());
    assert_eq!(extract_op_return_data(&[0x6a]), Vec::<u8>::new());
}

#[test]
fn non_op_return_scripts_carry_no_data() {
    assert!(extract_op_return_data(&[]).is_empty());
    assert!(extract_op_return_data(&p2wpkh(1)).is_empty());
}

#[test]
fn protocols_by_prefix() {
    assert_eq!(detect_protocol(b"omni\x00\x00"), "omni");
    assert_eq!(detect_protocol(&[0x01, 0x09, 0xf9, 0x11, 0x02, 0x55]), "opentimestamps");
    assert_eq!(detect_protocol(b"omn"), "unknown");
    assert_eq!(detect_protocol(&[0x01, 0x09, 0xf9, 0x11]), "unknown");
    assert_eq!(detect_protocol(&[]), "unknown");
}

#[test]
fn utf8_payloads() {
    assert_eq!(try_utf8(b"hello").as_deref(), Some("hello"));
    assert_eq!(try_utf8("héllo".as_bytes()).as_deref(), Some("héllo"));
    assert_eq!(try_utf8(&[]).as_deref(), Some(""));
    assert_eq!(try_utf8(&[0xff, 0xfe]), None);
    assert_eq!(try_utf8(&[b'a', 0xc3]), None);
}

// ---------------------------------------------------------------------------
// Fees.
// ---------------------------------------------------------------------------

#[test]
fn fees_and_virtual_size() {
    let t = tx(2, vec![(60_000, p2wpkh(1)), (30_000, p2wpkh(2))], 225, 573);
    let prev = vec![coin(50_000, p2wpkh(3)), coin(45_000, p2wpkh(4))];
    let f = compute_fees(&t, &prev);
    assert_eq!(f.total_input_sats, 95_000);
    assert_eq!(f.total_output_sats, 90_000);
    assert_eq!(f.fee_sats, 5_000);
    assert_eq!(f.size_bytes, 225);
    assert_eq!(f.weight, 573);
    assert_eq!(f.vbytes, 144);
    assert_eq!(fee_totals(&t, &prev), Some((95_000, 90_000)));
}

#[test]
fn fee_is_zero_when_outputs_exceed_inputs() {
    let t = tx(1, vec![(60_000, p2wpkh(1))], 100, 400);
    let f = compute_fees(&t, &[]);
    assert_eq!(f.total_input_sats, 0);
    assert_eq!(f.total_output_sats, 60_000);
    assert_eq!(f.fee_sats, 0);
    assert_eq!(f.vbytes, 100);
}

#[test]
fn fee_totals_report_overflow() {
    let t = tx(1, vec![(1, p2wpkh(1))], 100, 400);
    let prev = vec![coin(u64::MAX, p2wpkh(3)), coin(1, p2wpkh(4))];
    assert_eq!(fee_totals(&t, &prev), None);
}

// ---------------------------------------------------------------------------
// Tallies.
// ---------------------------------------------------------------------------

#[test]
fn block_tally_counts_flagged_and_script_types() {
    let mut tally = BlockTally::new();
    let quiet = tx(1, vec![(7, p2tr(1))], 0, 0);
    let quiet_prev = vec![coin(10, p2wpkh(2))];
    let a = analyze_transaction(&quiet, &quiet_prev);
    assert!(!a.heuristics.any_detected());
    tally.add_tx(&a.heuristics, &output_script_types(&quiet));

    let busy = tx(3, vec![(100_000, p2wpkh(1)), (100_000, p2wpkh(2)), (100_000, p2tr(3)), (0, vec![0x6a])], 0, 0);
    let busy_prev = vec![coin(1, p2tr(9)), coin(1, p2tr(9)), coin(1, p2tr(9))];
    let b = analyze_transaction(&busy, &busy_prev);
    assert!(b.heuristics.any_detected());
    tally.add_tx(&b.heuristics, &output_script_types(&busy));

    assert_eq!(tally.tx_count, 2);
    assert_eq!(tally.flagged, 1);
    assert_eq!(tally.script_types.get(ScriptType::P2tr), 2);
    assert_eq!(tally.script_types.get(ScriptType::P2wpkh), 2);
    assert_eq!(tally.script_types.get(ScriptType::OpReturn), 1);
    assert_eq!(tally.script_types.get(ScriptType::P2pkh), 0);
}

#[test]
fn script_type_counts_add_one_at_a_time() {
    let mut c = ScriptTypeCounts::new();
    c.add(ScriptType::Unknown);
    c.add(ScriptType::Unknown);
    c.add(ScriptType::P2sh);
    assert_eq!(c.get(ScriptType::Unknown), 2);
    assert_eq!(c.get(ScriptType::P2sh), 1);
    assert_eq!(c.get(ScriptType::P2wsh), 0);
}

#[test]
fn heuristic_hits_and_classification_breakdown() {
    let simple = analyze_transaction(&tx(1, vec![(7, p2tr(1))], 0, 0), &[coin(10, p2wpkh(2))]);
    let batch = analyze_transaction(
        &tx(2, vec![(7, p2tr(1)), (8, p2wpkh(3)), (9, vec![0x51])], 0, 0),
        &[coin(10, p2tr(2)), coin(10, p2wpkh(2))],
    );
    let simple2 = analyze_transaction(&tx(1, vec![(5, p2tr(1)), (6, p2wpkh(2))], 0, 0), &[]);
    assert_eq!(simple.classification, "simple_payment");
    assert_eq!(batch.classification, "batch_payment");
    assert_eq!(simple2.classification, "simple_payment");
    let all = vec![simple, batch, simple2];

    let hits = count_heuristic_hits(&all);
    assert_eq!(hits.cioh, 1);
    assert_eq!(hits.change_detection, 2);
    assert_eq!(hits.coinjoin, 0);
    assert_eq!(hits.consolidation, 0);
    assert_eq!(hits.address_reuse, 0);
    assert_eq!(hits.self_transfer, 0);
    assert_eq!(hits.round_number_payment, 0);

    assert_eq!(count_classifications(&all), vec![("batch_payment", 1), ("simple_payment", 2)]);
    assert!(count_classifications(&[]).is_empty());
}

// ---------------------------------------------------------------------------
// Error objects, file names, text.
// ---------------------------------------------------------------------------

#[test]
fn error_json_escapes_the_message() {
    assert_eq!(
        error_json("INVALID_INPUT", "bad \"file\" at C:\\x"),
        "{\"ok\":false,\"error\":{\"code\":\"INVALID_INPUT\",\"message\":\"bad \\\"file\\\" at C:\\\\x\"}}"
    );
    assert_eq!(error_json("E", ""), "{\"ok\":false,\"error\":{\"code\":\"E\",\"message\":\"\"}}");
}

#[test]
fn safe_filenames() {
    assert!(is_safe_filename("blk00000.json"));
    assert!(is_safe_filename("a-b_c.d"));
    assert!(is_safe_filename("résumé.json"));
    assert!(is_safe_filename(""));
    assert!(!is_safe_filename("../etc/passwd"));
    assert!(!is_safe_filename("a/b.json"));
    assert!(!is_safe_filename("a b.json"));
    assert!(!is_safe_filename("a\\b"));
}

#[test]
fn report_files_end_in_json() {
    assert!(is_report_file("blk00000.json"));
    assert!(is_report_file(".json"));
    assert!(!is_report_file("json"));
    assert!(!is_report_file("blk00000.md"));
    assert!(!is_report_file("a.json.bak"));
}

#[test]
fn decimals() {
    let mut s = String::from("h=");
    push_decimal(&mut s, 0);
    push_decimal(&mut s, 840_000);
    assert_eq!(s, "h=0840000");
    let mut m = String::new();
    push_decimal(&mut m, u64::MAX);
    assert_eq!(m, "18446744073709551615");
}
