use sherlock::analysis::address::derive_address;
use sherlock::analysis::classifier::{classify, HeuristicResults};
use sherlock::analysis::classify::{
    classify_input, classify_output, count_real_outputs, is_coinbase, script_type,
    uniform_input_type, ScriptType,
};
use sherlock::analysis::coinbase::decode_bip34_height;
use sherlock::analysis::pipeline::{analyze_transaction, output_script_types, prevouts_for};
use sherlock::analysis::{
    address_reuse, change_detection, cioh, coinjoin, consolidation, round_number, self_transfer,
};
use sherlock::parser::tx::{RawTx, TxInput, TxOutput};
use sherlock::parser::undo::{BlockUndo, TxUndo, UndoCoin};

fn p2pkh(b: u8) -> Vec<u8> {
    let mut s = vec![0x76, 0xa9, 0x14];
    s.extend_from_slice(&[b; 20]);
    s.extend_from_slice(&[0x88, 0xac]);
    s
}

fn p2sh(b: u8) -> Vec<u8> {
    let mut s = vec![0xa9, 0x14];
    s.extend_from_slice(&[b; 20]);
    s.push(0x87);
    s
}

fn p2wpkh(b: u8) -> Vec<u8> {
    let mut s = vec![0x00, 0x14];
    s.extend_from_slice(&[b; 20]);
    s
}

fn p2wsh(b: u8) -> Vec<u8> {
    let mut s = vec![0x00, 0x20];
    s.extend_from_slice(&[b; 32]);
    s
}

fn p2tr(b: u8) -> Vec<u8> {
    let mut s = vec![0x51, 0x20];
    s.extend_from_slice(&[b; 32]);
    s
}

fn op_return() -> Vec<u8> {
    vec![0x6a, 0x04, 0x6f, 0x6d, 0x6e, 0x69]
}

fn input(n: u8) -> TxInput {
    TxInput { prev_txid: [n; 32], vout: 0, script_sig: Vec::new(), sequence: 0xffff_ffff, witness: Vec::new() }
}

fn coinbase_input() -> TxInput {
    TxInput {
        prev_txid: [0; 32],
        vout: 0xffff_ffff,
        script_sig: vec![0x03, 0xa0, 0x86, 0x01],
        sequence: 0xffff_ffff,
        witness: Vec::new(),
    }
}

fn tx(inputs: Vec<TxInput>, outputs: Vec<(i64, Vec<u8>)>) -> RawTx {
    RawTx {
        version: 2,
        is_segwit: false,
        inputs,
        outputs: outputs.into_iter().map(|(value, script_pubkey)| TxOutput { value, script_pubkey }).collect(),
        locktime: 0,
        non_witness_bytes: Vec::new(),
        txid: "ab".repeat(32),
        txid_hash: [0; 32],
        wtxid: None,
        size: 0,
        weight: 0,
    }
}

fn inputs(n: u8) -> Vec<TxInput> {
    (1..=n).map(input).collect()
}

fn coin(amount: u64, script_pubkey: Vec<u8>) -> UndoCoin {
    UndoCoin { height: 100, coinbase: false, amount, script_pubkey }
}

fn coins(n: usize, amount: u64, spk: Vec<u8>) -> Vec<UndoCoin> {
    (0..n).map(|_| coin(amount, spk.clone())).collect()
}

// ---------------------------------------------------------------------------
// Script templates.
// ---------------------------------------------------------------------------

#[test]
fn output_templates_are_recognised() {
    assert_eq!(classify_output(&p2pkh(1)), "p2pkh");
    assert_eq!(classify_output(&p2sh(1)), "p2sh");
    assert_eq!(classify_output(&p2wpkh(1)), "p2wpkh");
    assert_eq!(classify_output(&p2wsh(1)), "p2wsh");
    assert_eq!(classify_output(&p2tr(1)), "p2tr");
    assert_eq!(classify_output(&op_return()), "op_return");
    assert_eq!(classify_output(&[0x6a]), "op_return");
    assert_eq!(classify_output(&[]), "unknown");
    assert_eq!(classify_output(&[0x51]), "unknown");
    let mut near_p2pkh = p2pkh(1);
    near_p2pkh[24] = 0xad;
    assert_eq!(classify_output(&near_p2pkh), "unknown");
    assert!(script_type(&p2wpkh(3)) == ScriptType::P2wpkh);
    assert_eq!(ScriptType::P2tr.as_str(), "p2tr");
}

#[test]
fn input_types_follow_the_spent_output_and_witness() {
    assert_eq!(classify_input(&p2pkh(1), &[], &[]), "p2pkh");
    assert_eq!(classify_input(&p2wpkh(1), &[], &[vec![1; 71], vec![2; 33]]), "p2wpkh");
    assert_eq!(classify_input(&p2wsh(1), &[], &[]), "p2wsh");
    assert_eq!(classify_input(&p2tr(1), &[], &[vec![0; 64]]), "p2tr_keypath");
    assert_eq!(classify_input(&p2tr(1), &[], &[vec![0; 65]]), "p2tr_keypath");
    assert_eq!(classify_input(&p2tr(1), &[], &[vec![0; 10]]), "unknown");
    assert_eq!(classify_input(&p2tr(1), &[], &[]), "unknown");
    assert_eq!(classify_input(&p2tr(1), &[], &[vec![1; 3], vec![0xc0, 1, 2]]), "p2tr_scriptpath");
    assert_eq!(classify_input(&p2tr(1), &[], &[vec![1; 3], vec![0xc1]]), "p2tr_scriptpath");
    assert_eq!(classify_input(&p2tr(1), &[], &[vec![1; 3], vec![0x50]]), "p2tr_keypath");
    assert_eq!(classify_input(&p2tr(1), &[], &[vec![1; 3], vec![]]), "p2tr_keypath");

    let mut wrapped_wpkh = vec![22];
    wrapped_wpkh.extend_from_slice(&p2wpkh(7));
    assert_eq!(classify_input(&p2sh(1), &wrapped_wpkh, &[vec![1]]), "p2sh-p2wpkh");
    let mut wrapped_wsh = vec![34];
    wrapped_wsh.extend_from_slice(&p2wsh(7));
    assert_eq!(classify_input(&p2sh(1), &wrapped_wsh, &[vec![1]]), "p2sh-p2wsh");
    assert_eq!(classify_input(&p2sh(1), &wrapped_wpkh, &[]), "unknown");
    assert_eq!(classify_input(&p2sh(1), &[1, 0], &[vec![1]]), "unknown");
    assert_eq!(classify_input(&op_return(), &[], &[]), "unknown");
}

#[test]
fn coinbase_shape() {
    assert!(is_coinbase(&tx(vec![coinbase_input()], vec![(50, p2pkh(1))])));
    assert!(!is_coinbase(&tx(vec![coinbase_input(), input(2)], vec![(50, p2pkh(1))])));
    let mut almost = coinbase_input();
    almost.vout = 0;
    assert!(!is_coinbase(&tx(vec![almost], vec![(50, p2pkh(1))])));
}

#[test]
fn real_outputs_skip_op_return_only() {
    let t = tx(inputs(1), vec![(0, op_return()), (5, p2pkh(1)), (6, Vec::new())]);
    assert_eq!(count_real_outputs(&t), 2);
}

#[test]
fn uniform_input_type_needs_one_template() {
    assert!(uniform_input_type(&[]).is_none());
    assert!(uniform_input_type(&coins(3, 1, p2wpkh(1))) == Some(ScriptType::P2wpkh));
    let mixed = vec![coin(1, p2wpkh(1)), coin(1, p2tr(1))];
    assert!(uniform_input_type(&mixed).is_none());
}

// ---------------------------------------------------------------------------
// Heuristics.
// ---------------------------------------------------------------------------

#[test]
fn cioh_counts_inputs() {
    let one = cioh::detect(&tx(inputs(1), vec![(1, p2pkh(1))]));
    assert!(!one.detected);
    assert_eq!(one.input_count, 1);
    let two = cioh::detect(&tx(inputs(2), vec![(1, p2pkh(1))]));
    assert!(two.detected);
    assert_eq!(two.input_count, 2);
}

#[test]
fn coinjoin_needs_inputs_and_equal_outputs() {
    let outs = vec![
        (1_000_000, p2wpkh(1)),
        (1_000_000, p2wpkh(2)),
        (1_000_000, p2wpkh(3)),
        (123_456, p2wpkh(4)),
    ];
    let r = coinjoin::detect(&tx(inputs(3), outs.clone()));
    assert!(r.detected);
    assert_eq!(r.equal_output_count, Some(3));
    assert_eq!(r.equal_output_value, Some(1_000_000));

    let few_inputs = coinjoin::detect(&tx(inputs(2), outs));
    assert!(!few_inputs.detected);
    assert_eq!(few_inputs.equal_output_count, None);
    assert_eq!(few_inputs.equal_output_value, None);
}

#[test]
fn coinjoin_ignores_zero_and_op_return_outputs() {
    let outs = vec![(0, p2wpkh(1)), (0, p2wpkh(2)), (0, p2wpkh(3)), (5, op_return()), (5, op_return()), (5, op_return())];
    let r = coinjoin::detect(&tx(inputs(4), outs));
    assert!(!r.detected);
    assert_eq!(r.equal_output_count, None);
}

#[test]
fn coinjoin_picks_the_most_common_value() {
    let outs = vec![
        (7, p2wpkh(1)),
        (9, p2wpkh(2)),
        (9, p2wpkh(3)),
        (7, p2wpkh(4)),
        (9, p2wpkh(5)),
        (9, p2wpkh(6)),
    ];
    let r = coinjoin::detect(&tx(inputs(5), outs));
    assert!(r.detected);
    assert_eq!(r.equal_output_count, Some(4));
    assert_eq!(r.equal_output_value, Some(9));
}

#[test]
fn coinjoin_never_on_coinbase() {
    let outs = vec![(9, p2wpkh(1)), (9, p2wpkh(2)), (9, p2wpkh(3))];
    let r = coinjoin::detect(&tx(vec![coinbase_input()], outs));
    assert!(!r.detected);
}

#[test]
fn consolidation_sweeps_many_inputs_of_one_type() {
    let prev = coins(5, 10_000, p2wpkh(9));
    let t = tx(inputs(5), vec![(49_000, p2wpkh(8)), (0, op_return())]);
    let r = consolidation::detect(&t, &prev);
    assert!(r.detected);
    assert_eq!(r.input_count, 5);
    assert_eq!(r.output_count, 2);
    assert_eq!(r.uniform_script_type, Some("p2wpkh"));

    let four = tx(inputs(4), vec![(49_000, p2wpkh(8))]);
    assert!(!consolidation::detect(&four, &coins(4, 10_000, p2wpkh(9))).detected);

    let three_outs = tx(inputs(5), vec![(1, p2wpkh(1)), (1, p2wpkh(2)), (1, p2wpkh(3))]);
    assert!(!consolidation::detect(&three_outs, &prev).detected);

    let other_type = tx(inputs(5), vec![(49_000, p2tr(8))]);
    let r = consolidation::detect(&other_type, &prev);
    assert!(!r.detected);
    assert_eq!(r.uniform_script_type, None);

    let data_only = tx(inputs(5), vec![(0, op_return()), (0, op_return())]);
    let r = consolidation::detect(&data_only, &prev);
    assert!(!r.detected);
    assert_eq!(r.uniform_script_type, None);

    let unknown_inputs = coins(5, 10_000, vec![0x51]);
    let t = tx(inputs(5), vec![(49_000, vec![0x51])]);
    assert!(!consolidation::detect(&t, &unknown_inputs).detected);
}

#[test]
fn self_transfer_all_outputs_match_inputs() {
    let prev = coins(2, 10_000, p2tr(9));
    let t = tx(inputs(2), vec![(5_000, p2tr(1)), (4_000, p2tr(2)), (0, op_return())]);
    let r = self_transfer::detect(&t, &prev);
    assert!(r.detected);
    assert_eq!(r.uniform_script_type, Some("p2tr"));

    let paying = tx(inputs(2), vec![(5_000, p2tr(1)), (4_000, p2pkh(2))]);
    assert!(!self_transfer::detect(&paying, &prev).detected);

    let data_only = tx(inputs(2), vec![(0, op_return())]);
    assert!(!self_transfer::detect(&data_only, &prev).detected);

    assert!(!self_transfer::detect(&t, &[]).detected);
}

#[test]
fn round_number_lists_round_outputs() {
    let t = tx(
        inputs(1),
        vec![(100_000, p2wpkh(1)), (123_457, p2wpkh(2)), (0, p2wpkh(3)), (200_000, op_return()), (300_000_000, p2pkh(4))],
    );
    let r = round_number::detect(&t);
    assert!(r.detected);
    assert_eq!(r.round_output_indices, vec![0, 4]);
    assert!(round_number::is_round(0));
    assert!(round_number::is_round(100_000));
    assert!(!round_number::is_round(100_001));

    let none = round_number::detect(&tx(inputs(1), vec![(123, p2wpkh(1))]));
    assert!(!none.detected);
    assert!(none.round_output_indices.is_empty());

    let cb = round_number::detect(&tx(vec![coinbase_input()], vec![(100_000, p2wpkh(1))]));
    assert!(!cb.detected);
}

#[test]
fn change_by_script_type_match() {
    let prev = coins(1, 1_000_000, p2wpkh(9));
    let t = tx(inputs(1), vec![(300_000, p2pkh(1)), (650_000, p2wpkh(2))]);
    let r = change_detection::detect(&t, &prev);
    assert!(r.detected);
    assert_eq!(r.likely_change_index, Some(1));
    assert_eq!(r.method, Some("script_type_match"));
    assert_eq!(r.confidence, Some("high"));
}

#[test]
fn change_by_round_number() {
    // One round output: the largest non-round output is change.
    let t = tx(inputs(1), vec![(500_000, p2wpkh(1)), (123_456, p2wpkh(2)), (223_456, p2wpkh(3))]);
    let r = change_detection::detect(&t, &coins(1, 1_000_000, p2wpkh(9)));
    assert!(r.detected);
    assert_eq!(r.likely_change_index, Some(2));
    assert_eq!(r.method, Some("round_number"));
    assert_eq!(r.confidence, Some("medium"));

    // One non-round output among round ones.
    let t = tx(inputs(1), vec![(500_000, p2wpkh(1)), (600_000, p2wpkh(2)), (1_234, p2wpkh(3))]);
    let r = change_detection::detect(&t, &[]);
    assert_eq!(r.likely_change_index, Some(2));
    assert_eq!(r.method, Some("round_number"));
    assert!(change_detection::is_round(100_000));
    assert!(!change_detection::is_round(0));
    assert!(!change_detection::is_round(100_001));
}

#[test]
fn change_by_largest_output() {
    let t = tx(inputs(1), vec![(5_000, p2wpkh(1)), (9_000, p2wpkh(2)), (9_000, p2wpkh(3)), (7, p2wpkh(4))]);
    let r = change_detection::detect(&t, &[]);
    assert!(r.detected);
    assert_eq!(r.likely_change_index, Some(2));
    assert_eq!(r.method, Some("largest_output"));
    assert_eq!(r.confidence, Some("low"));
}

#[test]
fn change_not_for_coinbase_or_single_output() {
    let cb = tx(vec![coinbase_input()], vec![(1, p2wpkh(1)), (2, p2wpkh(2))]);
    let r = change_detection::detect(&cb, &[]);
    assert!(!r.detected);
    assert_eq!(r.likely_change_index, None);
    assert_eq!(r.method, None);
    assert_eq!(r.confidence, None);
    let single = tx(inputs(1), vec![(1, p2wpkh(1))]);
    assert!(!change_detection::detect(&single, &[]).detected);
}

#[test]
fn address_reuse_lists_sorted_distinct_addresses() {
    let prev = vec![coin(5, p2wpkh(0x75)), coin(5, p2pkh(0x62))];
    let t = tx(
        inputs(2),
        vec![(1, p2pkh(0x62)), (1, p2wpkh(0x75)), (1, p2pkh(0x62)), (1, p2tr(3)), (0, op_return())],
    );
    let r = address_reuse::detect(&t, &prev);
    assert!(r.detected);
    assert_eq!(r.reused_addresses.len(), 2);
    assert!(r.reused_addresses[0] < r.reused_addresses[1]);
    assert!(r.reused_addresses.contains(&derive_address(&p2pkh(0x62)).unwrap()));
    assert!(r.reused_addresses.contains(&derive_address(&p2wpkh(0x75)).unwrap()));

    let fresh = tx(inputs(2), vec![(1, p2tr(3))]);
    let r = address_reuse::detect(&fresh, &prev);
    assert!(!r.detected);
    assert!(r.reused_addresses.is_empty());
    assert!(!address_reuse::detect(&t, &[]).detected);
}

// ---------------------------------------------------------------------------
// Classification and the pipeline.
// ---------------------------------------------------------------------------

fn labels_for(t: &RawTx, prev: &[UndoCoin]) -> &'static str {
    analyze_transaction(t, prev).classification
}

#[test]
fn classification_priorities() {
    let cb = tx(vec![coinbase_input()], vec![(50, p2pkh(1))]);
    assert_eq!(labels_for(&cb, &[]), "coinbase");

    let cj = tx(inputs(3), vec![(9, p2wpkh(1)), (9, p2tr(2)), (9, p2pkh(3))]);
    assert_eq!(labels_for(&cj, &coins(3, 10, p2wsh(1))), "coinjoin");

    let cons = tx(inputs(6), vec![(9, p2wpkh(1))]);
    assert_eq!(labels_for(&cons, &coins(6, 10, p2wpkh(2))), "consolidation");

    let st = tx(inputs(1), vec![(9, p2wpkh(1)), (8, p2wpkh(3))]);
    assert_eq!(labels_for(&st, &coins(1, 20, p2wpkh(2))), "self_transfer");

    let batch = tx(inputs(1), vec![(9, p2wpkh(1)), (8, p2tr(3)), (7, p2pkh(4))]);
    assert_eq!(labels_for(&batch, &coins(1, 30, p2wpkh(2))), "batch_payment");

    let simple = tx(inputs(1), vec![(9, p2tr(1)), (8, p2pkh(3))]);
    assert_eq!(labels_for(&simple, &coins(1, 30, p2wpkh(2))), "simple_payment");

    let data = tx(inputs(1), vec![(0, op_return())]);
    assert_eq!(labels_for(&data, &coins(1, 30, p2wpkh(2))), "unknown");
}

#[test]
fn coinbase_is_never_flagged() {
    let cb = tx(vec![coinbase_input()], vec![(100_000, p2wpkh(1)), (100_000, p2wpkh(1)), (100_000, p2wpkh(1))]);
    let a = analyze_transaction(&cb, &[]);
    assert_eq!(a.classification, "coinbase");
    assert!(!a.heuristics.cioh.detected);
    assert!(!a.heuristics.change_detection.detected);
    assert!(!a.heuristics.coinjoin.detected);
    assert!(!a.heuristics.consolidation.detected);
    assert!(!a.heuristics.address_reuse.detected);
    assert!(!a.heuristics.self_transfer.detected);
    assert!(!a.heuristics.round_number_payment.detected);
    assert!(!a.heuristics.any_detected());
    assert_eq!(a.txid, cb.txid);
}

#[test]
fn consolidation_is_also_a_self_transfer() {
    let cons = tx(inputs(7), vec![(9, p2pkh(1)), (3, p2pkh(2))]);
    let a = analyze_transaction(&cons, &coins(7, 10, p2pkh(5)));
    assert!(a.heuristics.consolidation.detected);
    assert!(a.heuristics.self_transfer.detected);
    assert_eq!(a.heuristics.self_transfer.uniform_script_type, a.heuristics.consolidation.uniform_script_type);
}

#[test]
fn coinjoin_always_has_common_inputs() {
    let cj = tx(inputs(4), vec![(9, p2wpkh(1)), (9, p2wpkh(2)), (9, p2wpkh(3))]);
    let a = analyze_transaction(&cj, &coins(4, 10, p2tr(1)));
    assert!(a.heuristics.coinjoin.detected);
    assert!(a.heuristics.cioh.detected);
}

#[test]
fn change_index_points_at_an_output() {
    let t = tx(inputs(2), vec![(5, p2wpkh(1)), (6, p2tr(2)), (7, p2pkh(3))]);
    let a = analyze_transaction(&t, &coins(2, 10, p2tr(1)));
    let i = a.heuristics.change_detection.likely_change_index.unwrap();
    assert!(i < t.outputs.len());
    assert_eq!(i, 1);
}

#[test]
fn classify_reads_the_given_results() {
    let t = tx(inputs(1), vec![(9, p2tr(1)), (8, p2pkh(3))]);
    let h: HeuristicResults = analyze_transaction(&t, &[]).heuristics;
    assert_eq!(classify(&t, &h), "simple_payment");
}

#[test]
fn output_types_in_order() {
    let t = tx(inputs(1), vec![(9, p2tr(1)), (0, op_return()), (8, vec![1, 2])]);
    let types = output_script_types(&t);
    assert_eq!(types.len(), 3);
    assert!(types[0] == ScriptType::P2tr);
    assert!(types[1] == ScriptType::OpReturn);
    assert!(types[2] == ScriptType::Unknown);
}

#[test]
fn prevouts_follow_the_undo_records() {
    let undo = BlockUndo {
        tx_undos: vec![
            TxUndo { prevouts: vec![coin(1, p2pkh(1))] },
            TxUndo { prevouts: vec![coin(2, p2pkh(2)), coin(3, p2pkh(3))] },
        ],
    };
    assert!(prevouts_for(&undo, 0).is_empty());
    assert_eq!(prevouts_for(&undo, 1).len(), 1);
    assert_eq!(prevouts_for(&undo, 1)[0].amount, 1);
    assert_eq!(prevouts_for(&undo, 2).len(), 2);
    assert_eq!(prevouts_for(&undo, 2)[1].amount, 3);
    assert!(prevouts_for(&undo, 3).is_empty());
}

// ---------------------------------------------------------------------------
// Coinbase height.
// ---------------------------------------------------------------------------

#[test]
fn bip34_heights() {
    assert_eq!(decode_bip34_height(&[0x03, 0xa0, 0x86, 0x01]), 100_000);
    assert_eq!(decode_bip34_height(&[0x03, 0x40, 0x0d, 0x03, 0xff]), 200_000);
    assert_eq!(decode_bip34_height(&[0x01, 0x07]), 7);
    assert_eq!(decode_bip34_height(&[]), 0);
    assert_eq!(decode_bip34_height(&[0x00, 0x05]), 0);
    assert_eq!(decode_bip34_height(&[0x03, 0x01]), 0);
    assert_eq!(decode_bip34_height(&[0x4c, 0x01, 0x02]), 0);
}

#[test]
fn change_choice_fits_its_method() {
    let cases: Vec<(RawTx, Vec<UndoCoin>)> = vec![
        (tx(inputs(1), vec![(300_000, p2pkh(1)), (650_000, p2wpkh(2))]), coins(1, 1_000_000, p2wpkh(9))),
        (tx(inputs(1), vec![(500_000, p2wpkh(1)), (123_456, p2wpkh(2))]), Vec::new()),
        (tx(inputs(1), vec![(5_000, p2wpkh(1)), (9_000, p2wpkh(2))]), Vec::new()),
    ];
    for (t, prev) in &cases {
        let r = change_detection::detect(t, prev);
        let i = r.likely_change_index.unwrap();
        let v = t.outputs[i].value as u64;
        match (r.method.unwrap(), r.confidence.unwrap()) {
            ("script_type_match", "high") => assert!(script_type(&t.outputs[i].script_pubkey) == ScriptType::P2wpkh),
            ("round_number", "medium") => assert!(v % 100_000 != 0),
            ("largest_output", "low") => assert!(t.outputs.iter().all(|o| o.value as u64 <= v)),
            other => panic!("unexpected method {:?}", other),
        }
    }
}
