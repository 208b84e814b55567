use vstd::prelude::*;

use crate::analysis::classify::ScriptType;
use crate::analysis::summary::{HeuristicHits, ScriptTypeCounts};
use crate::text::{decimal, push_decimal, push_str};

verus! {

// ---------------------------------------------------------------------------
// Counted labels.
// ---------------------------------------------------------------------------

/// The script types in the alphabetical order of their names.
pub open spec fn types_by_name() -> Seq<ScriptType> {
    seq![
        ScriptType::OpReturn,
        ScriptType::P2pkh,
        ScriptType::P2sh,
        ScriptType::P2tr,
        ScriptType::P2wpkh,
        ScriptType::P2wsh,
        ScriptType::Unknown,
    ]
}

/// For the first `k` script types in name order, each one that was seen, with
/// its count.
pub open spec fn type_breakdown(c: ScriptTypeCounts, k: int) -> Seq<(&'static str, usize)>
    decreases k,
{
    if k <= 0 {
        Seq::empty()
    } else {
        let prev = type_breakdown(c, k - 1);
        let t = types_by_name()[k - 1];
        if c.count(t) > 0 {
            prev.push((t.label(), c.count(t) as usize))
        } else {
            prev
        }
    }
}

fn push_type_count(
    out: &mut Vec<(&'static str, usize)>,
    c: &ScriptTypeCounts,
    k: usize,
    t: ScriptType,
)
    requires
        1 <= k <= 7,
        t == types_by_name()[k - 1],
        old(out)@ == type_breakdown(*c, k - 1),
    ensures
        final(out)@ == type_breakdown(*c, k as int),
{
    let n = c.get(t);
    if n > 0 {
        out.push((t.as_str(), n));
    }
}

/// The script types that were seen, in the alphabetical order of their
/// names, with their counts.
pub fn script_type_breakdown(c: &ScriptTypeCounts) -> (rows: Vec<(&'static str, usize)>)
    ensures
        rows@ == type_breakdown(*c, 7),
{
    let mut out: Vec<(&'static str, usize)> = Vec::new();
    assert(out@ =~= type_breakdown(*c, 0));
    push_type_count(&mut out, c, 1, ScriptType::OpReturn);
    push_type_count(&mut out, c, 2, ScriptType::P2pkh);
    push_type_count(&mut out, c, 3, ScriptType::P2sh);
    push_type_count(&mut out, c, 4, ScriptType::P2tr);
    push_type_count(&mut out, c, 5, ScriptType::P2wpkh);
    push_type_count(&mut out, c, 6, ScriptType::P2wsh);
    push_type_count(&mut out, c, 7, ScriptType::Unknown);
    out
}

/// Each heuristic with the number of transactions it flagged, in the order
/// in which the heuristics are applied.
pub open spec fn hit_list(h: HeuristicHits) -> Seq<(&'static str, usize)> {
    seq![
        ("cioh", h.cioh),
        ("change_detection", h.change_detection),
        ("coinjoin", h.coinjoin),
        ("consolidation", h.consolidation),
        ("address_reuse", h.address_reuse),
        ("self_transfer", h.self_transfer),
        ("round_number_payment", h.round_number_payment),
    ]
}

/// The heuristic hits as labelled counts.
pub fn hit_rows(h: &HeuristicHits) -> (rows: Vec<(&'static str, usize)>)
    ensures
        rows@ == hit_list(*h),
{
    let rows = vec![
        ("cioh", h.cioh),
        ("change_detection", h.change_detection),
        ("coinjoin", h.coinjoin),
        ("consolidation", h.consolidation),
        ("address_reuse", h.address_reuse),
        ("self_transfer", h.self_transfer),
        ("round_number_payment", h.round_number_payment),
    ];
    assert(rows@ =~= hit_list(*h));
    rows
}

// ---------------------------------------------------------------------------
// Text.
// ---------------------------------------------------------------------------

/// One table row `| label | n |` and a newline.
pub open spec fn row_text(label: Seq<char>, n: nat) -> Seq<char> {
    "| "@ + label + " | "@ + decimal(n) + " |\n"@
}

/// One table row for each labelled count, in order.
pub open spec fn rows_text(rows: Seq<(&'static str, usize)>) -> Seq<char>
    decreases rows.len(),
{
    if rows.len() == 0 {
        Seq::empty()
    } else {
        rows_text(rows.drop_last()) + row_text(rows.last().0@, rows.last().1 as nat)
    }
}

/// `label=n`.
pub open spec fn pair_text(label: Seq<char>, n: nat) -> Seq<char> {
    label + "="@ + decimal(n)
}

/// The labelled counts as `label=n`, separated by a comma and a space.
pub open spec fn list_text(rows: Seq<(&'static str, usize)>) -> Seq<char>
    decreases rows.len(),
{
    if rows.len() == 0 {
        Seq::empty()
    } else if rows.len() == 1 {
        pair_text(rows[0].0@, rows[0].1 as nat)
    } else {
        list_text(rows.drop_last()) + ", "@ + pair_text(rows.last().0@, rows.last().1 as nat)
    }
}

/// A bulleted line `- **label:** n` and a newline.
pub open spec fn field_text(label: Seq<char>, n: nat) -> Seq<char> {
    "- **"@ + label + ":** "@ + decimal(n) + "\n"@
}

/// Appends one table row per labelled count.
pub fn push_rows(md: &mut String, rows: &[(&'static str, usize)])
    ensures
        final(md)@ == old(md)@ + rows_text(rows@),
{
    let ghost start = md@;
    let mut i: usize = 0;
    while i < rows.len()
        invariant
            i <= rows@.len(),
            md@ == start + rows_text(rows@.take(i as int)),
        decreases rows@.len() - i,
    {
        let (label, n) = rows[i];
        let ghost before = md@;
        push_str(md, "| ");
        push_str(md, label);
        push_str(md, " | ");
        push_decimal(md, n as u64);
        push_str(md, " |\n");
        proof {
            assert(rows@.take(i + 1).drop_last() =~= rows@.take(i as int));
            assert(md@ =~= before + row_text(label@, n as nat));
        }
        i = i + 1;
    }
    assert(rows@.take(rows@.len() as int) =~= rows@);
}

/// Appends the labelled counts as `label=n, label=n, ...`.
pub fn push_list(md: &mut String, rows: &[(&'static str, usize)])
    ensures
        final(md)@ == old(md)@ + list_text(rows@),
{
    let ghost start = md@;
    let mut i: usize = 0;
    while i < rows.len()
        invariant
            i <= rows@.len(),
            md@ == start + list_text(rows@.take(i as int)),
        decreases rows@.len() - i,
    {
        let (label, n) = rows[i];
        let ghost before = md@;
        if i > 0 {
            push_str(md, ", ");
        }
        push_str(md, label);
        push_str(md, "=");
        push_decimal(md, n as u64);
        proof {
            let nxt = rows@.take(i + 1);
            assert(nxt.drop_last() =~= rows@.take(i as int));
            if i == 0 {
                assert(md@ =~= start + pair_text(label@, n as nat));
            } else {
                assert(md@ =~= before + ", "@ + pair_text(label@, n as nat));
            }
        }
        i = i + 1;
    }
    assert(rows@.take(rows@.len() as int) =~= rows@);
}

/// Appends `- **label:** n` and a newline.
pub fn push_field(md: &mut String, label: &str, n: u64)
    ensures
        final(md)@ == old(md)@ + field_text(label@, n as nat),
{
    let ghost start = md@;
    push_str(md, "- **");
    push_str(md, label);
    push_str(md, ":** ");
    push_decimal(md, n);
    push_str(md, "\n");
    assert(md@ =~= start + field_text(label@, n as nat));
}

// ---------------------------------------------------------------------------
// Report sections.
// ---------------------------------------------------------------------------

/// The heuristics applied to every transaction, as the report lists them.
pub open spec fn heuristic_names() -> Seq<char> {
    "cioh, change_detection, coinjoin, consolidation, address_reuse, self_transfer, round_number_payment"@
}

/// The summary section: blocks, transactions, flagged transactions, and the
/// heuristics applied.
pub open spec fn summary_text(blocks: nat, txs: nat, flagged: nat) -> Seq<char> {
    "## Summary\n\n"@ + field_text("Blocks analyzed"@, blocks) + field_text(
        "Total transactions"@,
        txs,
    ) + field_text("Flagged transactions"@, flagged) + "- **Heuristic applied:** "@
        + heuristic_names() + "\n\n"@
}

/// Appends the summary section.
pub fn push_summary(md: &mut String, blocks: u64, txs: u64, flagged: u64)
    ensures
        final(md)@ == old(md)@ + summary_text(blocks as nat, txs as nat, flagged as nat),
{
    let ghost start = md@;
    push_str(md, "## Summary\n\n");
    push_field(md, "Blocks analyzed", blocks);
    push_field(md, "Total transactions", txs);
    push_field(md, "Flagged transactions", flagged);
    push_str(md, "- **Heuristic applied:** ");
    push_str(
        md,
        "cioh, change_detection, coinjoin, consolidation, address_reuse, self_transfer, round_number_payment",
    );
    push_str(md, "\n\n");
    assert(md@ =~= start + summary_text(blocks as nat, txs as nat, flagged as nat));
}

/// A table section: its title, the column heads and rule, one row per
/// labelled count, and an empty line.
pub open spec fn table_text(head: Seq<char>, rows: Seq<(&'static str, usize)>) -> Seq<char> {
    head + rows_text(rows) + "\n"@
}

/// Appends the script type distribution table.
pub fn push_script_type_section(md: &mut String, c: &ScriptTypeCounts)
    ensures
        final(md)@ == old(md)@ + table_text(
            "## Script Type Distribution\n\n| Type | Count |\n|------|-------|\n"@,
            type_breakdown(*c, 7),
        ),
{
    let ghost start = md@;
    push_str(md, "## Script Type Distribution\n\n| Type | Count |\n|------|-------|\n");
    let rows = script_type_breakdown(c);
    push_rows(md, rows.as_slice());
    push_str(md, "\n");
    assert(md@ =~= start + table_text(
        "## Script Type Distribution\n\n| Type | Count |\n|------|-------|\n"@,
        type_breakdown(*c, 7),
    ));
}

/// Appends the classification table for the given label counts.
pub fn push_classification_section(md: &mut String, counts: &[(&'static str, usize)])
    ensures
        final(md)@ == old(md)@ + table_text(
            "## Transaction Classification\n\n| Classification | Count |\n|----------------|-------|\n"@,
            counts@,
        ),
{
    let ghost start = md@;
    push_str(md, "## Transaction Classification\n\n| Classification | Count |\n|----------------|-------|\n");
    push_rows(md, counts);
    push_str(md, "\n");
    assert(md@ =~= start + table_text(
        "## Transaction Classification\n\n| Classification | Count |\n|----------------|-------|\n"@,
        counts@,
    ));
}

/// Appends the table of heuristic hits.
pub fn push_heuristic_section(md: &mut String, h: &HeuristicHits)
    ensures
        final(md)@ == old(md)@ + table_text(
            "## Heuristic Hit Summary\n\n| Heuristic | Transactions Flagged |\n|-----------|---------------------|\n"@,
            hit_list(*h),
        ),
{
    let ghost start = md@;
    push_str(
        md,
        "## Heuristic Hit Summary\n\n| Heuristic | Transactions Flagged |\n|-----------|---------------------|\n",
    );
    let rows = hit_rows(h);
    push_rows(md, rows.as_slice());
    push_str(md, "\n");
    assert(md@ =~= start + table_text(
        "## Heuristic Hit Summary\n\n| Heuristic | Transactions Flagged |\n|-----------|---------------------|\n"@,
        hit_list(*h),
    ));
}

/// The head of one block's details: its position and height, its hash, its
/// transaction count and how many were flagged.
pub open spec fn block_head_text(
    index: nat,
    height: nat,
    hash: Seq<char>,
    txs: nat,
    flagged: nat,
) -> Seq<char> {
    "### Block "@ + decimal(index) + ": height "@ + decimal(height) + "\n\n"@ + "- **Hash:** `"@
        + hash + "`\n"@ + field_text("Transactions"@, txs) + field_text("Flagged"@, flagged)
}

/// Appends the head of one block's details.
pub fn push_block_head(md: &mut String, index: u64, height: u64, hash: &str, txs: u64, flagged: u64)
    ensures
        final(md)@ == old(md)@ + block_head_text(
            index as nat,
            height as nat,
            hash@,
            txs as nat,
            flagged as nat,
        ),
{
    let ghost start = md@;
    push_str(md, "### Block ");
    push_decimal(md, index);
    push_str(md, ": height ");
    push_decimal(md, height);
    push_str(md, "\n\n");
    push_str(md, "- **Hash:** `");
    push_str(md, hash);
    push_str(md, "`\n");
    push_field(md, "Transactions", txs);
    push_field(md, "Flagged", flagged);
    assert(md@ =~= start + block_head_text(
        index as nat,
        height as nat,
        hash@,
        txs as nat,
        flagged as nat,
    ));
}

/// The last line of one block's details: its classification counts, then an
/// empty line.
pub open spec fn block_classes_text(counts: Seq<(&'static str, usize)>) -> Seq<char> {
    "- **Classifications:** "@ + list_text(counts) + "\n\n"@
}

/// Appends the last line of one block's details.
pub fn push_block_classes(md: &mut String, counts: &[(&'static str, usize)])
    ensures
        final(md)@ == old(md)@ + block_classes_text(counts@),
{
    let ghost start = md@;
    push_str(md, "- **Classifications:** ");
    push_list(md, counts);
    push_str(md, "\n\n");
    assert(md@ =~= start + block_classes_text(counts@));
}

} // verus!
