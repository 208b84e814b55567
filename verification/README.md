# sherlock

A chain-analysis engine for Bitcoin Core block files, verified with Verus.

Given a `blk*.dat` file, its `rev*.dat` undo file and the `xor.dat`
obfuscation key, it decodes every block and the outputs each transaction
spends, runs seven privacy heuristics on every transaction (common input
ownership, change detection, CoinJoin, consolidation, address reuse,
self-transfer, round-number payments), labels each transaction, and writes a
JSON and a Markdown report. A small web server serves the reports.

## Layout

- `src/` — the verified library.
  - `parser/` — the wire formats: CompactSize and fixed-width integers
    (`varint`), transactions (`tx`), block files (`block`), undo files with
    Bitcoin Core's amount and script compression (`undo`), the XOR
    obfuscation (`xor`) and script disassembly (`script`). Each decoder is
    specified by a spec function over the bytes; `locality` and `reencode`
    prove that a transaction's decoding depends only on its own bytes and
    that a minimally encoded legacy transaction re-encodes to them.
  - `analysis/` — script templates and addresses, the heuristics, the
    classifier, fees, BIP34 heights, OP_RETURN payloads, the per-block and
    per-file totals (`block_report`, `summary`), and the laws that relate
    them (`pipeline`).
  - `markdown.rs`, `error.rs`, `files.rs`, `hash.rs`, `text.rs` — report
    text, the JSON error object, report file names, hashing and hex.
- `tests/` — tests of the library on concrete values.
- `app/` — the program: command line, file I/O, the JSON report (serde),
  the floating-point fee-rate statistics, and the web server (axum).

## Usage

```
sherlock --block <blk.dat> <rev.dat> <xor.dat>
sherlock --web [port]
```
