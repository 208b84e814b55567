use vstd::prelude::*;

use crate::hash::{hex_of, to_hex};
use crate::parser::varint::{le2, le4};
use crate::text::{decimal, join_spaced, push_char, push_decimal, push_str};

verus! {

/// The name of a non-push opcode; `OP_UNKNOWN` for bytes without a name here.
pub open spec fn opcode_label(op: u8) -> &'static str {
    match op {
        0x00 => "OP_0",
        0x4f => "OP_1NEGATE",
        0x51 => "OP_1",
        0x52 => "OP_2",
        0x53 => "OP_3",
        0x54 => "OP_4",
        0x55 => "OP_5",
        0x56 => "OP_6",
        0x57 => "OP_7",
        0x58 => "OP_8",
        0x59 => "OP_9",
        0x5a => "OP_10",
        0x5b => "OP_11",
        0x5c => "OP_12",
        0x5d => "OP_13",
        0x5e => "OP_14",
        0x5f => "OP_15",
        0x60 => "OP_16",
        0x61 => "OP_NOP",
        0x63 => "OP_IF",
        0x64 => "OP_NOTIF",
        0x67 => "OP_ELSE",
        0x68 => "OP_ENDIF",
        0x69 => "OP_VERIFY",
        0x6a => "OP_RETURN",
        0x6b => "OP_TOALTSTACK",
        0x6c => "OP_FROMALTSTACK",
        0x73 => "OP_IFDUP",
        0x74 => "OP_DEPTH",
        0x75 => "OP_DROP",
        0x76 => "OP_DUP",
        0x77 => "OP_NIP",
        0x78 => "OP_OVER",
        0x79 => "OP_PICK",
        0x7a => "OP_ROLL",
        0x7b => "OP_ROT",
        0x7c => "OP_SWAP",
        0x7d => "OP_TUCK",
        0x6d => "OP_2DROP",
        0x6e => "OP_2DUP",
        0x6f => "OP_3DUP",
        0x70 => "OP_2OVER",
        0x71 => "OP_2ROT",
        0x72 => "OP_2SWAP",
        0x7e => "OP_CAT",
        0x82 => "OP_SIZE",
        0x87 => "OP_EQUAL",
        0x88 => "OP_EQUALVERIFY",
        0x8b => "OP_1ADD",
        0x8c => "OP_1SUB",
        0x8f => "OP_NEGATE",
        0x90 => "OP_ABS",
        0x91 => "OP_NOT",
        0x92 => "OP_0NOTEQUAL",
        0x93 => "OP_ADD",
        0x94 => "OP_SUB",
        0x9a => "OP_BOOLAND",
        0x9b => "OP_BOOLOR",
        0x9c => "OP_NUMEQUAL",
        0x9d => "OP_NUMEQUALVERIFY",
        0x9e => "OP_NUMNOTEQUAL",
        0x9f => "OP_LESSTHAN",
        0xa0 => "OP_GREATERTHAN",
        0xa1 => "OP_LESSTHANOREQUAL",
        0xa2 => "OP_GREATERTHANOREQUAL",
        0xa3 => "OP_MIN",
        0xa4 => "OP_MAX",
        0xa5 => "OP_WITHIN",
        0xa6 => "OP_RIPEMD160",
        0xa7 => "OP_SHA1",
        0xa8 => "OP_SHA256",
        0xa9 => "OP_HASH160",
        0xaa => "OP_HASH256",
        0xab => "OP_CODESEPARATOR",
        0xac => "OP_CHECKSIG",
        0xad => "OP_CHECKSIGVERIFY",
        0xae => "OP_CHECKMULTISIG",
        0xaf => "OP_CHECKMULTISIGVERIFY",
        0xb1 => "OP_CHECKLOCKTIMEVERIFY",
        0xb2 => "OP_CHECKSEQUENCEVERIFY",
        0xb0 => "OP_NOP1",
        0xb3 => "OP_NOP4",
        0xb4 => "OP_NOP5",
        0xb5 => "OP_NOP6",
        0xb6 => "OP_NOP7",
        0xb7 => "OP_NOP8",
        0xb8 => "OP_NOP9",
        0xb9 => "OP_NOP10",
        0xba => "OP_CHECKSIGADD",
        _ => "OP_UNKNOWN",
    }
}

/// The name of a non-push opcode.
pub fn opcode_name(op: u8) -> (name: &'static str)
    ensures
        name == opcode_label(op),
{
    match op {
        0x00 => "OP_0",
        0x4f => "OP_1NEGATE",
        0x51 => "OP_1",
        0x52 => "OP_2",
        0x53 => "OP_3",
        0x54 => "OP_4",
        0x55 => "OP_5",
        0x56 => "OP_6",
        0x57 => "OP_7",
        0x58 => "OP_8",
        0x59 => "OP_9",
        0x5a => "OP_10",
        0x5b => "OP_11",
        0x5c => "OP_12",
        0x5d => "OP_13",
        0x5e => "OP_14",
        0x5f => "OP_15",
        0x60 => "OP_16",
        0x61 => "OP_NOP",
        0x63 => "OP_IF",
        0x64 => "OP_NOTIF",
        0x67 => "OP_ELSE",
        0x68 => "OP_ENDIF",
        0x69 => "OP_VERIFY",
        0x6a => "OP_RETURN",
        0x6b => "OP_TOALTSTACK",
        0x6c => "OP_FROMALTSTACK",
        0x73 => "OP_IFDUP",
        0x74 => "OP_DEPTH",
        0x75 => "OP_DROP",
        0x76 => "OP_DUP",
        0x77 => "OP_NIP",
        0x78 => "OP_OVER",
        0x79 => "OP_PICK",
        0x7a => "OP_ROLL",
        0x7b => "OP_ROT",
        0x7c => "OP_SWAP",
        0x7d => "OP_TUCK",
        0x6d => "OP_2DROP",
        0x6e => "OP_2DUP",
        0x6f => "OP_3DUP",
        0x70 => "OP_2OVER",
        0x71 => "OP_2ROT",
        0x72 => "OP_2SWAP",
        0x7e => "OP_CAT",
        0x82 => "OP_SIZE",
        0x87 => "OP_EQUAL",
        0x88 => "OP_EQUALVERIFY",
        0x8b => "OP_1ADD",
        0x8c => "OP_1SUB",
        0x8f => "OP_NEGATE",
        0x90 => "OP_ABS",
        0x91 => "OP_NOT",
        0x92 => "OP_0NOTEQUAL",
        0x93 => "OP_ADD",
        0x94 => "OP_SUB",
        0x9a => "OP_BOOLAND",
        0x9b => "OP_BOOLOR",
        0x9c => "OP_NUMEQUAL",
        0x9d => "OP_NUMEQUALVERIFY",
        0x9e => "OP_NUMNOTEQUAL",
        0x9f => "OP_LESSTHAN",
        0xa0 => "OP_GREATERTHAN",
        0xa1 => "OP_LESSTHANOREQUAL",
        0xa2 => "OP_GREATERTHANOREQUAL",
        0xa3 => "OP_MIN",
        0xa4 => "OP_MAX",
        0xa5 => "OP_WITHIN",
        0xa6 => "OP_RIPEMD160",
        0xa7 => "OP_SHA1",
        0xa8 => "OP_SHA256",
        0xa9 => "OP_HASH160",
        0xaa => "OP_HASH256",
        0xab => "OP_CODESEPARATOR",
        0xac => "OP_CHECKSIG",
        0xad => "OP_CHECKSIGVERIFY",
        0xae => "OP_CHECKMULTISIG",
        0xaf => "OP_CHECKMULTISIGVERIFY",
        0xb1 => "OP_CHECKLOCKTIMEVERIFY",
        0xb2 => "OP_CHECKSEQUENCEVERIFY",
        0xb0 => "OP_NOP1",
        0xb3 => "OP_NOP4",
        0xb4 => "OP_NOP5",
        0xb5 => "OP_NOP6",
        0xb6 => "OP_NOP7",
        0xb7 => "OP_NOP8",
        0xb8 => "OP_NOP9",
        0xb9 => "OP_NOP10",
        0xba => "OP_CHECKSIGADD",
        _ => "OP_UNKNOWN",
    }
}

/// A push of `n` bytes that may run past the end: the words for the push
/// opcode and the hexadecimal data, then the words for the rest of the
/// script from `k` (nothing more when the data was cut short).
pub open spec fn push_words(s: Seq<u8>, opname: Seq<char>, k: int, n: int) -> Seq<Seq<char>>
    decreases 2 * (s.len() - k) + 2,
{
    if 0 <= k <= s.len() && 0 <= n && k + n <= s.len() {
        seq![opname, hex_of(s.subrange(k, k + n))] + script_words(s, k + n)
    } else {
        seq![opname, hex_of(s.subrange(k, s.len() as int))]
    }
}

/// The words of the disassembly of `s` from position `i`: direct pushes
/// `OP_PUSHBYTES_n`, `OP_PUSHDATA1/2/4` with their data in hexadecimal, and
/// opcode names for everything else. A `PUSHDATA` whose length field is cut
/// short is skipped and its length bytes are read as opcodes.
pub open spec fn script_words(s: Seq<u8>, i: int) -> Seq<Seq<char>>
    decreases 2 * (s.len() - i) + 1,
{
    if i < 0 || i >= s.len() {
        Seq::empty()
    } else {
        let op = s[i];
        let j = i + 1;
        if 0x01 <= op <= 0x4b {
            push_words(s, "OP_PUSHBYTES_"@ + decimal(op as nat), j, op as int)
        } else if op == 0x4c {
            if j < s.len() {
                push_words(s, "OP_PUSHDATA1"@, j + 1, s[j] as int)
            } else {
                script_words(s, j)
            }
        } else if op == 0x4d {
            if j + 2 <= s.len() {
                push_words(s, "OP_PUSHDATA2"@, j + 2, le2(s, j) as int)
            } else {
                script_words(s, j)
            }
        } else if op == 0x4e {
            if j + 4 <= s.len() {
                push_words(s, "OP_PUSHDATA4"@, j + 4, le4(s, j) as int)
            } else {
                script_words(s, j)
            }
        } else {
            seq![opcode_label(op)@] + script_words(s, j)
        }
    }
}

/// Appends one word of the disassembly: a space first unless it is the first.
fn push_word(out: &mut String, words: Ghost<Seq<Seq<char>>>, first: bool, word: &str)
    requires
        old(out)@ == join_spaced(words@),
        first == (words@.len() == 0),
    ensures
        final(out)@ == join_spaced(words@.push(word@)),
{
    if !first {
        push_char(out, ' ');
    }
    push_str(out, word);
    assert(words@.push(word@).drop_last() =~= words@);
}

/// Human-readable disassembly of a script: its words separated by spaces.
pub fn disassemble(script: &[u8]) -> (text: String)
    ensures
        text@ == join_spaced(script_words(script@, 0)),
{
    let ghost s = script@;
    let mut out = String::new();
    let ghost mut words: Seq<Seq<char>> = Seq::empty();
    let len = script.len();
    let mut i: usize = 0;
    let mut first = true;
    while i < len
        invariant_except_break
            words + script_words(s, i as int) == script_words(s, 0),
        invariant
            s == script@,
            first == (words.len() == 0),
            len == s.len(),
            i <= len,
            out@ == join_spaced(words),
        ensures
            words == script_words(s, 0),
            out@ == join_spaced(words),
        decreases len - i,
    {
        let (next, still_empty, words2) = disassemble_step(&mut out, Ghost(words), first, script, i);
        proof {
            words = words2@;
        }
        first = still_empty;
        match next {
            Some(k) => {
                i = k;
            },
            None => {
                assert(words + Seq::<Seq<char>>::empty() =~= words);
                break;
            },
        }
    }
    assert(words + Seq::<Seq<char>>::empty() =~= words);
    out
}

/// Writes the words of the instruction at `i` (a `PUSHDATA` with its length
/// cut short writes nothing). Returns where the next instruction starts, or
/// `None` when a push ran past the end.
fn disassemble_step(
    out: &mut String,
    words: Ghost<Seq<Seq<char>>>,
    first: bool,
    script: &[u8],
    i: usize,
) -> (r: (Option<usize>, bool, Ghost<Seq<Seq<char>>>))
    requires
        old(out)@ == join_spaced(words@),
        first == (words@.len() == 0),
        i < script@.len(),
    ensures
        final(out)@ == join_spaced(r.2@),
        r.1 == (r.2@.len() == 0),
        r.2@ + (match r.0 {
            Some(next) => script_words(script@, next as int),
            None => Seq::empty(),
        }) == words@ + script_words(script@, i as int),
        match r.0 {
            Some(next) => i < next <= script@.len(),
            None => true,
        },
{
    let len = script.len();
    let op = script[i];
    let j = i + 1;
    if 0x01 <= op && op <= 0x4b {
        let mut name = String::new();
        push_str(&mut name, "OP_PUSHBYTES_");
        push_decimal(&mut name, op as u64);
        assert(name@ =~= "OP_PUSHBYTES_"@ + decimal(op as nat));
        assert(script_words(script@, i as int) == push_words(script@, name@, j as int, op as int));
        let (next, w) = emit_push(out, words, first, script, name.as_str(), j, op as usize);
        (next, false, w)
    } else if op == 0x4c {
        if j < len {
            let n = script[j] as usize;
            assert(script_words(script@, i as int) == push_words(script@, "OP_PUSHDATA1"@, j + 1, n as int));
            let (next, w) = emit_push(out, words, first, script, "OP_PUSHDATA1", j + 1, n);
            (next, false, w)
        } else {
            (Some(j), first, words)
        }
    } else if op == 0x4d {
        if len - j >= 2 {
            let n = script[j] as usize + 256 * (script[j + 1] as usize);
            assert(script_words(script@, i as int) == push_words(script@, "OP_PUSHDATA2"@, j + 2, n as int));
            let (next, w) = emit_push(out, words, first, script, "OP_PUSHDATA2", j + 2, n);
            (next, false, w)
        } else {
            (Some(j), first, words)
        }
    } else if op == 0x4e {
        if len - j >= 4 {
            let n = script[j] as u64 + 256 * (script[j + 1] as u64) + 65536 * (script[j + 2] as u64
                + 256 * (script[j + 3] as u64));
            assert(n == le4(script@, j as int));
            let ghost raw_n = n as int;
            let n = if n <= (len - j - 4) as u64 {
                n as usize
            } else {
                len
            };
            assert(push_words(script@, "OP_PUSHDATA4"@, j + 4, raw_n) == push_words(script@, "OP_PUSHDATA4"@, j + 4, n as int));
            assert(script_words(script@, i as int) == push_words(script@, "OP_PUSHDATA4"@, j + 4, n as int));
            let (next, w) = emit_push(out, words, first, script, "OP_PUSHDATA4", j + 4, n);
            (next, false, w)
        } else {
            (Some(j), first, words)
        }
    } else {
        let name = opcode_name(op);
        push_word(out, words, first, name);
        assert(words@.push(name@) + script_words(script@, j as int) =~= words@ + (seq![name@]
            + script_words(script@, j as int)));
        (Some(j), false, Ghost(words@.push(name@)))
    }
}

/// Writes a push of `n` bytes from `k`: the opcode word and the data in
/// hexadecimal, which stops at the end of the script if the push runs past
/// it. Returns the position after the data, or `None` when it ran past.
fn emit_push(
    out: &mut String,
    words: Ghost<Seq<Seq<char>>>,
    first: bool,
    script: &[u8],
    opname: &str,
    k: usize,
    n: usize,
) -> (r: (Option<usize>, Ghost<Seq<Seq<char>>>))
    requires
        old(out)@ == join_spaced(words@),
        first == (words@.len() == 0),
        k <= script@.len(),
    ensures
        final(out)@ == join_spaced(r.1@),
        r.1@.len() > 0,
        r.1@ + (match r.0 {
            Some(next) => script_words(script@, next as int),
            None => Seq::empty(),
        }) == words@ + push_words(script@, opname@, k as int, n as int),
        match r.0 {
            Some(next) => k <= next <= script@.len() && next == k + n,
            None => true,
        },
{
    push_word(out, words, first, opname);
    let ghost w1 = words@.push(opname@);
    let len = script.len();
    if n <= len - k {
        let data = vstd::slice::slice_subrange(script, k, k + n);
        let hex = to_hex(data);
        push_word(out, Ghost(w1), false, hex.as_str());
        let ghost w2 = w1.push(hex@);
        assert(w2 + script_words(script@, (k + n) as int) =~= words@ + push_words(
            script@,
            opname@,
            k as int,
            n as int,
        ));
        (Some(k + n), Ghost(w2))
    } else {
        let data = vstd::slice::slice_subrange(script, k, len);
        let hex = to_hex(data);
        push_word(out, Ghost(w1), false, hex.as_str());
        let ghost w2 = w1.push(hex@);
        assert(w2 + Seq::<Seq<char>>::empty() =~= words@ + push_words(
            script@,
            opname@,
            k as int,
            n as int,
        ));
        (None, Ghost(w2))
    }
}

} // verus!
