use vstd::prelude::*;

use crate::parser::varint::le2;
use crate::parser::wire::append_bytes;

verus! {

/// The bytes pushed by an OP_RETURN script from position `i`: direct pushes
/// and `PUSHDATA1/2` contribute their data (cut at the end of the script),
/// `OP_0` contributes nothing, and any other opcode ends the data.
pub open spec fn pushed_data_from(s: Seq<u8>, i: int) -> Seq<u8>
    decreases s.len() - i,
{
    if i < 0 || i >= s.len() {
        Seq::empty()
    } else {
        let op = s[i];
        let j = i + 1;
        if 0x01 <= op <= 0x4b {
            let n = op as int;
            if j + n <= s.len() {
                s.subrange(j, j + n) + pushed_data_from(s, j + n)
            } else {
                s.subrange(j, s.len() as int)
            }
        } else if op == 0x4c {
            if j < s.len() {
                let n = s[j] as int;
                let k = j + 1;
                if k + n <= s.len() {
                    s.subrange(k, k + n) + pushed_data_from(s, k + n)
                } else {
                    s.subrange(k, s.len() as int)
                }
            } else {
                Seq::empty()
            }
        } else if op == 0x4d {
            if j + 2 <= s.len() {
                let n = le2(s, j) as int;
                let k = j + 2;
                if k + n <= s.len() {
                    s.subrange(k, k + n) + pushed_data_from(s, k + n)
                } else {
                    s.subrange(k, s.len() as int)
                }
            } else {
                pushed_data_from(s, j)
            }
        } else if op == 0x00 {
            pushed_data_from(s, j)
        } else {
            Seq::empty()
        }
    }
}

/// The data carried by an OP_RETURN output; empty for any other script.
pub open spec fn op_return_data(script: Seq<u8>) -> Seq<u8> {
    if script.len() == 0 || script[0] != 0x6a {
        Seq::empty()
    } else {
        pushed_data_from(script, 1)
    }
}

/// The data pushed after the OP_RETURN of `script_pubkey`.
pub fn extract_op_return_data(script_pubkey: &[u8]) -> (data: Vec<u8>)
    ensures
        data@ == op_return_data(script_pubkey@),
{
    let ghost s = script_pubkey@;
    let mut data: Vec<u8> = Vec::new();
    if script_pubkey.len() == 0 || script_pubkey[0] != 0x6a {
        return data;
    }
    let len = script_pubkey.len();
    let mut i: usize = 1;
    while i < len
        invariant_except_break
            data@ + pushed_data_from(s, i as int) == op_return_data(s),
        invariant
            s == script_pubkey@,
            len == s.len(),
            1 <= i <= len,
        ensures
            data@ == op_return_data(s),
        decreases len - i,
    {
        let ghost before = data@;
        let op = script_pubkey[i];
        let j = i + 1;
        if 0x01 <= op && op <= 0x4b {
            let n = op as usize;
            if n <= len - j {
                append_bytes(&mut data, vstd::slice::slice_subrange(script_pubkey, j, j + n));
                assert(data@ + pushed_data_from(s, (j + n) as int) =~= before + pushed_data_from(
                    s,
                    i as int,
                ));
                i = j + n;
            } else {
                append_bytes(&mut data, vstd::slice::slice_subrange(script_pubkey, j, len));
                assert(data@ =~= before + pushed_data_from(s, i as int));
                break;
            }
        } else if op == 0x4c {
            if j < len {
                let n = script_pubkey[j] as usize;
                let k = j + 1;
                if n <= len - k {
                    append_bytes(&mut data, vstd::slice::slice_subrange(script_pubkey, k, k + n));
                    assert(data@ + pushed_data_from(s, (k + n) as int) =~= before
                        + pushed_data_from(s, i as int));
                    i = k + n;
                } else {
                    append_bytes(&mut data, vstd::slice::slice_subrange(script_pubkey, k, len));
                    assert(data@ =~= before + pushed_data_from(s, i as int));
                    break;
                }
            } else {
                assert(data@ =~= before + pushed_data_from(s, i as int));
                break;
            }
        } else if op == 0x4d {
            if len - j >= 2 {
                let n = script_pubkey[j] as usize + 256 * (script_pubkey[j + 1] as usize);
                let k = j + 2;
                if n <= len - k {
                    append_bytes(&mut data, vstd::slice::slice_subrange(script_pubkey, k, k + n));
                    assert(data@ + pushed_data_from(s, (k + n) as int) =~= before
                        + pushed_data_from(s, i as int));
                    i = k + n;
                } else {
                    append_bytes(&mut data, vstd::slice::slice_subrange(script_pubkey, k, len));
                    assert(data@ =~= before + pushed_data_from(s, i as int));
                    break;
                }
            } else {
                i = j;
            }
        } else if op == 0x00 {
            i = j;
        } else {
            assert(data@ =~= before + pushed_data_from(s, i as int));
            break;
        }
    }
    proof {
        if i >= len {
            assert(data@ + Seq::<u8>::empty() =~= data@);
        }
    }
    data
}

/// The protocol an OP_RETURN payload announces by its first bytes.
pub open spec fn protocol_of(data: Seq<u8>) -> &'static str {
    if data.len() >= 4 && data[0] == 0x6f && data[1] == 0x6d && data[2] == 0x6e && data[3] == 0x69 {
        "omni"
    } else if data.len() >= 5 && data[0] == 0x01 && data[1] == 0x09 && data[2] == 0xf9 && data[3]
        == 0x11 && data[4] == 0x02 {
        "opentimestamps"
    } else {
        "unknown"
    }
}

/// Names the protocol of an OP_RETURN payload: Omni Layer (`omni`),
/// OpenTimestamps, or `unknown`.
pub fn detect_protocol(data: &[u8]) -> (p: &'static str)
    ensures
        p == protocol_of(data@),
{
    if data.len() >= 4 && data[0] == 0x6f && data[1] == 0x6d && data[2] == 0x6e && data[3] == 0x69 {
        return "omni";
    }
    if data.len() >= 5 && data[0] == 0x01 && data[1] == 0x09 && data[2] == 0xf9 && data[3] == 0x11
        && data[4] == 0x02 {
        return "opentimestamps";
    }
    "unknown"
}

/// Calls `std::str::from_utf8`: the contract claims it succeeds exactly on
/// valid UTF-8 and then yields the characters that the bytes encode, as the
/// standard library documents.
#[verifier::external_body]
fn utf8_str(data: &[u8]) -> (r: Option<&str>)
    ensures
        r is Some <==> vstd::utf8::valid_utf8(data@),
        r is Some ==> r->Some_0@ == vstd::utf8::decode_utf8(data@),
{
    std::str::from_utf8(data).ok()
}

/// The payload as text, when it is valid UTF-8.
pub fn try_utf8(data: &[u8]) -> (r: Option<String>)
    ensures
        r is Some <==> vstd::utf8::valid_utf8(data@),
        r is Some ==> r->Some_0@ == vstd::utf8::decode_utf8(data@),
{
    match utf8_str(data) {
        Some(s) => Some(s.to_owned()),
        None => None,
    }
}

} // verus!
