use vstd::prelude::*;
use vstd::string::StrSliceExecFns;

use crate::text::{push_char, push_str};

verus! {

/// One character of a JSON string body: backslash and double quote get a
/// backslash before them.
pub open spec fn escape_char(c: char) -> Seq<char> {
    if c == '\\' {
        seq!['\\', '\\']
    } else if c == '"' {
        seq!['\\', '"']
    } else {
        seq![c]
    }
}

/// `s` with every backslash and double quote escaped.
pub open spec fn escape_text(s: Seq<char>) -> Seq<char>
    decreases s.len(),
{
    if s.len() == 0 {
        Seq::empty()
    } else {
        escape_text(s.drop_last()) + escape_char(s.last())
    }
}

/// The JSON error object
/// `{"ok":false,"error":{"code":"<code>","message":"<message>"}}`, with the
/// message escaped (the code is written as given).
pub open spec fn error_object(code: Seq<char>, msg: Seq<char>) -> Seq<char> {
    "{\"ok\":false,\"error\":{\"code\":\""@ + code + "\",\"message\":\""@ + escape_text(msg) + "\"}}"@
}

/// The JSON error object reported on failure.
pub fn error_json(code: &str, msg: &str) -> (json: String)
    ensures
        json@ == error_object(code@, msg@),
{
    let mut out = String::new();
    push_str(&mut out, "{\"ok\":false,\"error\":{\"code\":\"");
    push_str(&mut out, code);
    push_str(&mut out, "\",\"message\":\"");
    let ghost head = out@;
    let n = msg.unicode_len();
    let mut i: usize = 0;
    while i < n
        invariant
            n == msg@.len(),
            i <= n,
            out@ == head + escape_text(msg@.take(i as int)),
        decreases n - i,
    {
        let c = msg.get_char(i);
        assert(msg@.take(i + 1).drop_last() =~= msg@.take(i as int));
        let ghost before = out@;
        if c == '\\' {
            push_char(&mut out, '\\');
            push_char(&mut out, '\\');
        } else if c == '"' {
            push_char(&mut out, '\\');
            push_char(&mut out, '"');
        } else {
            push_char(&mut out, c);
        }
        assert(out@ =~= before + escape_char(c));
        i = i + 1;
    }
    assert(msg@.take(n as int) =~= msg@);
    push_str(&mut out, "\"}}");
    assert(out@ =~= error_object(code@, msg@));
    out
}

} // verus!
