use vstd::prelude::*;
use vstd::string::StrSliceExecFns;

verus! {

/// Whether a character is alphabetic or numeric in Unicode's sense.
pub uninterp spec fn unicode_alphanumeric(c: char) -> bool;

/// Calls `char::is_alphanumeric`: the contract claims its answer is the
/// character's Unicode alphabetic-or-numeric property, named
/// `unicode_alphanumeric`; ASCII letters and digits have it.
#[verifier::external_body]
fn is_alphanumeric(c: char) -> (b: bool)
    ensures
        b == unicode_alphanumeric(c),
        ('a' <= c <= 'z' || 'A' <= c <= 'Z' || '0' <= c <= '9') ==> b,
{
    c.is_alphanumeric()
}

/// A character allowed in a report name: alphanumeric, `.`, `_` or `-`.
pub open spec fn allowed_name_char(c: char) -> bool {
    unicode_alphanumeric(c) || c == '.' || c == '_' || c == '-'
}

/// A report name may be served when every character is allowed (so it
/// cannot hold a path separator).
pub open spec fn safe_name(name: Seq<char>) -> bool {
    forall|i: int| 0 <= i < name.len() ==> allowed_name_char(#[trigger] name[i])
}

/// Whether `filename` may name a report file to serve.
pub fn is_safe_filename(filename: &str) -> (b: bool)
    ensures
        b == safe_name(filename@),
{
    let n = filename.unicode_len();
    let mut i: usize = 0;
    while i < n
        invariant
            n == filename@.len(),
            i <= n,
            forall|k: int| 0 <= k < i ==> allowed_name_char(#[trigger] filename@[k]),
        decreases n - i,
    {
        let c = filename.get_char(i);
        if !(is_alphanumeric(c) || c == '.' || c == '_' || c == '-') {
            assert(!allowed_name_char(filename@[i as int]));
            return false;
        }
        i = i + 1;
    }
    true
}

/// Report files are the JSON ones.
pub open spec fn is_report_name(name: Seq<char>) -> bool {
    name.len() >= 5 && name.subrange(name.len() - 5, name.len() as int) == seq![
        '.',
        'j',
        's',
        'o',
        'n',
    ]
}

/// Whether a directory entry's name ends in `.json`.
pub fn is_report_file(name: &str) -> (b: bool)
    ensures
        b == is_report_name(name@),
{
    let n = name.unicode_len();
    if n < 5 {
        return false;
    }
    let r = name.get_char(n - 5) == '.' && name.get_char(n - 4) == 'j' && name.get_char(n - 3)
        == 's' && name.get_char(n - 2) == 'o' && name.get_char(n - 1) == 'n';
    assert(r == (name@.subrange(n - 5, n as int) =~= seq!['.', 'j', 's', 'o', 'n']));
    r
}

} // verus!
