use sha2::Digest;
use vstd::prelude::*;

verus! {

/// The SHA-256 digest of `data` (FIPS 180-4).
pub uninterp spec fn sha256(data: Seq<u8>) -> Seq<u8>;

/// SHA-256 applied twice, as Bitcoin hashes headers and transactions.
pub open spec fn double_sha256(data: Seq<u8>) -> Seq<u8> {
    sha256(sha256(data))
}

/// The lowercase hexadecimal digit for `d < 16`.
pub open spec fn hex_digit(d: nat) -> char {
    if d < 10 {
        (48 + d) as char
    } else {
        (87 + d) as char
    }
}

/// Lowercase hexadecimal text of `data`: two digits per byte, high nibble
/// first.
pub open spec fn hex_of(data: Seq<u8>) -> Seq<char>
    decreases data.len(),
{
    if data.len() == 0 {
        Seq::empty()
    } else {
        seq![hex_digit(data[0] as nat / 16), hex_digit(data[0] as nat % 16)] + hex_of(
            data.drop_first(),
        )
    }
}

/// Hexadecimal text of a hash in the byte order that Bitcoin displays:
/// the last byte first.
pub open spec fn display_hex(hash: Seq<u8>) -> Seq<char> {
    hex_of(hash.reverse())
}

/// Calls `sha2::Sha256::digest`: the contract claims the 32 bytes returned are
/// the SHA-256 digest of `data`, named by `sha256`.
#[verifier::external_body]
fn sha256_digest(data: &[u8]) -> (out: [u8; 32])
    ensures
        out@ == sha256(data@),
{
    sha2::Sha256::digest(data).into()
}

/// Calls `hex::encode`: the contract claims it returns the lowercase hexadecimal
/// text of `data`, two digits per byte (the crate's `HEX_CHARS_LOWER` table).
#[verifier::external_body]
fn hex_lower(data: &[u8]) -> (out: String)
    ensures
        out@ == hex_of(data@),
{
    hex::encode(data)
}

/// Double SHA-256 of `data`.
pub fn sha256d(data: &[u8]) -> (out: [u8; 32])
    ensures
        out@ == double_sha256(data@),
{
    let first = sha256_digest(data);
    sha256_digest(first.as_slice())
}

/// Hexadecimal text of a 32-byte hash, last byte first.
pub fn to_display_hex(hash: &[u8; 32]) -> (out: String)
    ensures
        out@ == display_hex(hash@),
{
    let mut reversed: Vec<u8> = Vec::new();
    let mut i: usize = 0;
    while i < 32
        invariant
            i <= 32,
            hash@.len() == 32,
            reversed@ == hash@.reverse().subrange(0, i as int),
        decreases 32 - i,
    {
        reversed.push(hash[31 - i]);
        i = i + 1;
        assert(reversed@ =~= hash@.reverse().subrange(0, i as int));
    }
    assert(reversed@ =~= hash@.reverse());
    hex_lower(reversed.as_slice())
}

/// Lowercase hexadecimal text of `data`.
pub fn to_hex(data: &[u8]) -> (out: String)
    ensures
        out@ == hex_of(data@),
{
    hex_lower(data)
}

} // verus!
