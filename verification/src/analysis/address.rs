use vstd::prelude::*;

use crate::analysis::classify::{script_type, script_type_of, ScriptType};
use crate::parser::wire::append_bytes;

verus! {

/// The Base58Check text of `data` (the bytes followed by the first four
/// bytes of their double SHA-256, in base 58 with Bitcoin's alphabet).
pub uninterp spec fn base58check(data: Seq<u8>) -> Seq<char>;

/// The segregated-witness address with human-readable part `hrp`, witness
/// version `version` and witness program `program` (BIP-173 Bech32 for
/// version 0, BIP-350 Bech32m above).
pub uninterp spec fn segwit_address(hrp: Seq<char>, version: u8, program: Seq<u8>) -> Seq<char>;

/// Calls `bs58::encode(data).with_check().into_string()`: the contract claims
/// the text is the Base58Check encoding of `data`, named `base58check`.
#[verifier::external_body]
fn base58check_string(data: &[u8]) -> (s: String)
    ensures
        s@ == base58check(data@),
{
    bs58::encode(data).with_check().into_string()
}

/// Calls `bech32::Hrp::parse`, `bech32::Fe32::try_from` and
/// `bech32::segwit::encode`: the contract claims a returned address is the one
/// named `segwit_address`, and that encoding succeeds for the mainnet part
/// `bc`, a witness version up to 16 and a program of 2 to 40 bytes (20 or 32
/// for version 0), which the crate's checks accept and which stays below
/// its 90-character limit. What it returns otherwise is left unsaid.
#[verifier::external_body]
fn segwit_encode(hrp: &str, witness_version: u8, program: &[u8]) -> (r: Option<String>)
    ensures
        r is Some ==> r->Some_0@ == segwit_address(hrp@, witness_version, program@),
        hrp@ == "bc"@ && witness_version <= 16 && 2 <= program@.len() <= 40 && (witness_version
            == 0 ==> program@.len() == 20 || program@.len() == 32) ==> r is Some,
{
    let hrp = bech32::Hrp::parse(hrp).ok()?;
    let version = bech32::Fe32::try_from(witness_version).ok()?;
    bech32::segwit::encode(hrp, version, program).ok()
}

/// The mainnet address of a standard scriptPubKey: Base58Check with version
/// byte 0 (P2PKH) or 5 (P2SH) over the hash, or a `bc` segwit address of
/// version 0 (P2WPKH, P2WSH) or 1 (P2TR) over the program; none for other
/// scripts.
pub open spec fn address_of(s: Seq<u8>) -> Option<Seq<char>> {
    match script_type_of(s) {
        ScriptType::P2pkh => Some(base58check(seq![0x00u8] + s.subrange(3, 23))),
        ScriptType::P2sh => Some(base58check(seq![0x05u8] + s.subrange(2, 22))),
        ScriptType::P2wpkh => Some(segwit_address("bc"@, 0, s.subrange(2, 22))),
        ScriptType::P2wsh => Some(segwit_address("bc"@, 0, s.subrange(2, 34))),
        ScriptType::P2tr => Some(segwit_address("bc"@, 1, s.subrange(2, 34))),
        _ => None,
    }
}

/// The address that a standard scriptPubKey pays to.
pub fn derive_address(script_pubkey: &[u8]) -> (a: Option<String>)
    ensures
        a is Some == address_of(script_pubkey@) is Some,
        a is Some ==> a->Some_0@ == address_of(script_pubkey@)->Some_0,
{
    let s = script_pubkey;
    match script_type(s) {
        ScriptType::P2pkh => Some(base58check_encode(0x00, vstd::slice::slice_subrange(s, 3, 23))),
        ScriptType::P2sh => Some(base58check_encode(0x05, vstd::slice::slice_subrange(s, 2, 22))),
        ScriptType::P2wpkh => Some(bech32_encode(0, vstd::slice::slice_subrange(s, 2, 22))),
        ScriptType::P2wsh => Some(bech32_encode(0, vstd::slice::slice_subrange(s, 2, 34))),
        ScriptType::P2tr => Some(bech32m_encode(1, vstd::slice::slice_subrange(s, 2, 34))),
        _ => None,
    }
}

/// Base58Check text of the version byte followed by the payload.
fn base58check_encode(version: u8, payload: &[u8]) -> (s: String)
    ensures
        s@ == base58check(seq![version] + payload@),
{
    let mut data: Vec<u8> = Vec::new();
    data.push(version);
    append_bytes(&mut data, payload);
    base58check_string(data.as_slice())
}

/// A `bc` segwit version 0 address (Bech32).
fn bech32_encode(witness_version: u8, program: &[u8]) -> (s: String)
    requires
        witness_version == 0,
        program@.len() == 20 || program@.len() == 32,
    ensures
        s@ == segwit_address("bc"@, witness_version, program@),
{
    match segwit_encode("bc", witness_version, program) {
        Some(a) => a,
        None => String::new(),
    }
}

/// A `bc` segwit version 1+ address (Bech32m).
fn bech32m_encode(witness_version: u8, program: &[u8]) -> (s: String)
    requires
        1 <= witness_version <= 16,
        2 <= program@.len() <= 40,
    ensures
        s@ == segwit_address("bc"@, witness_version, program@),
{
    match segwit_encode("bc", witness_version, program) {
        Some(a) => a,
        None => String::new(),
    }
}

/// The address of each standard template carries exactly the hash or
/// program that the script holds, in its stored order: a P2PKH script
/// `76 a9 14 <h> 88 ac` pays Base58Check(`00` + h), a P2SH script
/// `a9 14 <h> 87` pays Base58Check(`05` + h), a P2WPKH script `00 14 <h>`
/// and a P2WSH script `00 20 <w>` pay the version-0 `bc` address of their
/// program, and a P2TR script `51 20 <k>` the version-1 address of its key.
pub proof fn law_addresses_carry_the_script_hash(h: Seq<u8>, w: Seq<u8>)
    requires
        h.len() == 20,
        w.len() == 32,
    ensures
        address_of(seq![0x76u8, 0xa9u8, 0x14u8] + h + seq![0x88u8, 0xacu8]) == Some(
            base58check(seq![0x00u8] + h),
        ),
        address_of(seq![0xa9u8, 0x14u8] + h + seq![0x87u8]) == Some(base58check(seq![0x05u8] + h)),
        address_of(seq![0x00u8, 0x14u8] + h) == Some(segwit_address("bc"@, 0, h)),
        address_of(seq![0x00u8, 0x20u8] + w) == Some(segwit_address("bc"@, 0, w)),
        address_of(seq![0x51u8, 0x20u8] + w) == Some(segwit_address("bc"@, 1, w)),
{
    let pkh = seq![0x76u8, 0xa9u8, 0x14u8] + h + seq![0x88u8, 0xacu8];
    assert(pkh.subrange(3, 23) =~= h);
    let sh = seq![0xa9u8, 0x14u8] + h + seq![0x87u8];
    assert(sh.subrange(2, 22) =~= h);
    let wpkh = seq![0x00u8, 0x14u8] + h;
    assert(wpkh.subrange(2, 22) =~= h);
    let wsh = seq![0x00u8, 0x20u8] + w;
    assert(wsh.subrange(2, 34) =~= w);
    let tr = seq![0x51u8, 0x20u8] + w;
    assert(tr.subrange(2, 34) =~= w);
}

} // verus!
