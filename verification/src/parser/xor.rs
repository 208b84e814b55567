use vstd::prelude::*;

verus! {

/// `key` leaves data unchanged: it is empty or all zero bytes.
pub open spec fn is_null_key(key: Seq<u8>) -> bool {
    key.len() == 0 || forall|j: int| 0 <= j < key.len() ==> key[j] == 0
}

/// `data` XORed with `key` repeated from its start; unchanged under a null
/// key.
pub open spec fn xor_with(data: Seq<u8>, key: Seq<u8>) -> Seq<u8> {
    if is_null_key(key) {
        data
    } else {
        Seq::new(data.len(), |i: int| data[i] ^ key[i % key.len() as int])
    }
}

/// Undoes Bitcoin Core's obfuscation of block and undo files: byte `i` is
/// XORed with byte `i % key.len()` of the key.
pub fn xor_decode(data: &[u8], key: &[u8]) -> (out: Vec<u8>)
    ensures
        out@ == xor_with(data@, key@),
{
    let mut null = true;
    let mut j: usize = 0;
    while j < key.len()
        invariant
            j <= key@.len(),
            null == (forall|t: int| 0 <= t < j ==> key@[t] == 0),
        decreases key@.len() - j,
    {
        if key[j] != 0 {
            null = false;
        }
        j = j + 1;
    }
    if key.len() == 0 || null {
        return vstd::slice::slice_to_vec(data);
    }
    let mut out: Vec<u8> = Vec::new();
    let mut i: usize = 0;
    while i < data.len()
        invariant
            i <= data@.len(),
            key@.len() > 0,
            !is_null_key(key@),
            out@ == xor_with(data@, key@).subrange(0, i as int),
        decreases data@.len() - i,
    {
        out.push(data[i] ^ key[i % key.len()]);
        i = i + 1;
        assert(out@ =~= xor_with(data@, key@).subrange(0, i as int));
    }
    assert(out@ =~= xor_with(data@, key@));
    out
}

/// Decoding twice with the same key gives the data back.
pub proof fn law_xor_decode_is_involution(data: Seq<u8>, key: Seq<u8>)
    ensures
        xor_with(xor_with(data, key), key) == data,
{
    if !is_null_key(key) {
        let once = xor_with(data, key);
        let twice = xor_with(once, key);
        assert forall|i: int| 0 <= i < data.len() implies twice[i] == data[i] by {
            let a = data[i];
            let b = key[i % key.len() as int];
            assert((a ^ b) ^ b == a) by (bit_vector);
        }
        assert(twice =~= data);
    }
}

} // verus!
