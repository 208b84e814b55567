use vstd::prelude::*;

use crate::analysis::address::{address_of, derive_address};
use crate::analysis::classify::{is_coinbase, is_coinbase_tx};
use crate::parser::tx::{RawTx, TxOutputModel};
use crate::parser::undo::UndoCoin;

verus! {

broadcast use vstd::utf8::encode_utf8_decode_utf8;

/// Result of the address reuse heuristic.
#[derive(Debug, Clone)]
pub struct AddressReuseResult {
    pub detected: bool,
    pub reused_addresses: Vec<String>,
}

/// Byte-wise lexicographic order, as `String`'s `Ord` compares.
pub open spec fn lex_lt(a: Seq<u8>, b: Seq<u8>) -> bool
    decreases a.len(),
{
    if a.len() == 0 {
        b.len() > 0
    } else if b.len() == 0 {
        false
    } else if a[0] != b[0] {
        a[0] < b[0]
    } else {
        lex_lt(a.drop_first(), b.drop_first())
    }
}

/// The UTF-8 bytes of a text.
pub open spec fn utf8(s: Seq<char>) -> Seq<u8> {
    vstd::utf8::encode_utf8(s)
}

/// Texts in strictly increasing byte order (so without repeats).
pub open spec fn strictly_sorted(v: Seq<Seq<char>>) -> bool {
    forall|i: int, j: int| 0 <= i < j < v.len() ==> lex_lt(utf8(#[trigger] v[i]), utf8(#[trigger] v[j]))
}

/// The addresses that the spent outputs pay to.
pub open spec fn input_addresses(prevouts: Seq<UndoCoin>) -> Set<Seq<char>> {
    Set::new(
        |a: Seq<char>|
            exists|i: int|
                0 <= i < prevouts.len() && address_of(#[trigger] prevouts[i].script_pubkey@) == Some(
                    a,
                ),
    )
}

/// The addresses that the outputs pay to.
pub open spec fn output_addresses(outs: Seq<TxOutputModel>) -> Set<Seq<char>> {
    Set::new(
        |a: Seq<char>|
            exists|j: int| 0 <= j < outs.len() && address_of(#[trigger] outs[j].script_pubkey) == Some(a),
    )
}

/// The addresses reported as reused: none for a coinbase or without spent
/// outputs, otherwise those both spent from and paid to.
pub open spec fn reused_addresses(tx: RawTx, prevouts: Seq<UndoCoin>) -> Set<Seq<char>> {
    if is_coinbase_tx(tx@) || prevouts.len() == 0 {
        Set::empty()
    } else {
        input_addresses(prevouts).intersect(output_addresses(tx@.outputs))
    }
}

pub open spec fn texts(v: Seq<String>) -> Seq<Seq<char>> {
    v.map_values(|s: String| s@)
}

proof fn lemma_lex_irreflexive(a: Seq<u8>)
    ensures
        !lex_lt(a, a),
    decreases a.len(),
{
    if a.len() > 0 {
        lemma_lex_irreflexive(a.drop_first());
    }
}

proof fn lemma_lex_transitive(a: Seq<u8>, b: Seq<u8>, c: Seq<u8>)
    requires
        lex_lt(a, b),
        lex_lt(b, c),
    ensures
        lex_lt(a, c),
    decreases a.len(),
{
    if a.len() > 0 && b.len() > 0 && c.len() > 0 && a[0] == b[0] && b[0] == c[0] {
        lemma_lex_transitive(a.drop_first(), b.drop_first(), c.drop_first());
    }
}

proof fn lemma_lex_total(a: Seq<u8>, b: Seq<u8>)
    requires
        a != b,
    ensures
        lex_lt(a, b) || lex_lt(b, a),
    decreases a.len(),
{
    if a.len() > 0 && b.len() > 0 && a[0] == b[0] {
        if a.drop_first() == b.drop_first() {
            assert(a =~= seq![a[0]] + a.drop_first());
            assert(b =~= seq![b[0]] + b.drop_first());
        }
        lemma_lex_total(a.drop_first(), b.drop_first());
    } else if a.len() == 0 && b.len() == 0 {
        assert(a =~= b);
    }
}

/// Whether `a` comes strictly before `b` byte-wise.
fn bytes_less(a: &[u8], b: &[u8]) -> (r: bool)
    ensures
        r == lex_lt(a@, b@),
{
    let mut i: usize = 0;
    assert(a@.skip(0) =~= a@);
    assert(b@.skip(0) =~= b@);
    while i < a.len() && i < b.len()
        invariant
            i <= a@.len(),
            i <= b@.len(),
            a@.subrange(0, i as int) == b@.subrange(0, i as int),
            lex_lt(a@, b@) == lex_lt(a@.skip(i as int), b@.skip(i as int)),
        decreases a@.len() - i,
    {
        if a[i] != b[i] {
            return a[i] < b[i];
        }
        assert(a@.skip(i as int).drop_first() =~= a@.skip(i + 1));
        assert(b@.skip(i as int).drop_first() =~= b@.skip(i + 1));
        assert(a@.subrange(0, i + 1) =~= a@.subrange(0, i as int).push(a@[i as int]));
        assert(b@.subrange(0, i + 1) =~= b@.subrange(0, i as int).push(b@[i as int]));
        i = i + 1;
    }
    i == a.len() && i < b.len()
}

/// Whether some text of `v` equals `a`.
fn contains_text(v: &Vec<String>, a: &String) -> (r: bool)
    ensures
        r == texts(v@).contains(a@),
{
    let mut i: usize = 0;
    while i < v.len()
        invariant
            i <= v@.len(),
            forall|k: int| 0 <= k < i ==> v@[k]@ != a@,
        decreases v@.len() - i,
    {
        if v[i] == *a {
            assert(texts(v@)[i as int] == a@);
            return true;
        }
        i = i + 1;
    }
    assert forall|k: int| 0 <= k < texts(v@).len() implies texts(v@)[k] != a@ by {
        assert(texts(v@)[k] == v@[k]@);
    }
    false
}

/// Inserts `a` into the sorted texts `v`, unless it is already there.
fn insert_sorted(v: &mut Vec<String>, a: String)
    requires
        strictly_sorted(texts(old(v)@)),
    ensures
        strictly_sorted(texts(final(v)@)),
        texts(final(v)@).to_set() == texts(old(v)@).to_set().insert(a@),
{
    let ghost old_t = texts(v@);
    let ab = a.as_str().as_bytes();
    let mut p: usize = 0;
    while p < v.len() && bytes_less(v[p].as_str().as_bytes(), ab)
        invariant
            p <= v@.len(),
            texts(v@) == old_t,
            strictly_sorted(old_t),
            ab@ == utf8(a@),
            forall|k: int| 0 <= k < p ==> lex_lt(utf8(#[trigger] old_t[k]), utf8(a@)),
        decreases v@.len() - p,
    {
        assert(old_t[p as int] == v@[p as int]@);
        p = p + 1;
    }
    if p < v.len() && v[p] == a {
        assert(old_t[p as int] == a@);
        assert(texts(v@).to_set() =~= old_t.to_set().insert(a@));
        return;
    }
    proof {
        if p < old_t.len() {
            assert(old_t[p as int] == v@[p as int]@);
            assert(!lex_lt(utf8(old_t[p as int]), utf8(a@)));
            assert(old_t[p as int] != a@);
            vstd::utf8::encode_utf8_decode_utf8(old_t[p as int]);
            vstd::utf8::encode_utf8_decode_utf8(a@);
            assert(utf8(old_t[p as int]) != utf8(a@));
            lemma_lex_total(utf8(old_t[p as int]), utf8(a@));
        }
        assert(p < old_t.len() ==> lex_lt(utf8(a@), utf8(old_t[p as int])));
    }
    v.insert(p, a);
    proof {
        let nt = texts(v@);
        assert(nt =~= old_t.insert(p as int, a@));
        assert forall|i: int, j: int| 0 <= i < j < nt.len() implies lex_lt(
            utf8(#[trigger] nt[i]),
            utf8(#[trigger] nt[j]),
        ) by {
            if i < p && j < p {
            } else if i < p && j == p {
            } else if i < p && j > p {
                assert(nt[j] == old_t[j - 1]);
                if j - 1 > p {
                    assert(lex_lt(utf8(old_t[p as int]), utf8(old_t[j - 1])));
                    lemma_lex_transitive(utf8(a@), utf8(old_t[p as int]), utf8(old_t[j - 1]));
                }
                lemma_lex_transitive(utf8(nt[i]), utf8(a@), utf8(nt[j]));
            } else if i == p {
                assert(nt[j] == old_t[j - 1]);
                if j - 1 > p {
                    assert(lex_lt(utf8(old_t[p as int]), utf8(old_t[j - 1])));
                    lemma_lex_transitive(utf8(a@), utf8(old_t[p as int]), utf8(old_t[j - 1]));
                }
            } else {
                assert(nt[i] == old_t[i - 1]);
                assert(nt[j] == old_t[j - 1]);
            }
        }
        assert(nt.to_set() =~= old_t.to_set().insert(a@)) by {
            assert forall|x: Seq<char>| nt.to_set().contains(x) implies old_t.to_set().insert(
                a@,
            ).contains(x) by {
                let k = choose|k: int| 0 <= k < nt.len() && nt[k] == x;
                if k < p {
                    assert(old_t[k] == x);
                } else if k > p {
                    assert(old_t[k - 1] == x);
                }
            }
            assert forall|x: Seq<char>| old_t.to_set().insert(a@).contains(x) implies nt.to_set().contains(
                x,
            ) by {
                if x == a@ {
                    assert(nt[p as int] == x);
                } else {
                    let k = choose|k: int| 0 <= k < old_t.len() && old_t[k] == x;
                    if k < p {
                        assert(nt[k] == x);
                    } else {
                        assert(nt[k + 1] == x);
                    }
                }
            }
        }
    }
}

/// Detects addresses that appear both among the spent outputs and among
/// the outputs of one transaction. The reused addresses come sorted and
/// without repeats.
pub fn detect(tx: &RawTx, prevouts: &[UndoCoin]) -> (r: AddressReuseResult)
    ensures
        texts(r.reused_addresses@).to_set() == reused_addresses(*tx, prevouts@),
        strictly_sorted(texts(r.reused_addresses@)),
        r.detected == (r.reused_addresses@.len() > 0),
{
    let mut reused: Vec<String> = Vec::new();
    assert(texts(reused@).to_set() =~= Set::empty());
    if is_coinbase(tx) || prevouts.len() == 0 {
        return AddressReuseResult { detected: false, reused_addresses: reused };
    }
    let ghost pv = prevouts@;
    let mut input_addrs: Vec<String> = Vec::new();
    let mut i: usize = 0;
    while i < prevouts.len()
        invariant
            pv == prevouts@,
            i <= pv.len(),
            forall|a: Seq<char>|
                texts(input_addrs@).contains(a) <==> exists|k: int|
                    0 <= k < i && address_of(#[trigger] pv[k].script_pubkey@) == Some(a),
        decreases pv.len() - i,
    {
        let ghost before = texts(input_addrs@);
        match derive_address(prevouts[i].script_pubkey.as_slice()) {
            Some(a) => {
                input_addrs.push(a);
                assert(texts(input_addrs@) =~= before.push(a@));
            },
            None => {},
        }
        assert forall|a: Seq<char>|
            texts(input_addrs@).contains(a) <==> exists|k: int|
                0 <= k < i + 1 && address_of(#[trigger] pv[k].script_pubkey@) == Some(a) by {
            if texts(input_addrs@).contains(a) && !before.contains(a) {
                assert(address_of(pv[i as int].script_pubkey@) == Some(a));
            }
            if exists|k: int| 0 <= k < i + 1 && address_of(#[trigger] pv[k].script_pubkey@) == Some(a) {
                let k = choose|k: int| 0 <= k < i + 1 && address_of(#[trigger] pv[k].script_pubkey@) == Some(a);
                if k == i {
                    assert(texts(input_addrs@).last() == a);
                } else {
                    assert(before.contains(a));
                    let m = choose|m: int| 0 <= m < before.len() && before[m] == a;
                    assert(texts(input_addrs@)[m] == a);
                }
            } else {
                if before.contains(a) {
                    assert(false);
                }
            }
        }
        i = i + 1;
    }
    if input_addrs.len() == 0 {
        proof {
            assert forall|a: Seq<char>| !input_addresses(pv).contains(a) by {
                if input_addresses(pv).contains(a) {
                    assert(texts(input_addrs@).contains(a));
                    let m = choose|m: int| 0 <= m < texts(input_addrs@).len() && texts(input_addrs@)[m] == a;
                }
            }
            assert(reused_addresses(*tx, pv) =~= Set::empty());
        }
        return AddressReuseResult { detected: false, reused_addresses: reused };
    }
    let ghost outs = tx@.outputs;
    let mut j: usize = 0;
    while j < tx.outputs.len()
        invariant
            outs == tx@.outputs,
            pv == prevouts@,
            j <= outs.len(),
            forall|a: Seq<char>|
                texts(input_addrs@).contains(a) <==> input_addresses(pv).contains(a),
            strictly_sorted(texts(reused@)),
            texts(reused@).to_set() == input_addresses(pv).intersect(
                Set::new(
                    |a: Seq<char>|
                        exists|k: int|
                            0 <= k < j && address_of(#[trigger] outs[k].script_pubkey) == Some(a),
                ),
            ),
        decreases outs.len() - j,
    {
        let o = &tx.outputs[j];
        assert(o@ == outs[j as int]);
        let ghost before = texts(reused@).to_set();
        match derive_address(o.script_pubkey.as_slice()) {
            Some(a) => {
                if contains_text(&input_addrs, &a) {
                    insert_sorted(&mut reused, a);
                }
            },
            None => {},
        }
        proof {
            let s_old = Set::new(
                |a: Seq<char>|
                    exists|k: int|
                        0 <= k < j && address_of(#[trigger] outs[k].script_pubkey) == Some(a),
            );
            let s_new = Set::new(
                |a: Seq<char>|
                    exists|k: int|
                        0 <= k < j + 1 && address_of(#[trigger] outs[k].script_pubkey) == Some(a),
            );
            assert forall|x: Seq<char>| s_new.contains(x) <==> (s_old.contains(x) || address_of(
                outs[j as int].script_pubkey,
            ) == Some(x)) by {
                if s_new.contains(x) {
                    let k = choose|k: int|
                        0 <= k < j + 1 && address_of(#[trigger] outs[k].script_pubkey) == Some(x);
                    if k < j {
                        assert(s_old.contains(x));
                    }
                }
                if s_old.contains(x) {
                    let k = choose|k: int|
                        0 <= k < j && address_of(#[trigger] outs[k].script_pubkey) == Some(x);
                    assert(s_new.contains(x));
                }
                if address_of(outs[j as int].script_pubkey) == Some(x) {
                    assert(s_new.contains(x));
                }
            }
            assert(texts(reused@).to_set() =~= input_addresses(pv).intersect(s_new));
        }
        j = j + 1;
    }
    assert(Set::new(
        |a: Seq<char>|
            exists|k: int| 0 <= k < outs.len() && address_of(#[trigger] outs[k].script_pubkey) == Some(a),
    ) =~= output_addresses(outs));
    let detected = reused.len() > 0;
    AddressReuseResult { detected, reused_addresses: reused }
}

} // verus!
