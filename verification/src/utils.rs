use vstd::prelude::*;

use crate::crypto::{base58_decode, pkh_of, ripemd160, sha256};

verus! {

/// Copy of `v[start..end]`.
pub fn sub_vec(v: &Vec<u8>, start: usize, end: usize) -> (r: Vec<u8>)
    requires
        start <= end <= v@.len(),
    ensures
        r@ == v@.subrange(start as int, end as int),
{
    let mut r: Vec<u8> = Vec::new();
    let mut i: usize = start;
    while i < end
        invariant
            start <= i <= end <= v@.len(),
            r@ == v@.subrange(start as int, i as int),
        decreases end - i,
    {
        r.push(v[i]);
        i = i + 1;
        assert(v@.subrange(start as int, i - 1).push(v@[i - 1]) =~= v@.subrange(
            start as int,
            i as int,
        ));
    }
    r
}

/// Whether two byte strings hold the same bytes.
pub fn bytes_eq(a: &[u8], b: &[u8]) -> (r: bool)
    ensures
        r == (a@ == b@),
{
    if a.len() != b.len() {
        assert(a@ != b@);
        return false;
    }
    let mut i: usize = 0;
    while i < a.len()
        invariant
            i <= a@.len(),
            a@.len() == b@.len(),
            forall|j: int| 0 <= j < i ==> a@[j] == b@[j],
        decreases a@.len() - i,
    {
        if a[i] != b[i] {
            return false;
        }
        i = i + 1;
    }
    proof {
        assert(a@ =~= b@);
    }
    true
}

/// Whether two text slices hold the same characters.
pub fn str_eq(a: &str, b: &str) -> (r: bool)
    ensures
        r == (a@ == b@),
{
    let r = bytes_eq(a.as_bytes(), b.as_bytes());
    proof {
        vstd::utf8::encode_utf8_decode_utf8(a@);
        vstd::utf8::encode_utf8_decode_utf8(b@);
    }
    r
}

/// Copy of a byte vector, byte for byte.
pub fn clone_bytes(v: &Vec<u8>) -> (r: Vec<u8>)
    ensures
        r@ == v@,
{
    let r = v.clone();
    proof {
        assert forall|i: int| 0 <= i < v@.len() implies r@[i] == v@[i] by {
            assert(cloned::<u8>(v@[i], r@[i]));
        }
        assert(r@ =~= v@);
    }
    r
}

/// The public-key hash: RIPEMD-160 of SHA-256 of the public key.
pub fn hash_pub_key(pub_key: &[u8]) -> (r: Vec<u8>)
    ensures
        r@ == pkh_of(pub_key@),
        r@.len() == 20,
{
    let first = sha256(pub_key);
    ripemd160(first.as_slice())
}

/// The 20-byte public-key hash held inside a base58 address: the
/// decoded payload with the version byte and the 4-byte checksum
/// stripped.  `None` when the text does not decode or is too short.
pub fn get_pub_key_hash(address: &str) -> (r: Option<Vec<u8>>)
    ensures
        r matches Some(v) ==> v@.len() <= 132,
        r matches Some(v) ==> (forall|p: Seq<u8>|
            5 <= p.len() <= 90 && address@ == #[trigger] crate::crypto::base58_of(p) ==> v@
                == p.subrange(1, p.len() - 4)),
        r is None ==> (forall|p: Seq<u8>|
            5 <= p.len() <= 90 ==> address@ != #[trigger] crate::crypto::base58_of(p)),
{
    match base58_decode(address) {
        Some(payload) => {
            if payload.len() >= 5 {
                Some(sub_vec(&payload, 1, payload.len() - 4))
            } else {
                None
            }
        },
        None => None,
    }
}

} // verus!
