use vstd::prelude::*;

use base58::{FromBase58, ToBase58};
use ripemd::Digest;

verus! {

// ------------------------------------------------------------------
// Named results of the cryptographic primitives.
//
// Each name stands for what one outside function returns; the
// functions are deterministic in their arguments, so the names are
// well defined.  The wrappers below tie the names to the calls.
// ------------------------------------------------------------------

/// What `sha2::Sha256` digests the input to.
pub uninterp spec fn sha256_of(data: Seq<u8>) -> Seq<u8>;

/// What `ripemd::Ripemd160` digests the input to.
pub uninterp spec fn ripemd160_of(data: Seq<u8>) -> Seq<u8>;

/// What `base58::ToBase58` encodes the input to.
pub uninterp spec fn base58_of(data: Seq<u8>) -> Seq<char>;

/// The uncompressed SEC1 encoding of the public key belonging to a
/// P-256 secret scalar, as `p256::ecdsa::VerifyingKey` produces it.
pub uninterp spec fn p256_pub_of(sk: Seq<u8>) -> Seq<u8>;

/// The raw `r || s` ECDSA/P-256 signature of a message under a secret
/// scalar; deterministic because signing follows RFC 6979.
pub uninterp spec fn ecdsa_sig_of(sk: Seq<u8>, msg: Seq<char>) -> Seq<u8>;

/// Whether `p256::ecdsa::VerifyingKey::verify` accepts the signature
/// for the message under the given SEC1-encoded public key.
pub uninterp spec fn ecdsa_verifies(pk: Seq<u8>, msg: Seq<char>, sig: Seq<u8>) -> bool;

/// Whether `p256::ecdsa::VerifyingKey::from_sec1_bytes` accepts the bytes.
pub uninterp spec fn sec1_ok(pk: Seq<u8>) -> bool;

/// Whether `p256::ecdsa::SigningKey::from_bytes` accepts the bytes as
/// a secret scalar.
pub uninterp spec fn scalar_ok(sk: Seq<u8>) -> bool;

/// Whether `p256::ecdsa::Signature::from_scalars` accepts the two
/// halves of a raw 64-byte signature.
pub uninterp spec fn sig_scalars_ok(sig: Seq<u8>) -> bool;

// ------------------------------------------------------------------
// Hex encoding has a short exact description, so it is spelled out
// rather than named.
// ------------------------------------------------------------------

/// The lowercase hex digit for a value below 16.
pub open spec fn hex_digit(v: u8) -> char {
    if v < 10 {
        ((v + 48) as u8) as char
    } else {
        ((v + 87) as u8) as char
    }
}

/// Lowercase hex text of a byte string: two digits per byte.
pub open spec fn hex_of(b: Seq<u8>) -> Seq<char> {
    Seq::new(
        b.len() * 2,
        |i: int|
            if i % 2 == 0 {
                hex_digit(b[i / 2] / 16)
            } else {
                hex_digit(b[i / 2] % 16)
            },
    )
}

/// The public-key hash locking an output: RIPEMD-160 of SHA-256.
pub open spec fn pkh_of(pub_key: Seq<u8>) -> Seq<u8> {
    ripemd160_of(sha256_of(pub_key))
}

/// The 4-byte address checksum: the first bytes of a double SHA-256.
pub open spec fn checksum4_of(payload: Seq<u8>) -> Seq<u8> {
    sha256_of(sha256_of(payload)).take(4)
}

/// The versioned payload behind an address: version byte 0, the
/// public-key hash, and the checksum over both.
pub open spec fn addr_payload_of(pub_key: Seq<u8>) -> Seq<u8> {
    seq![0u8] + pkh_of(pub_key) + checksum4_of(seq![0u8] + pkh_of(pub_key))
}

/// The base58 text form of an address for a public key.
pub open spec fn address_of(pub_key: Seq<u8>) -> Seq<char> {
    base58_of(addr_payload_of(pub_key))
}

/// Hex text is ASCII, so its UTF-8 bytes are one per character.
pub proof fn lemma_hex_ascii(b: Seq<u8>)
    ensures
        vstd::utf8::is_ascii_chars(hex_of(b)),
        vstd::utf8::encode_utf8(hex_of(b)).len() == 2 * b.len(),
{
    let s = hex_of(b);
    assert forall|i: int| 0 <= i < s.len() implies '\0' <= #[trigger] s[i] <= '\u{7f}' by {
        let v: u8 = if i % 2 == 0 {
            b[i / 2] / 16
        } else {
            b[i / 2] % 16
        };
        assert(v < 16);
        assert(s[i] == hex_digit(v));
    }
    vstd::utf8::is_ascii_chars_encode_utf8(s);
}

// ------------------------------------------------------------------
// Trusted wrappers.
// ------------------------------------------------------------------

/// Relies on `sha2::Sha256`: the SHA-256 digest, 32 bytes long.
#[verifier::external_body]
pub fn sha256(data: &[u8]) -> (r: Vec<u8>)
    ensures
        r@ == sha256_of(data@),
        r@.len() == 32,
{
    sha2::Sha256::digest(data).to_vec()
}

/// Relies on `ripemd::Ripemd160`: the RIPEMD-160 digest, 20 bytes long.
#[verifier::external_body]
pub fn ripemd160(data: &[u8]) -> (r: Vec<u8>)
    ensures
        r@ == ripemd160_of(data@),
        r@.len() == 20,
{
    ripemd::Ripemd160::digest(data).to_vec()
}

/// Relies on `hex::encode`: lowercase hex, two digits per byte, in order.
#[verifier::external_body]
pub fn hex_encode(data: &[u8]) -> (r: String)
    ensures
        r@ == hex_of(data@),
{
    hex::encode(data)
}

/// Relies on `base58::ToBase58`, which supports inputs of at most 128
/// bytes.
#[verifier::external_body]
pub fn base58_encode(data: &[u8]) -> (r: String)
    requires
        data@.len() <= 128,
    ensures
        r@ == base58_of(data@),
{
    data.to_base58()
}

/// Relies on `base58::FromBase58`.  Its final slice arithmetic panics
/// when the input carries more leading `1` characters than its
/// 132-byte working buffer holds leading zero bytes, so inputs longer
/// than 132 bytes are rejected before the call: a decoded value takes
/// at most one byte per digit, so any 132-byte-or-shorter input stays
/// within the buffer.  Decoding inverts `ToBase58` for payloads of at
/// most 90 bytes, whose encodings (at most 1.37 digits per byte, plus
/// one) always fit under that bound.
#[verifier::external_body]
pub fn base58_decode(s: &str) -> (r: Option<Vec<u8>>)
    ensures
        r matches Some(v) ==> v@.len() <= 132,
        r matches Some(v) ==> (forall|b: Seq<u8>|
            b.len() <= 90 && s@ == #[trigger] base58_of(b) ==> v@ == b),
        r is None ==> (forall|b: Seq<u8>| b.len() <= 90 ==> s@ != #[trigger] base58_of(b)),
{
    if s.len() > 132 {
        return None;
    }
    s.from_base58().ok()
}

/// Relies on `p256::ecdsa::SigningKey::random` and `VerifyingKey`: a
/// fresh random secret scalar together with the uncompressed SEC1
/// encoding of its public key.
#[verifier::external_body]
pub fn generate_key_pair() -> (r: (Vec<u8>, Vec<u8>))
    ensures
        r.0@.len() == 32,
        scalar_ok(r.0@),
        r.1@ == p256_pub_of(r.0@),
        r.1@.len() == 65,
        sec1_ok(r.1@),
{
    let sk = p256::ecdsa::SigningKey::random(&mut rand_core::OsRng);
    let pk = p256::ecdsa::VerifyingKey::from(&sk);
    (sk.to_bytes().to_vec(), pk.to_encoded_point(false).as_bytes().to_vec())
}

/// Relies on `p256::ecdsa::SigningKey::sign` (deterministic, RFC 6979):
/// a 64-byte `r || s` signature that verifies under the matching
/// public key.  Fails exactly when the bytes are not a valid secret
/// scalar.
#[verifier::external_body]
pub fn ecdsa_sign(sk: &[u8], msg: &str) -> (r: Option<Vec<u8>>)
    ensures
        r is None ==> !(sk@.len() == 32 && scalar_ok(sk@)),
        r matches Some(s) ==> s@ == ecdsa_sig_of(sk@, msg@) && s@.len() == 64 && sig_scalars_ok(s@)
            && ecdsa_verifies(p256_pub_of(sk@), msg@, s@),
{
    let arr: [u8; 32] = match sk.try_into() {
        Ok(a) => a,
        Err(_) => return None,
    };
    let mut key = match p256::ecdsa::SigningKey::from_bytes(&arr.into()) {
        Ok(k) => k,
        Err(_) => return None,
    };
    let sig: p256::ecdsa::Signature = p256::ecdsa::signature::SignerMut::sign(
        &mut key,
        msg.as_bytes(),
    );
    let mut out = sig.r().to_bytes().to_vec();
    out.extend_from_slice(&sig.s().to_bytes());
    Some(out)
}

/// Relies on `p256::ecdsa::VerifyingKey::from_sec1_bytes`,
/// `Signature::from_scalars` and `Verifier::verify`: whether the
/// signature verifies; `None` exactly when the public key or the
/// signature scalars do not parse.
#[verifier::external_body]
pub fn ecdsa_verify(pk: &[u8], msg: &str, sig: &[u8]) -> (r: Option<bool>)
    requires
        sig@.len() == 64,
    ensures
        r is None ==> !(sec1_ok(pk@) && sig_scalars_ok(sig@)),
        r matches Some(b) ==> b == ecdsa_verifies(pk@, msg@, sig@) && sec1_ok(pk@)
            && sig_scalars_ok(sig@),
{
    let vk = match p256::ecdsa::VerifyingKey::from_sec1_bytes(pk) {
        Ok(k) => k,
        Err(_) => return None,
    };
    let rb: [u8; 32] = sig[0..32].try_into().unwrap();
    let sb: [u8; 32] = sig[32..64].try_into().unwrap();
    let s = match p256::ecdsa::Signature::from_scalars(rb, sb) {
        Ok(s) => s,
        Err(_) => return None,
    };
    Some(p256::ecdsa::signature::Verifier::verify(&vk, msg.as_bytes(), &s).is_ok())
}

} // verus!
