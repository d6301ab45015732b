use vstd::prelude::*;

use crate::codec::{get_byte_string, put_byte_string};
use crate::crypto::{
    address_of, addr_payload_of, base58_encode, checksum4_of, p256_pub_of, pkh_of, scalar_ok,
    sec1_ok, sha256,
};
use crate::errors::Error;
use crate::kv::{kv_entries, kv_flush, kv_insert, kv_open};
use crate::utils::{clone_bytes, hash_pub_key, sub_vec};

verus! {

/// A key pair: the 32-byte P-256 secret scalar and the uncompressed
/// 65-byte SEC1 public key derived from it.
pub struct Wallet {
    pub private_key: Vec<u8>,
    pub public_key: Vec<u8>,
}

impl Wallet {
    /// Generates a fresh random key pair.
    pub fn new() -> (r: Wallet)
        ensures
            r.private_key@.len() == 32,
            scalar_ok(r.private_key@),
            r.public_key@ == p256_pub_of(r.private_key@),
            r.public_key@.len() == 65,
            sec1_ok(r.public_key@),
    {
        let (private_key, public_key) = crate::crypto::generate_key_pair();
        Wallet { private_key, public_key }
    }

    /// The base58 address of this wallet's public key: version byte,
    /// public-key hash, and 4-byte checksum.
    pub fn get_address(&self) -> (r: String)
        ensures
            r@ == address_of(self.public_key@),
    {
        let pkh = hash_pub_key(self.public_key.as_slice());
        let mut payload: Vec<u8> = Vec::new();
        payload.push(0u8);
        crate::codec::push_bytes(&mut payload, pkh.as_slice());
        proof {
            assert(payload@ =~= seq![0u8] + pkh_of(self.public_key@));
        }
        let first = sha256(payload.as_slice());
        let second = sha256(first.as_slice());
        let checksum = sub_vec(&second, 0, 4);
        proof {
            assert(checksum@ =~= checksum4_of(seq![0u8] + pkh_of(self.public_key@)));
        }
        let mut full = payload;
        crate::codec::push_bytes(&mut full, checksum.as_slice());
        proof {
            assert(full@ =~= addr_payload_of(self.public_key@));
        }
        base58_encode(full.as_slice())
    }
}

/// The wallet store: an in-memory list of (address, wallet) pairs
/// backed by a persistent store.
pub struct Wallets {
    pub wallets: Vec<(String, Wallet)>,
    pub db: sled::Db,
}

impl Wallets {
    /// Opens the store at `path` and loads every stored wallet; a
    /// record that does not decode is an error.
    pub fn new(path: &str) -> (r: Result<Wallets, Error>)
        ensures
            r matches Ok(ws) ==> (forall|i: int|
                0 <= i < ws.wallets@.len() ==> {
                    let k = vstd::utf8::encode_utf8((#[trigger] ws.wallets@[i]).0@);
                    &&& crate::kv::kv_view(ws.db).dom().contains(k)
                    &&& crate::kv::kv_view(ws.db)[k] == enc_wallet(
                        ws.wallets@[i].1.private_key@,
                        ws.wallets@[i].1.public_key@,
                    )
                }),
    {
        let db = kv_open(path)?;
        let entries = kv_entries(&db)?;
        let mut wallets: Vec<(String, Wallet)> = Vec::new();
        let mut i: usize = 0;
        while i < entries.len()
            invariant
                i <= entries@.len(),
                forall|q: int|
                    0 <= q < entries@.len() ==> crate::kv::kv_view(db).dom().contains(
                        (#[trigger] entries@[q]).0@,
                    ) && crate::kv::kv_view(db)[entries@[q].0@] == entries@[q].1@,
                forall|j: int|
                    0 <= j < wallets@.len() ==> {
                        let k = vstd::utf8::encode_utf8((#[trigger] wallets@[j]).0@);
                        &&& crate::kv::kv_view(db).dom().contains(k)
                        &&& crate::kv::kv_view(db)[k] == enc_wallet(
                            wallets@[j].1.private_key@,
                            wallets@[j].1.public_key@,
                        )
                    },
            decreases entries@.len() - i,
        {
            let addr = match crate::codec::bytes_to_string(clone_bytes(&entries[i].0)) {
                Some(a) => a,
                None => {
                    return Err(Error::Serialization);
                },
            };
            let w = match decode_wallet(&entries[i].1) {
                Some(w) => w,
                None => {
                    return Err(Error::Serialization);
                },
            };
            wallets.push((addr, w));
            i = i + 1;
        }
        Ok(Wallets { wallets, db })
    }

    /// Every stored address.
    pub fn get_addresses(&self) -> (r: Vec<String>)
        ensures
            r@.len() == self.wallets@.len(),
            forall|i: int| 0 <= i < r@.len() ==> (#[trigger] r@[i])@ == self.wallets@[i].0@,
    {
        let mut r: Vec<String> = Vec::new();
        let mut i: usize = 0;
        while i < self.wallets.len()
            invariant
                i <= self.wallets@.len(),
                r@.len() == i,
                forall|j: int| 0 <= j < i ==> (#[trigger] r@[j])@ == self.wallets@[j].0@,
            decreases self.wallets@.len() - i,
        {
            r.push(self.wallets[i].0.clone());
            i = i + 1;
        }
        r
    }

    /// The wallet most recently stored under an address, if any.
    pub fn get_wallet(&self, addr: &str) -> (r: Option<&Wallet>)
        ensures
            r matches Some(w) ==> exists|i: int|
                0 <= i < self.wallets@.len() && (#[trigger] self.wallets@[i]).0@ == addr@
                    && self.wallets@[i].1 == *w && (forall|j: int|
                    i < j < self.wallets@.len() ==> (#[trigger] self.wallets@[j]).0@ != addr@),
            r is None ==> forall|i: int|
                0 <= i < self.wallets@.len() ==> (#[trigger] self.wallets@[i]).0@ != addr@,
    {
        let mut i: usize = self.wallets.len();
        while i > 0
            invariant
                i <= self.wallets@.len(),
                forall|j: int|
                    i <= j < self.wallets@.len() ==> (#[trigger] self.wallets@[j]).0@ != addr@,
            decreases i,
        {
            i = i - 1;
            if crate::utils::str_eq(self.wallets[i].0.as_str(), addr) {
                return Some(&self.wallets[i].1);
            }
        }
        None
    }

    /// Generates a new wallet, stores it in memory under its address,
    /// and returns the address.
    pub fn create_wallet(&mut self) -> (r: String)
        ensures
            final(self).wallets@.len() == old(self).wallets@.len() + 1,
            final(self).wallets@[old(self).wallets@.len() as int].0@ == r@,
            ({
                let w = final(self).wallets@[old(self).wallets@.len() as int].1;
                &&& r@ == address_of(w.public_key@)
                &&& w.private_key@.len() == 32
                &&& scalar_ok(w.private_key@)
                &&& w.public_key@ == p256_pub_of(w.private_key@)
                &&& sec1_ok(w.public_key@)
            }),
            forall|i: int|
                0 <= i < old(self).wallets@.len() ==> final(self).wallets@[i] == old(
                    self,
                ).wallets@[i],
    {
        let wallet = Wallet::new();
        let addr = wallet.get_address();
        let r = addr.clone();
        self.wallets.push((addr, wallet));
        r
    }

    /// Writes every wallet to the persistent store, later entries
    /// overwriting earlier ones of the same address, and flushes.
    pub fn save(&mut self) -> (r: Result<(), Error>)
        ensures
            final(self).wallets@ == old(self).wallets@,
            r is Ok ==> (forall|i: int|
                0 <= i < old(self).wallets@.len() && (forall|j: int|
                    i < j < old(self).wallets@.len() ==> (#[trigger] old(self).wallets@[j]).0@
                        != old(self).wallets@[i].0@) ==> {
                    let k = vstd::utf8::encode_utf8((#[trigger] old(self).wallets@[i]).0@);
                    &&& crate::kv::kv_view(final(self).db).dom().contains(k)
                    &&& crate::kv::kv_view(final(self).db)[k] == enc_wallet(
                        old(self).wallets@[i].1.private_key@,
                        old(self).wallets@[i].1.public_key@,
                    )
                }),
    {
        let mut i: usize = 0;
        while i < self.wallets.len()
            invariant
                i <= self.wallets@.len(),
                self.wallets@ == old(self).wallets@,
                forall|q: int|
                    0 <= q < i && (forall|j: int|
                        q < j < i ==> (#[trigger] self.wallets@[j]).0@ != self.wallets@[q].0@)
                        ==> {
                        let k = vstd::utf8::encode_utf8((#[trigger] self.wallets@[q]).0@);
                        &&& crate::kv::kv_view(self.db).dom().contains(k)
                        &&& crate::kv::kv_view(self.db)[k] == enc_wallet(
                            self.wallets@[q].1.private_key@,
                            self.wallets@[q].1.public_key@,
                        )
                    },
            decreases self.wallets@.len() - i,
        {
            if self.wallets[i].1.private_key.len() >= 0x7FFF0000usize || self.wallets[i
                ].1.public_key.len() >= 0x7FFF0000usize {
                return Err(Error::Serialization);
            }
            let enc = encode_wallet(&self.wallets[i].1);
            let key: Vec<u8> = vstd::slice::slice_to_vec(self.wallets[i].0.as_str().as_bytes());
            kv_insert(&mut self.db, key.as_slice(), enc.as_slice())?;
            i = i + 1;
            proof {
                assert forall|q: int|
                    0 <= q < i && (forall|j: int|
                        q < j < i ==> (#[trigger] self.wallets@[j]).0@ != self.wallets@[q].0@)
                        implies {
                    let k = vstd::utf8::encode_utf8((#[trigger] self.wallets@[q]).0@);
                    &&& crate::kv::kv_view(self.db).dom().contains(k)
                    &&& crate::kv::kv_view(self.db)[k] == enc_wallet(
                        self.wallets@[q].1.private_key@,
                        self.wallets@[q].1.public_key@,
                    )
                } by {
                    if q < i - 1 {
                        if vstd::utf8::encode_utf8(self.wallets@[q].0@) == vstd::utf8::encode_utf8(
                            self.wallets@[i - 1].0@,
                        ) {
                            vstd::utf8::encode_utf8_decode_utf8(self.wallets@[q].0@);
                            vstd::utf8::encode_utf8_decode_utf8(self.wallets@[i - 1].0@);
                        }
                    }
                }
            }
        }
        kv_flush(&self.db)?;
        Ok(())
    }
}

/// The stored form of a wallet: both keys, length-prefixed.
pub open spec fn enc_wallet(priv_key: Seq<u8>, pub_key: Seq<u8>) -> Seq<u8> {
    crate::codec::enc_bytes(priv_key) + crate::codec::enc_bytes(pub_key)
}

fn encode_wallet(w: &Wallet) -> (r: Vec<u8>)
    requires
        w.private_key@.len() < 0x100000000,
        w.public_key@.len() < 0x100000000,
    ensures
        r@ == enc_wallet(w.private_key@, w.public_key@),
{
    let mut out: Vec<u8> = Vec::new();
    put_byte_string(&mut out, w.private_key.as_slice());
    put_byte_string(&mut out, w.public_key.as_slice());
    assert(out@ =~= enc_wallet(w.private_key@, w.public_key@));
    out
}

fn decode_wallet(bytes: &Vec<u8>) -> (r: Option<Wallet>)
    ensures
        r matches Some(w) ==> enc_wallet(w.private_key@, w.public_key@) == bytes@,
{
    let (private_key, p1) = match get_byte_string(bytes, 0) {
        Some(p) => p,
        None => {
            return None;
        },
    };
    let (public_key, p2) = match get_byte_string(bytes, p1) {
        Some(p) => p,
        None => {
            return None;
        },
    };
    if p2 != bytes.len() {
        return None;
    }
    let w = Wallet { private_key, public_key };
    proof {
        assert(bytes@.skip(0) =~= bytes@);
        let b = bytes@;
        crate::codec::lemma_canon_bytes(b);
        crate::codec::lemma_canon_bytes(b.skip(p1 as int));
        assert(b.skip(p1 as int) =~= crate::codec::enc_bytes(w.public_key@) + b.skip(p2 as int));
        assert(b.skip(p2 as int) =~= Seq::<u8>::empty());
        assert(crate::codec::enc_bytes(w.public_key@) + Seq::<u8>::empty()
            =~= crate::codec::enc_bytes(w.public_key@));
        assert(b =~= enc_wallet(w.private_key@, w.public_key@));
    }
    Some(w)
}

} // verus!
