use vstd::prelude::*;

use crate::codec::{
    enc_bytes, enc_i32, enc_u32, enc_u64, get_byte_string, get_i32, get_u32, get_u64,
    lemma_rt_bytes, lemma_rt_i32, lemma_rt_u32, lemma_rt_u64, put_byte_string, put_i32, put_u32,
    put_u64, sdec_bytes, sdec_i32, sdec_u32, sdec_u64,
};
use crate::crypto::{sha256, sha256_of};
use crate::errors::Error;
use crate::transaction::{
    enc_tx, lemma_rt_tx, sdec_tx, tx_views, wf_tx, wf_txs, Transaction, TxView,
};

verus! {

/// How many leading bits of a block hash must be zero.
pub const TARGET_BITS: u32 = 16;

/// The same target measured in whole bytes.
pub const TARGET_BYTES: usize = 2;

// ------------------------------------------------------------------
// Block data model.
// ------------------------------------------------------------------

pub struct Block {
    pub timestamp: u64,
    pub transactions: Vec<Transaction>,
    pub prev_block_hash: Vec<u8>,
    pub hash: Vec<u8>,
    pub nonce: u32,
    pub height: i32,
}

pub struct BlockView {
    pub timestamp: u64,
    pub transactions: Seq<TxView>,
    pub prev_block_hash: Seq<u8>,
    pub hash: Seq<u8>,
    pub nonce: u32,
    pub height: i32,
}

impl View for Block {
    type V = BlockView;

    open spec fn view(&self) -> BlockView {
        BlockView {
            timestamp: self.timestamp,
            transactions: tx_views(self.transactions@),
            prev_block_hash: self.prev_block_hash@,
            hash: self.hash@,
            nonce: self.nonce,
            height: self.height,
        }
    }
}

pub open spec fn wf_block(b: BlockView) -> bool {
    &&& b.transactions.len() < 0x100000000
    &&& wf_txs(b.transactions)
    &&& b.prev_block_hash.len() < 0x100000000
    &&& b.hash.len() < 0x100000000
}

/// The all-zero hash a genesis block points back to.
pub open spec fn zero_hash() -> Seq<u8> {
    Seq::new(32, |i: int| 0u8)
}

// ------------------------------------------------------------------
// Codec.
// ------------------------------------------------------------------

pub open spec fn cat_txs(s: Seq<TxView>) -> Seq<u8>
    decreases s.len(),
{
    if s.len() == 0 {
        Seq::empty()
    } else {
        enc_tx(s[0]) + cat_txs(s.drop_first())
    }
}

pub proof fn lemma_cat_txs_app(a: Seq<TxView>, b: Seq<TxView>)
    ensures
        cat_txs(a + b) == cat_txs(a) + cat_txs(b),
    decreases a.len(),
{
    if a.len() == 0 {
        assert(a + b =~= b);
        assert(cat_txs(a) + cat_txs(b) =~= cat_txs(b));
    } else {
        assert((a + b).drop_first() =~= a.drop_first() + b);
        lemma_cat_txs_app(a.drop_first(), b);
        assert((a + b)[0] == a[0]);
        assert(enc_tx(a[0]) + (cat_txs(a.drop_first()) + cat_txs(b)) =~= (enc_tx(a[0]) + cat_txs(
            a.drop_first(),
        )) + cat_txs(b));
    }
}

/// The deterministic encoding of a whole block.
pub open spec fn enc_block(b: BlockView) -> Seq<u8> {
    enc_u64(b.timestamp) + enc_u32(b.transactions.len() as u32) + cat_txs(b.transactions)
        + enc_bytes(b.prev_block_hash) + enc_bytes(b.hash) + enc_u32(b.nonce) + enc_i32(b.height)
}

pub open spec fn sdec_tx_seq(b: Seq<u8>, n: nat) -> Option<(Seq<TxView>, Seq<u8>)>
    decreases n,
{
    if n == 0 {
        Some((Seq::empty(), b))
    } else {
        match sdec_tx(b) {
            Some((v, r)) => match sdec_tx_seq(r, (n - 1) as nat) {
                Some((s, r2)) => Some((seq![v] + s, r2)),
                None => None,
            },
            None => None,
        }
    }
}

pub open spec fn sdec_block(b: Seq<u8>) -> Option<(BlockView, Seq<u8>)> {
    match sdec_u64(b) {
        Some((timestamp, r1)) => match sdec_u32(r1) {
            Some((n_tx, r2)) => match sdec_tx_seq(r2, n_tx as nat) {
                Some((transactions, r3)) => match sdec_bytes(r3) {
                    Some((prev, r4)) => match sdec_bytes(r4) {
                        Some((hash, r5)) => match sdec_u32(r5) {
                            Some((nonce, r6)) => match sdec_i32(r6) {
                                Some((height, r7)) => Some(
                                    (
                                        BlockView {
                                            timestamp,
                                            transactions,
                                            prev_block_hash: prev,
                                            hash,
                                            nonce,
                                            height,
                                        },
                                        r7,
                                    ),
                                ),
                                None => None,
                            },
                            None => None,
                        },
                        None => None,
                    },
                    None => None,
                },
                None => None,
            },
            None => None,
        },
        None => None,
    }
}

#[verifier::rlimit(100)]
pub proof fn lemma_rt_tx_seq(s: Seq<TxView>, rest: Seq<u8>)
    requires
        forall|k: int| 0 <= k < s.len() ==> wf_tx(#[trigger] s[k]),
    ensures
        sdec_tx_seq(cat_txs(s) + rest, s.len()) == Some((s, rest)),
    decreases s.len(),
{
    if s.len() == 0 {
        assert(cat_txs(s) + rest =~= rest);
        assert(Seq::<TxView>::empty() =~= s);
    } else {
        let tail = s.drop_first();
        let b = cat_txs(s) + rest;
        assert(b =~= enc_tx(s[0]) + (cat_txs(tail) + rest)) by {
            assert(cat_txs(s) == enc_tx(s[0]) + cat_txs(tail));
        }
        assert(sdec_tx(b) == Some((s[0], cat_txs(tail) + rest))) by {
            lemma_rt_tx(s[0], cat_txs(tail) + rest);
        }
        assert(sdec_tx_seq(cat_txs(tail) + rest, tail.len()) == Some((tail, rest))) by {
            lemma_rt_tx_seq(tail, rest);
        }
        assert(seq![s[0]] + tail =~= s);
        assert(sdec_tx_seq(b, s.len()) == Some((s, rest)));
    }
}

/// Concatenation of seven segments and a tail, re-grouped to the right.
proof fn lemma_assoc7(
    s1: Seq<u8>,
    s2: Seq<u8>,
    s3: Seq<u8>,
    s4: Seq<u8>,
    s5: Seq<u8>,
    s6: Seq<u8>,
    s7: Seq<u8>,
    rest: Seq<u8>,
)
    ensures
        (s1 + s2 + s3 + s4 + s5 + s6 + s7) + rest == s1 + (s2 + (s3 + (s4 + (s5 + (s6 + (s7
            + rest)))))),
{
    assert((s1 + s2 + s3 + s4 + s5 + s6 + s7) + rest =~= s1 + (s2 + (s3 + (s4 + (s5 + (s6 + (s7
        + rest)))))));
}

#[verifier::rlimit(100)]
pub proof fn lemma_rt_block(b: BlockView, rest: Seq<u8>)
    requires
        wf_block(b),
    ensures
        sdec_block(enc_block(b) + rest) == Some((b, rest)),
{
    let t7 = enc_i32(b.height) + rest;
    let t6 = enc_u32(b.nonce) + t7;
    let t5 = enc_bytes(b.hash) + t6;
    let t4 = enc_bytes(b.prev_block_hash) + t5;
    let t3 = cat_txs(b.transactions) + t4;
    let t2 = enc_u32(b.transactions.len() as u32) + t3;
    let t1 = enc_u64(b.timestamp) + t2;
    assert(enc_block(b) + rest == t1) by {
        lemma_assoc7(
            enc_u64(b.timestamp),
            enc_u32(b.transactions.len() as u32),
            cat_txs(b.transactions),
            enc_bytes(b.prev_block_hash),
            enc_bytes(b.hash),
            enc_u32(b.nonce),
            enc_i32(b.height),
            rest,
        );
    }
    assert(sdec_u64(t1) == Some((b.timestamp, t2))) by {
        lemma_rt_u64(b.timestamp, t2);
    }
    assert(sdec_u32(t2) == Some((b.transactions.len() as u32, t3))) by {
        lemma_rt_u32(b.transactions.len() as u32, t3);
    }
    assert(sdec_tx_seq(t3, b.transactions.len()) == Some((b.transactions, t4))) by {
        lemma_rt_tx_seq(b.transactions, t4);
    }
    assert(sdec_bytes(t4) == Some((b.prev_block_hash, t5))) by {
        lemma_rt_bytes(b.prev_block_hash, t5);
    }
    assert(sdec_bytes(t5) == Some((b.hash, t6))) by {
        lemma_rt_bytes(b.hash, t6);
    }
    assert(sdec_u32(t6) == Some((b.nonce, t7))) by {
        lemma_rt_u32(b.nonce, t7);
    }
    assert(sdec_i32(t7) == Some((b.height, rest))) by {
        lemma_rt_i32(b.height, rest);
    }
    assert(sdec_block(t1) == Some((b, rest)));
}

pub fn encode_tx_list(txs: &Vec<Transaction>, out: &mut Vec<u8>)
    requires
        txs@.len() < 0x100000000,
        wf_txs(tx_views(txs@)),
    ensures
        final(out)@ == old(out)@ + enc_u32(txs@.len() as u32) + cat_txs(tx_views(txs@)),
{
    let ghost s = tx_views(txs@);
    put_u32(out, txs.len() as u32);
    let mut i: usize = 0;
    while i < txs.len()
        invariant
            i <= txs@.len(),
            s == tx_views(txs@),
            s.len() < 0x100000000,
            wf_txs(s),
            out@ == old(out)@ + enc_u32(s.len() as u32) + cat_txs(s.take(i as int)),
        decreases txs@.len() - i,
    {
        proof {
            assert(s[i as int] == txs@[i as int]@);
        }
        let enc = txs[i].encode();
        crate::codec::push_bytes(out, enc.as_slice());
        i = i + 1;
        proof {
            assert(s.take(i as int) =~= s.take(i - 1) + seq![s[i - 1]]);
            lemma_cat_txs_app(s.take(i - 1), seq![s[i - 1]]);
            assert(seq![s[i - 1]].drop_first() =~= Seq::<TxView>::empty());
            assert(cat_txs(Seq::<TxView>::empty()) =~= Seq::<u8>::empty());
            assert(cat_txs(seq![s[i - 1]]) =~= enc_tx(s[i - 1]));
            assert(out@ =~= old(out)@ + enc_u32(s.len() as u32) + cat_txs(s.take(i as int)));
        }
    }
    assert(s.take(s.len() as int) =~= s);
}

pub fn decode_tx_list(buf: &Vec<u8>, pos: usize, n: u32) -> (r: Option<(Vec<Transaction>, usize)>)
    requires
        pos <= buf@.len(),
    ensures
        match r {
            Some(p) => pos <= p.1 <= buf@.len() && sdec_tx_seq(buf@.skip(pos as int), n as nat)
                == Some((tx_views(p.0@), buf@.skip(p.1 as int))) && wf_txs(tx_views(p.0@))
                && p.0@.len() == n,
            None => sdec_tx_seq(buf@.skip(pos as int), n as nat) is None,
        },
{
    let mut acc: Vec<Transaction> = Vec::new();
    let mut cur: usize = pos;
    let mut k: u32 = 0;
    while k < n
        invariant
            pos <= cur <= buf@.len(),
            k <= n,
            acc@.len() == k,
            wf_txs(tx_views(acc@)),
            sdec_tx_seq(buf@.skip(pos as int), n as nat) == (match sdec_tx_seq(
                buf@.skip(cur as int),
                (n - k) as nat,
            ) {
                Some((s, r2)) => Some((tx_views(acc@) + s, r2)),
                None => None,
            }),
        decreases n - k,
    {
        match Transaction::decode(buf, cur) {
            Some((tx, next)) => {
                proof {
                    let accv = tx_views(acc@);
                    let accv2 = tx_views(acc@.push(tx));
                    assert(accv2 =~= accv + seq![tx@]);
                    assert forall|s: Seq<TxView>| true implies accv + (seq![tx@] + s) == (accv
                        + seq![tx@]) + s by {
                        assert(accv + (seq![tx@] + s) =~= (accv + seq![tx@]) + s);
                    }
                }
                acc.push(tx);
                cur = next;
                k = k + 1;
            },
            None => {
                return None;
            },
        }
    }
    proof {
        let accv = tx_views(acc@);
        assert(sdec_tx_seq(buf@.skip(cur as int), 0) == Some(
            (Seq::<TxView>::empty(), buf@.skip(cur as int)),
        ));
        assert(accv + Seq::<TxView>::empty() =~= accv);
    }
    Some((acc, cur))
}

impl Block {
    /// The deterministic encoding of the whole block.
    pub fn encode(&self) -> (r: Vec<u8>)
        requires
            wf_block(self@),
        ensures
            r@ == enc_block(self@),
    {
        let mut out: Vec<u8> = Vec::new();
        put_u64(&mut out, self.timestamp);
        encode_tx_list(&self.transactions, &mut out);
        put_byte_string(&mut out, self.prev_block_hash.as_slice());
        put_byte_string(&mut out, self.hash.as_slice());
        put_u32(&mut out, self.nonce);
        put_i32(&mut out, self.height);
        assert(out@ =~= enc_block(self@));
        out
    }

    /// Decodes a block starting at `pos`.
    pub fn decode(buf: &Vec<u8>, pos: usize) -> (r: Option<(Block, usize)>)
        requires
            pos <= buf@.len(),
        ensures
            match r {
                Some(p) => pos <= p.1 <= buf@.len() && sdec_block(buf@.skip(pos as int)) == Some(
                    (p.0@, buf@.skip(p.1 as int)),
                ) && wf_block(p.0@),
                None => sdec_block(buf@.skip(pos as int)) is None,
            },
    {
        match get_u64(buf, pos) {
            Some((timestamp, p1)) => match get_u32(buf, p1) {
                Some((n_tx, p2)) => match decode_tx_list(buf, p2, n_tx) {
                    Some((transactions, p3)) => match get_byte_string(buf, p3) {
                        Some((prev, p4)) => match get_byte_string(buf, p4) {
                            Some((hash, p5)) => match get_u32(buf, p5) {
                                Some((nonce, p6)) => match get_i32(buf, p6) {
                                    Some((height, p7)) => Some(
                                        (
                                            Block {
                                                timestamp,
                                                transactions,
                                                prev_block_hash: prev,
                                                hash,
                                                nonce,
                                                height,
                                            },
                                            p7,
                                        ),
                                    ),
                                    None => None,
                                },
                                None => None,
                            },
                            None => None,
                        },
                        None => None,
                    },
                    None => None,
                },
                None => None,
            },
            None => None,
        }
    }
}


// ------------------------------------------------------------------
// Proof of work.
// ------------------------------------------------------------------

/// The bytes hashed by the proof of work for a given nonce: the
/// previous hash, the transactions, the timestamp, the difficulty and
/// the nonce.  The stored `hash` and `nonce` fields are not part of
/// the preimage.
pub open spec fn pow_preimage(b: BlockView, nonce: u32) -> Seq<u8> {
    enc_bytes(b.prev_block_hash) + enc_u32(b.transactions.len() as u32) + cat_txs(b.transactions)
        + enc_u64(b.timestamp) + enc_u32(TARGET_BITS) + enc_u32(nonce)
}

/// Double SHA-256 of the preimage.
pub open spec fn pow_hash_at(b: BlockView, nonce: u32) -> Seq<u8> {
    sha256_of(sha256_of(pow_preimage(b, nonce)))
}

/// The hash a block must carry: the proof-of-work hash at its nonce.
pub open spec fn pow_hash(b: BlockView) -> Seq<u8> {
    pow_hash_at(b, b.nonce)
}

/// Whether a hash clears the difficulty: its first `TARGET_BYTES`
/// bytes (that is, its first `TARGET_BITS` bits) are zero.
pub open spec fn meets_target(h: Seq<u8>) -> bool {
    h.len() == 32 && (forall|i: int| 0 <= i < TARGET_BYTES ==> h[i] == 0)
}

/// Whether a block's stored hash is the proof-of-work hash of its own
/// contents and clears the difficulty.
pub open spec fn block_pow_ok(b: BlockView) -> bool {
    b.hash == pow_hash(b) && meets_target(b.hash)
}

/// Whether the first `TARGET_BYTES` bytes of `h` are zero.
fn check_target(h: &Vec<u8>) -> (r: bool)
    requires
        h@.len() == 32,
    ensures
        r == meets_target(h@),
{
    let mut i: usize = 0;
    while i < TARGET_BYTES
        invariant
            i <= TARGET_BYTES,
            h@.len() == 32,
            forall|j: int| 0 <= j < i ==> h@[j] == 0,
        decreases TARGET_BYTES - i,
    {
        if h[i] != 0 {
            return false;
        }
        i = i + 1;
    }
    true
}

/// Relies on `std::time::SystemTime::now` for the wall clock; nothing
/// is assumed of the value.
#[verifier::external_body]
fn now_ms() -> (r: Result<u64, Error>)
    ensures
        r matches Err(e) ==> e == Error::Io,
{
    std::time::SystemTime::now()
        .duration_since(std::time::UNIX_EPOCH)
        .map(|d| d.as_millis() as u64)
        .map_err(|_| Error::Io)
}

impl Block {
    /// The proof-of-work preimage for a candidate nonce.
    pub fn prepare_hash_data(&self, nonce: u32) -> (r: Vec<u8>)
        requires
            wf_block(self@),
        ensures
            r@ == pow_preimage(self@, nonce),
    {
        let mut out: Vec<u8> = Vec::new();
        put_byte_string(&mut out, self.prev_block_hash.as_slice());
        encode_tx_list(&self.transactions, &mut out);
        put_u64(&mut out, self.timestamp);
        put_u32(&mut out, TARGET_BITS);
        put_u32(&mut out, nonce);
        assert(out@ =~= pow_preimage(self@, nonce));
        out
    }

    /// Recomputes the proof-of-work hash of this block's contents at
    /// its stored nonce.  Pure: the stored hash plays no part.
    pub fn hash(&self) -> (r: Vec<u8>)
        requires
            wf_block(self@),
        ensures
            r@ == pow_hash(self@),
            r@.len() == 32,
    {
        let pre = self.prepare_hash_data(self.nonce);
        let first = sha256(pre.as_slice());
        sha256(first.as_slice())
    }

    /// Whether the stored hash is the recomputed one and clears the
    /// difficulty.
    pub fn validate(&self) -> (r: bool)
        requires
            wf_block(self@),
        ensures
            r == block_pow_ok(self@),
    {
        let h = self.hash();
        let same = crate::utils::bytes_eq(h.as_slice(), self.hash.as_slice());
        same && check_target(&h)
    }

    /// Searches for a nonce whose hash clears the difficulty and
    /// stores hash and nonce.  Fails only if the whole nonce space is
    /// exhausted.
    pub fn run_proof_of_work(&mut self) -> (r: Result<(), Error>)
        requires
            wf_block(old(self)@),
        ensures
            r matches Err(e) ==> e == Error::Protocol,
            r is Ok ==> wf_block(final(self)@) && block_pow_ok(final(self)@)
                && final(self)@.timestamp == old(self)@.timestamp && final(self)@.transactions
                == old(self)@.transactions && final(self)@.prev_block_hash
                == old(self)@.prev_block_hash && final(self)@.height == old(self)@.height,
            r is Err ==> final(self)@ == old(self)@,
    {
        let ghost orig = old(self)@;
        let mut nonce: u32 = 0;
        loop
            invariant
                self == old(self),
                wf_block(orig),
                orig == self@,
            decreases 0x100000000u64 - nonce as u64,
        {
            let pre = self.prepare_hash_data(nonce);
            let first = sha256(pre.as_slice());
            let h = sha256(first.as_slice());
            if check_target(&h) {
                self.hash = h;
                self.nonce = nonce;
                proof {
                    assert(self@.prev_block_hash == orig.prev_block_hash);
                    assert(self@.transactions == orig.transactions);
                    assert(pow_preimage(self@, nonce) == pow_preimage(orig, nonce));
                }
                return Ok(());
            }
            if nonce == 0xFFFFFFFFu32 {
                return Err(Error::Protocol);
            }
            nonce = nonce + 1;
        }
    }

    /// Mines a new block over the given transactions and previous
    /// hash.
    pub fn new(transactions: Vec<Transaction>, prev_block_hash: Vec<u8>, height: i32) -> (r:
        Result<Block, Error>)
        requires
            transactions@.len() < 0x100000000,
            wf_txs(tx_views(transactions@)),
            prev_block_hash@.len() < 0x100000000,
        ensures
            r matches Err(e) ==> e == Error::Io || e == Error::Protocol,
            r matches Ok(b) ==> wf_block(b@) && block_pow_ok(b@) && b@.transactions == tx_views(
                transactions@,
            ) && b@.prev_block_hash == prev_block_hash@ && b@.height == height,
    {
        let timestamp = match now_ms() {
            Ok(t) => t,
            Err(e) => {
                return Err(e);
            },
        };
        let mut block = Block {
            timestamp,
            transactions,
            prev_block_hash,
            hash: Vec::new(),
            nonce: 0,
            height,
        };
        match block.run_proof_of_work() {
            Ok(()) => Ok(block),
            Err(e) => Err(e),
        }
    }

    /// The genesis block: height zero over the all-zero previous hash,
    /// holding exactly the given coinbase.
    pub fn new_genesis_block(cbtx: Transaction) -> (r: Result<Block, Error>)
        requires
            wf_tx(cbtx@),
        ensures
            r matches Ok(b) ==> wf_block(b@) && block_pow_ok(b@) && b@.transactions == seq![cbtx@]
                && b@.prev_block_hash == zero_hash() && b@.height == 0,
    {
        let mut zero: Vec<u8> = Vec::new();
        let mut i: usize = 0;
        while i < 32
            invariant
                i <= 32,
                zero@ =~= Seq::new(i as nat, |j: int| 0u8),
            decreases 32 - i,
        {
            zero.push(0u8);
            i = i + 1;
            assert(zero@ =~= Seq::new(i as nat, |j: int| 0u8));
        }
        assert(zero@ =~= zero_hash());
        let txs = vec![cbtx];
        assert(tx_views(txs@) =~= seq![txs@[0]@]);
        Block::new(txs, zero, 0)
    }
}

} // verus!
