use vstd::prelude::*;

use crate::block::{
    block_pow_ok, enc_block, sdec_block, wf_block, zero_hash, Block, BlockView,
};
use crate::errors::Error;
use crate::kv::{
    kv_clear, kv_flush, kv_get, kv_insert, kv_open, kv_view,
};
use crate::transaction::{
    find_tx, tx_views, wf_tx, Transaction, TxView,
};
use crate::utils::clone_bytes;

verus! {

/// The coinbase data of the genesis block.
pub open spec fn genesis_data() -> Seq<char> {
    "The Times 03/Jan/2009 Chancellor on brink of second bailout for banks"@
}

/// The reserved key under which the tip hash is stored.
pub open spec fn tip_key_spec() -> Seq<u8> {
    seq![108u8]
}

/// The reserved tip key, as bytes (the letter `l`).
pub fn tip_key() -> (r: Vec<u8>)
    ensures
        r@ == tip_key_spec(),
{
    let mut v: Vec<u8> = Vec::new();
    v.push(108u8);
    proof {
        assert(v@ =~= tip_key_spec());
    }
    v
}

/// A stored value parses as a block exactly when the whole value is
/// one block encoding.
#[verifier::opaque]
pub open spec fn parse_block(bytes: Seq<u8>) -> Option<BlockView> {
    match sdec_block(bytes) {
        Some((b, rest)) => if rest.len() == 0 {
            Some(b)
        } else {
            None
        },
        None => None,
    }
}

/// The chain invariant: starting from `hash` at the given height, the
/// store holds a block per step, each content-addressed, carrying its
/// proof of work, with heights decreasing by one down to the genesis
/// block, whose previous hash is all zero.
pub open spec fn chain_ok(m: Map<Seq<u8>, Seq<u8>>, hash: Seq<u8>, height: int) -> bool
    decreases height,
{
    &&& height >= 0
    &&& hash.len() == 32
    &&& m.dom().contains(hash)
    &&& match parse_block(m[hash]) {
        Some(b) => {
            &&& b.hash == hash
            &&& b.height == height
            &&& wf_block(b)
            &&& block_pow_ok(b)
            &&& b.prev_block_hash.len() == 32
            &&& if height == 0 {
                b.prev_block_hash == zero_hash()
            } else {
                chain_ok(m, b.prev_block_hash, height - 1)
            }
        },
        None => false,
    }
}

/// The blocks of the chain, tip first, ending at genesis.
pub open spec fn chain_seq(m: Map<Seq<u8>, Seq<u8>>, hash: Seq<u8>, height: int) -> Seq<BlockView>
    decreases height,
{
    if height <= 0 {
        seq![parse_block(m[hash]).unwrap()]
    } else {
        seq![parse_block(m[hash]).unwrap()] + chain_seq(
            m,
            parse_block(m[hash]).unwrap().prev_block_hash,
            height - 1,
        )
    }
}

/// Law: in a well-formed chain, walking from the tip block along
/// `prev_hash` reaches the genesis block in exactly `height + 1`
/// steps, with heights descending one by one, every step linked, and
/// every block carrying its proof of work.
pub proof fn lemma_chain_seq_props(m: Map<Seq<u8>, Seq<u8>>, hash: Seq<u8>, height: int)
    requires
        chain_ok(m, hash, height),
    ensures
        chain_seq(m, hash, height).len() == height + 1,
        chain_seq(m, hash, height)[0].hash == hash,
        forall|i: int|
            0 <= i <= height ==> {
                let b = #[trigger] chain_seq(m, hash, height)[i];
                &&& b.height == height - i
                &&& wf_block(b)
                &&& block_pow_ok(b)
                &&& m.dom().contains(b.hash)
                &&& parse_block(m[b.hash]) == Some(b)
                &&& chain_ok(m, b.hash, height - i)
            },
        forall|i: int|
            0 <= i < height ==> (#[trigger] chain_seq(m, hash, height)[i]).prev_block_hash
                == chain_seq(m, hash, height)[i + 1].hash,
        chain_seq(m, hash, height)[height].prev_block_hash == zero_hash(),
        chain_seq(m, hash, height)[height].height == 0,
    decreases height,
{
    let s = chain_seq(m, hash, height);
    let b0 = parse_block(m[hash]).unwrap();
    if height == 0 {
        assert(s =~= seq![b0]);
    } else {
        lemma_chain_seq_props(m, b0.prev_block_hash, height - 1);
        let tail = chain_seq(m, b0.prev_block_hash, height - 1);
        assert(s =~= seq![b0] + tail);
        assert forall|i: int| 0 <= i <= height implies {
            let b = #[trigger] s[i];
            &&& b.height == height - i
            &&& wf_block(b)
            &&& block_pow_ok(b)
            &&& m.dom().contains(b.hash)
            &&& parse_block(m[b.hash]) == Some(b)
            &&& chain_ok(m, b.hash, height - i)
        } by {
            if i == 0 {
                assert(s[0] == b0);
            } else {
                assert(s[i] == tail[i - 1]);
            }
        }
        assert forall|i: int| 0 <= i < height implies (#[trigger] s[i]).prev_block_hash == s[i
            + 1].hash by {
            if i == 0 {
                assert(s[1] == tail[0]);
                assert(tail[0].hash == b0.prev_block_hash);
            } else {
                assert(s[i] == tail[i - 1] && s[i + 1] == tail[i]);
            }
        }
        assert(s[height] == tail[height - 1]);
    }
}

// ------------------------------------------------------------------
// The store.
// ------------------------------------------------------------------

/// The append-only block store: a persistent map from block hashes to
/// encoded blocks, with the reserved tip key pointing at the hash of
/// the best block.  `tip` and `tip_height` mirror the stored tip.
pub struct Blockchain {
    pub tip: Option<Vec<u8>>,
    pub tip_height: i32,
    pub db: sled::Db,
}

impl Blockchain {
    /// The invariant the verified operations preserve: the stored tip
    /// matches the `tip` field and a well-formed chain hangs off it;
    /// with no tip, the store holds no tip key.
    pub open spec fn wf(&self) -> bool {
        match self.tip {
            Some(t) => {
                &&& self.tip_height >= 0
                &&& kv_view(self.db).dom().contains(tip_key_spec())
                &&& kv_view(self.db)[tip_key_spec()] == t@
                &&& chain_ok(kv_view(self.db), t@, self.tip_height as int)
            },
            None => !kv_view(self.db).dom().contains(tip_key_spec()),
        }
    }

    /// The height of the best block, or -1 with no chain.
    pub open spec fn spec_height(&self) -> int {
        if self.tip is Some {
            self.tip_height as int
        } else {
            -1
        }
    }

    /// The best height: -1 when no chain exists yet.
    pub fn get_best_height(&self) -> (r: i32)
        ensures
            r == self.spec_height(),
    {
        match &self.tip {
            Some(_) => self.tip_height,
            None => -1,
        }
    }

    /// Opens the store at `path`, with or without an existing chain.
    /// The tip fields mirror what the disk holds; nothing further is
    /// assumed of disk contents.
    pub fn open(path: &str) -> (r: Result<Blockchain, Error>)
        ensures
            r matches Ok(bc) ==> match bc.tip {
                Some(t) => bc.store().dom().contains(tip_key_spec()) && bc.store()[tip_key_spec()]
                    == t@ && bc.store().dom().contains(t@) && (sdec_block(bc.store()[t@]) matches
                    Some(p) && bc.tip_height == p.0.height),
                None => !bc.store().dom().contains(tip_key_spec()),
            },
    {
        let db = kv_open(path)?;
        let key = tip_key();
        let tip = match kv_get(&db, key.as_slice()) {
            Ok(Some(t)) => Some(t),
            Ok(None) => None,
            Err(e) => {
                return Err(e);
            },
        };
        let tip_height: i32 = match &tip {
            Some(t) => {
                match kv_get(&db, t.as_slice()) {
                    Ok(Some(bytes)) => match Block::decode(&bytes, 0) {
                        Some((b, _)) => {
                            proof {
                                assert(bytes@.skip(0) =~= bytes@);
                            }
                            b.height
                        },
                        None => {
                            return Err(Error::Serialization);
                        },
                    },
                    Ok(None) => {
                        return Err(Error::Serialization);
                    },
                    Err(e) => {
                        return Err(e);
                    },
                }
            },
            None => -1,
        };
        Ok(Blockchain { tip, tip_height, db })
    }

    /// Opens the store and fails with `NoChain` when no chain exists.
    pub fn new(path: &str) -> (r: Result<Blockchain, Error>)
        ensures
            r matches Ok(bc) ==> bc.tip is Some,
    {
        let bc = Blockchain::open(path)?;
        match &bc.tip {
            Some(_) => Ok(bc),
            None => Err(Error::NoChain),
        }
    }

    /// Wipes the store at `path` and mines a fresh chain whose
    /// genesis block holds one coinbase paying `addr`.
    pub fn create(path: &str, addr: &str) -> (r: Result<Blockchain, Error>)
        ensures
            r matches Ok(bc) ==> {
                &&& bc.wf()
                &&& bc.tip is Some
                &&& bc.tip_height == 0
                &&& chain_seq(kv_view(bc.db), bc.tip.unwrap()@, 0).len() == 1
                &&& {
                    let g = chain_seq(kv_view(bc.db), bc.tip.unwrap()@, 0)[0];
                    &&& g.transactions.len() == 1
                    &&& crate::transaction::is_coinbase_tx(g.transactions[0])
                    &&& g.transactions[0].v_out.len() == 1
                    &&& g.transactions[0].v_out[0].value == crate::transaction::SUBSIDY
                    &&& g.transactions[0].v_in[0].pub_key == vstd::utf8::encode_utf8(
                        genesis_data(),
                    )
                    &&& (forall|p: Seq<u8>|
                        5 <= p.len() <= 90 && addr@ == #[trigger] crate::crypto::base58_of(p)
                            ==> g.transactions[0].v_out[0].pub_key_hash == p.subrange(
                            1,
                            p.len() - 4,
                        ))
                }
            },
    {
        let data = String::from_str(
            "The Times 03/Jan/2009 Chancellor on brink of second bailout for banks",
        );
        proof {
            reveal_strlit("The Times 03/Jan/2009 Chancellor on brink of second bailout for banks");
            assert(data@ == genesis_data());
            assert(genesis_data().len() > 0);
        }
        let cbtx = match Transaction::new_coinbase(addr, data) {
            Ok(t) => t,
            Err(e) => {
                return Err(e);
            },
        };
        let ghost cbv = cbtx@;
        let genesis = match Block::new_genesis_block(cbtx) {
            Ok(b) => b,
            Err(e) => {
                return Err(e);
            },
        };
        let mut db = kv_open(path)?;
        kv_clear(&mut db)?;
        let hash = clone_bytes(&genesis.hash);
        let enc = genesis.encode();
        kv_insert(&mut db, hash.as_slice(), enc.as_slice())?;
        let key = tip_key();
        kv_insert(&mut db, key.as_slice(), hash.as_slice())?;
        kv_flush(&db)?;
        proof {
            reveal(parse_block);
            crate::block::lemma_rt_block(genesis@, Seq::empty());
            assert(enc_block(genesis@) + Seq::<u8>::empty() =~= enc_block(genesis@));
            let m = kv_view(db);
            assert(m[genesis@.hash] == enc_block(genesis@));
            assert(parse_block(m[genesis@.hash]) == Some(genesis@));
            assert(genesis@.hash.len() == 32) by {
                assert(crate::block::meets_target(genesis@.hash));
            }
            assert(chain_ok(m, genesis@.hash, 0));
            assert(chain_seq(m, genesis@.hash, 0) =~= seq![genesis@]);
            assert(genesis@.transactions[0] == cbv);
        }
        Ok(Blockchain { tip: Some(hash), tip_height: 0, db })
    }
}


/// Every transaction the chain holds, tip block first, in block
/// order.
#[verifier::opaque]
pub open spec fn chain_txs(m: Map<Seq<u8>, Seq<u8>>, hash: Seq<u8>, height: int) -> Seq<TxView>
    decreases height + 1,
{
    if height < 0 {
        Seq::empty()
    } else {
        parse_block(m[hash]).unwrap().transactions + chain_txs(
            m,
            parse_block(m[hash]).unwrap().prev_block_hash,
            height - 1,
        )
    }
}

/// The first transaction with the given identifier, walking from the
/// tip.
pub open spec fn chain_find(
    m: Map<Seq<u8>, Seq<u8>>,
    hash: Seq<u8>,
    height: int,
    id: Seq<char>,
) -> Option<TxView> {
    find_tx(chain_txs(m, hash, height), id)
}

/// The previous transactions a given transaction's inputs reference,
/// one per input, as the chain provides them.
pub open spec fn chain_prevs(
    m: Map<Seq<u8>, Seq<u8>>,
    hash: Seq<u8>,
    height: int,
    t: TxView,
) -> Seq<TxView> {
    Seq::new(t.v_in.len(), |k: int| chain_find(m, hash, height, t.v_in[k].tx_id).unwrap())
}

/// Searching a concatenation searches the first part, then the rest.
pub proof fn lemma_find_tx_app(a: Seq<TxView>, b: Seq<TxView>, id: Seq<char>)
    ensures
        find_tx(a + b, id) == (match find_tx(a, id) {
            Some(x) => Some(x),
            None => find_tx(b, id),
        }),
    decreases a.len(),
{
    reveal(find_tx);
    if a.len() == 0 {
        assert(a + b =~= b);
    } else {
        assert((a + b)[0] == a[0]);
        assert((a + b).drop_first() =~= a.drop_first() + b);
        lemma_find_tx_app(a.drop_first(), b, id);
    }
}

/// A transaction list that holds an entry under an identifier yields
/// it when searched.
pub proof fn lemma_find_tx_present(s: Seq<TxView>, id: Seq<char>)
    requires
        exists|j: int| 0 <= j < s.len() && (#[trigger] s[j]).id == id,
    ensures
        find_tx(s, id) is Some,
    decreases s.len(),
{
    reveal(find_tx);
    if s.len() > 0 && !(s[0].id == id) {
        let j = choose|j: int| 0 <= j < s.len() && (#[trigger] s[j]).id == id;
        assert(s.drop_first()[j - 1] == s[j]);
        lemma_find_tx_present(s.drop_first(), id);
    }
}

/// A found transaction carries the identifier it was found under.
pub proof fn lemma_find_tx_id(s: Seq<TxView>, id: Seq<char>)
    requires
        find_tx(s, id) is Some,
    ensures
        find_tx(s, id).unwrap().id == id,
    decreases s.len(),
{
    reveal(find_tx);
    if s.len() > 0 && !(s[0].id == id) {
        lemma_find_tx_id(s.drop_first(), id);
    }
}

/// Inserting under a key that is either fresh or not 32 bytes long
/// leaves the chain walk, and everything it reads, unchanged.
#[verifier::rlimit(100)]
pub proof fn lemma_chain_insert(
    m: Map<Seq<u8>, Seq<u8>>,
    hash: Seq<u8>,
    height: int,
    k: Seq<u8>,
    v: Seq<u8>,
)
    requires
        chain_ok(m, hash, height),
        !m.dom().contains(k) || k.len() != 32,
    ensures
        chain_ok(m.insert(k, v), hash, height),
        chain_seq(m.insert(k, v), hash, height) == chain_seq(m, hash, height),
        chain_txs(m.insert(k, v), hash, height) == chain_txs(m, hash, height),
    decreases height,
{
    reveal(chain_txs);
    let m2 = m.insert(k, v);
    assert(hash != k);
    assert(m2[hash] == m[hash]);
    let b = parse_block(m[hash]).unwrap();
    if height > 0 {
        lemma_chain_insert(m, b.prev_block_hash, height - 1, k, v);
    }
    assert(chain_ok(m2, hash, height)) by {
        assert(m2.dom().contains(hash));
    }
    if height == 0 {
        assert(chain_txs(m2, b.prev_block_hash, -1) =~= Seq::<TxView>::empty());
        assert(chain_txs(m, b.prev_block_hash, -1) =~= Seq::<TxView>::empty());
    }
    assert(chain_seq(m2, hash, height) =~= chain_seq(m, hash, height));
    assert(chain_txs(m2, hash, height) =~= chain_txs(m, hash, height));
}

/// Copy of a list of inputs.
fn clone_inputs(ins: &Vec<crate::transaction::TXInput>) -> (r: Vec<crate::transaction::TXInput>)
    ensures
        r@.len() == ins@.len(),
        forall|j: int| 0 <= j < ins@.len() ==> (#[trigger] r@[j])@ == ins@[j]@,
{
    let mut r: Vec<crate::transaction::TXInput> = Vec::new();
    let mut i: usize = 0;
    while i < ins.len()
        invariant
            i <= ins@.len(),
            r@.len() == i,
            forall|j: int| 0 <= j < i ==> (#[trigger] r@[j])@ == ins@[j]@,
        decreases ins@.len() - i,
    {
        r.push(
            crate::transaction::TXInput {
                tx_id: ins[i].tx_id.clone(),
                v_out: ins[i].v_out,
                signature: clone_bytes(&ins[i].signature),
                pub_key: clone_bytes(&ins[i].pub_key),
            },
        );
        i = i + 1;
    }
    r
}

/// Copy of a transaction.
pub fn clone_tx(tx: &Transaction) -> (r: Transaction)
    ensures
        r@ == tx@,
{
    let r = Transaction {
        id: tx.id.clone(),
        v_in: clone_inputs(&tx.v_in),
        v_out: crate::transaction::clone_outputs(&tx.v_out),
    };
    proof {
        assert(r@.v_in =~= tx@.v_in);
        assert(r@.v_out =~= tx@.v_out);
        assert(r@ =~= tx@);
    }
    r
}

impl Blockchain {
    /// The store's contents.
    pub open spec fn store(&self) -> Map<Seq<u8>, Seq<u8>> {
        kv_view(self.db)
    }

    /// The hash of the best block.
    pub open spec fn tip_hash(&self) -> Seq<u8> {
        self.tip.unwrap()@
    }

    /// The blocks of the chain, tip first.
    pub open spec fn chain(&self) -> Seq<BlockView> {
        chain_seq(self.store(), self.tip_hash(), self.tip_height as int)
    }

    /// Every transaction on the chain, tip block first.
    pub open spec fn all_txs(&self) -> Seq<TxView> {
        chain_txs(self.store(), self.tip_hash(), self.tip_height as int)
    }

    /// The block stored under a hash.
    pub fn get_block(&self, block_hash: &[u8]) -> (r: Result<Block, Error>)
        ensures
            r matches Ok(b) ==> self.store().dom().contains(block_hash@) && parse_block(
                self.store()[block_hash@],
            ) == Some(b@) && wf_block(b@),
            self.store().dom().contains(block_hash@) && parse_block(self.store()[block_hash@])
                is Some ==> (r is Ok || r == Err::<Block, Error>(Error::Io)),
            r matches Err(e) ==> e == Error::NoChain || e == Error::Serialization || e
                == Error::Io,
    {
        let bytes = match kv_get(&self.db, block_hash) {
            Ok(Some(b)) => b,
            Ok(None) => {
                return Err(Error::NoChain);
            },
            Err(e) => {
                return Err(e);
            },
        };
        match Block::decode(&bytes, 0) {
            Some((b, used)) => {
                if used == bytes.len() {
                    proof {
                        reveal(parse_block);
                        assert(bytes@.skip(0) =~= bytes@);
                        assert(bytes@.skip(used as int).len() == 0);
                    }
                    Ok(b)
                } else {
                    proof {
                        reveal(parse_block);
                        assert(bytes@.skip(0) =~= bytes@);
                        assert(bytes@.skip(used as int).len() > 0);
                    }
                    Err(Error::Serialization)
                }
            },
            None => {
                proof {
                    reveal(parse_block);
                    assert(bytes@.skip(0) =~= bytes@);
                }
                Err(Error::Serialization)
            },
        }
    }

    /// The blocks from the tip down to genesis.  With no chain, the
    /// empty list.
    #[verifier::rlimit(100)]
    pub fn blocks(&self) -> (r: Result<Vec<Block>, Error>)
        ensures
            self.wf() && self.tip is Some && r is Ok ==> {
                let v = r.unwrap();
                &&& v@.len() == self.tip_height + 1
                &&& (forall|i: int| 0 <= i < v@.len() ==> (#[trigger] v@[i])@ == self.chain()[i])
            },
            self.tip is None ==> (r matches Ok(v) && v@.len() == 0),
            r matches Ok(v) ==> (forall|i: int|
                0 <= i < v@.len() ==> wf_block((#[trigger] v@[i])@)),
    {
        let tip = match &self.tip {
            Some(t) => t,
            None => {
                return Ok(Vec::new());
            },
        };
        let ghost m = self.store();
        let ghost full = self.chain();
        let ghost hh = self.tip_height as int;
        proof {
            if self.wf() {
                lemma_chain_seq_props(m, tip@, hh);
            }
        }
        let mut out: Vec<Block> = Vec::new();
        let mut cur: Vec<u8> = clone_bytes(tip);
        let mut expected: i32 = self.tip_height;
        loop
            invariant
                m == self.store(),
                full == self.chain(),
                hh == self.tip_height as int,
                self.tip matches Some(tt) && tt@ == tip@,
                self.wf() ==> chain_ok(m, tip@, hh),
                expected >= 0 ==> out@.len() == hh - expected,
                self.wf() ==> 0 <= expected <= hh,
                self.wf() ==> chain_ok(m, cur@, expected as int),
                self.wf() ==> cur@ == full[hh - expected].hash,
                self.wf() ==> (forall|i: int|
                    0 <= i < out@.len() ==> (#[trigger] out@[i])@ == full[i]),
                forall|i: int| 0 <= i < out@.len() ==> wf_block((#[trigger] out@[i])@),
            decreases (if expected >= 0 { expected + 1 } else { 0 }),
        {
            proof {
                if self.wf() {
                    lemma_chain_seq_props(m, tip@, hh);
                }
            }
            let b = match self.get_block(cur.as_slice()) {
                Ok(b) => b,
                Err(e) => {
                    return Err(e);
                },
            };
            proof {
                if self.wf() {
                    assert(parse_block(m[cur@]) == Some(b@));
                    assert(b@ == full[hh - expected]);
                }
            }
            let prev = clone_bytes(&b.prev_block_hash);
            out.push(b);
            if expected <= 0 {
                return Ok(out);
            }
            cur = prev;
            expected = expected - 1;
        }
    }

    /// The first transaction on the chain with the given identifier,
    /// walking from the tip.
    #[verifier::rlimit(100)]
    #[verifier::spinoff_prover]
    pub fn find_transaction(&self, id: &String) -> (r: Result<Option<Transaction>, Error>)
        ensures
            self.wf() && self.tip is Some && r is Ok ==> (match r.unwrap() {
                Some(tx) => chain_find(self.store(), self.tip_hash(), self.tip_height as int, id@)
                    == Some(tx@) && wf_tx(tx@),
                None => chain_find(self.store(), self.tip_hash(), self.tip_height as int, id@)
                    is None,
            }),
            self.tip is None ==> (r matches Ok(o) && o is None),
            match r {
                Ok(Some(tx)) => wf_tx(tx@),
                _ => true,
            },
            self.wf() && self.tip is Some ==> (r matches Err(e) ==> e == Error::Io),
            r matches Err(e) ==> e == Error::NoChain || e == Error::Serialization || e
                == Error::Io,
    {
        let tip = match &self.tip {
            Some(t) => t,
            None => {
                return Ok(None);
            },
        };
        let ghost m = self.store();
        let ghost hh = self.tip_height as int;
        let mut cur: Vec<u8> = clone_bytes(tip);
        let mut expected: i32 = self.tip_height;
        loop
            invariant
                m == self.store(),
                hh == self.tip_height as int,
                self.tip matches Some(tt) && tt@ == tip@,
                self.wf() ==> 0 <= expected <= hh,
                self.wf() ==> chain_ok(m, cur@, expected as int),
                self.wf() ==> chain_find(m, tip@, hh, id@) == chain_find(
                    m,
                    cur@,
                    expected as int,
                    id@,
                ),
            decreases (if expected >= 0 { expected + 1 } else { 0 }),
        {
            let b = match self.get_block(cur.as_slice()) {
                Ok(b) => b,
                Err(e) => {
                    return Err(e);
                },
            };
            proof {
                if self.wf() {
                    assert(parse_block(m[cur@]) == Some(b@));
                    assert(chain_txs(m, cur@, expected as int) == b@.transactions + chain_txs(
                        m,
                        b@.prev_block_hash,
                        expected - 1,
                    )) by {
                        reveal(chain_txs);
                    }
                    lemma_find_tx_app(
                        b@.transactions,
                        chain_txs(m, b@.prev_block_hash, expected - 1),
                        id@,
                    );
                }
            }
            match crate::transaction::find_prev(&b.transactions, id) {
                Some(found) => {
                    proof {
                        crate::transaction::lemma_find_tx_member(b@.transactions, id@);
                        let i = choose|i: int|
                            0 <= i < b@.transactions.len() && b@.transactions[i] == find_tx(
                                b@.transactions,
                                id@,
                            ).unwrap();
                        assert(wf_tx(b@.transactions[i]));
                    }
                    let owned = clone_tx(found);
                    return Ok(Some(owned));
                },
                None => {},
            }
            if expected <= 0 {
                proof {
                    if self.wf() {
                        assert(chain_txs(m, b@.prev_block_hash, -1) =~= Seq::<TxView>::empty()) by {
                            reveal(chain_txs);
                        }
                    }
                }
                return Ok(None);
            }
            let prev = clone_bytes(&b.prev_block_hash);
            cur = prev;
            expected = expected - 1;
        }
    }
}


impl Blockchain {
    /// The previous transaction of every input, in input order.
    #[verifier::rlimit(100)]
    fn collect_prevs(&self, tx: &Transaction) -> (r: Result<Vec<Transaction>, Error>)
        requires
            crate::transaction::wf_tx(tx@),
        ensures
            r matches Ok(v) ==> v@.len() == tx@.v_in.len() && (forall|j: int|
                0 <= j < v@.len() ==> wf_tx((#[trigger] v@[j])@)),
            r matches Err(e) ==> e == Error::MissingPrevTx || e == Error::NoChain || e
                == Error::Serialization || e == Error::Io,
            self.wf() && self.tip is Some ==> {
                &&& (r matches Ok(v) ==> tx_views(v@) == chain_prevs(
                    self.store(),
                    self.tip_hash(),
                    self.tip_height as int,
                    tx@,
                ) && (forall|j: int|
                    0 <= j < tx@.v_in.len() ==> #[trigger] chain_find(
                        self.store(),
                        self.tip_hash(),
                        self.tip_height as int,
                        tx@.v_in[j].tx_id,
                    ) is Some))
                &&& (r == Err::<Vec<Transaction>, Error>(Error::MissingPrevTx) ==> exists|k: int|
                    0 <= k < tx@.v_in.len() && chain_find(
                        self.store(),
                        self.tip_hash(),
                        self.tip_height as int,
                        (#[trigger] tx@.v_in[k]).tx_id,
                    ) is None)
                &&& ((forall|k: int|
                    0 <= k < tx@.v_in.len() ==> #[trigger] chain_find(
                        self.store(),
                        self.tip_hash(),
                        self.tip_height as int,
                        tx@.v_in[k].tx_id,
                    ) is Some) ==> (r is Ok || r == Err::<Vec<Transaction>, Error>(Error::Io)))
            },
    {
        let ghost m = self.store();
        let ghost th = self.tip_hash();
        let ghost hh = self.tip_height as int;
        let ghost t = tx@;
        let mut prevs: Vec<Transaction> = Vec::new();
        let mut k: usize = 0;
        while k < tx.v_in.len()
            invariant
                t == tx@,
                m == self.store(),
                th == self.tip_hash(),
                hh == self.tip_height as int,
                crate::transaction::wf_tx(t),
                k <= t.v_in.len(),
                prevs@.len() == k,
                self.wf() && self.tip is Some ==> (forall|j: int|
                    0 <= j < k ==> ((#[trigger] chain_find(m, th, hh, t.v_in[j].tx_id)) matches
                        Some(x) && prevs@[j]@ == x)),
                forall|j: int| 0 <= j < k ==> wf_tx((#[trigger] prevs@[j])@),
            decreases t.v_in.len() - k,
        {
            match self.find_transaction(&tx.v_in[k].tx_id) {
                Ok(Some(p)) => {
                    prevs.push(p);
                },
                Ok(None) => {
                    proof {
                        if self.wf() && self.tip is Some {
                            assert(0 <= k < t.v_in.len() && chain_find(
                                m,
                                th,
                                hh,
                                t.v_in[k as int].tx_id,
                            ) is None);
                        }
                    }
                    return Err(Error::MissingPrevTx);
                },
                Err(e) => {
                    return Err(e);
                },
            }
            k = k + 1;
        }
        proof {
            if self.wf() && self.tip is Some {
                assert(tx_views(prevs@) =~= chain_prevs(m, th, hh, t));
            }
        }
        Ok(prevs)
    }

    /// Verifies a transaction against the previous transactions its
    /// inputs reference on this chain.  Coinbases verify trivially.
    #[verifier::rlimit(100)]
    #[verifier::spinoff_prover]
    pub fn verify_transaction(&self, tx: &Transaction) -> (r: Result<bool, Error>)
        requires
            crate::transaction::wf_tx(tx@),
        ensures
            crate::transaction::is_coinbase_tx(tx@) ==> r == Ok::<bool, Error>(true),
            r matches Err(e) ==> e == Error::MissingPrevTx || e == Error::MalformedInput || e
                == Error::NoChain || e == Error::Serialization || e == Error::Io,
            self.wf() && self.tip is Some && !crate::transaction::is_coinbase_tx(tx@) ==> {
                let prevs = chain_prevs(self.store(), self.tip_hash(), self.tip_height as int, tx@);
                &&& (r matches Ok(b) ==> b == crate::transaction::tx_verifies(tx@, prevs))
                &&& (r == Err::<bool, Error>(Error::MissingPrevTx) ==> exists|k: int|
                    0 <= k < tx@.v_in.len() && chain_find(
                        self.store(),
                        self.tip_hash(),
                        self.tip_height as int,
                        (#[trigger] tx@.v_in[k]).tx_id,
                    ) is None)
                &&& ((forall|k: int|
                    0 <= k < tx@.v_in.len() ==> #[trigger] chain_find(
                        self.store(),
                        self.tip_hash(),
                        self.tip_height as int,
                        tx@.v_in[k].tx_id,
                    ) is Some) && crate::transaction::inputs_checkable(tx@, prevs) ==> (r is Ok || r
                    == Err::<bool, Error>(Error::Io)))
            },
    {
        if tx.is_coinbase() {
            return Ok(true);
        }
        let prevs = match self.collect_prevs(tx) {
            Ok(p) => p,
            Err(e) => {
                return Err(e);
            },
        };
        let res = tx.verify(&prevs);
        proof {
            if self.wf() && self.tip is Some {
                let m = self.store();
                let th = self.tip_hash();
                let hh = self.tip_height as int;
                let t = tx@;
                let cp = chain_prevs(m, th, hh, t);
                assert forall|k: int| 0 <= k < t.v_in.len() implies find_tx(
                    cp,
                    (#[trigger] t.v_in[k]).tx_id,
                ) is Some by {
                    assert(chain_find(m, th, hh, t.v_in[k].tx_id) is Some);
                    lemma_find_tx_id(chain_txs(m, th, hh), t.v_in[k].tx_id);
                    assert(cp[k].id == t.v_in[k].tx_id);
                    lemma_find_tx_present(cp, t.v_in[k].tx_id);
                }
            }
        }
        res
    }

    /// Signs every input of a transaction against the previous
    /// transactions its inputs reference on this chain.
    pub fn sign_transaction(&self, tx: &mut Transaction, private_key: &[u8]) -> (r: Result<
        (),
        Error,
    >)
        requires
            crate::transaction::wf_tx(old(tx)@),
        ensures
            crate::transaction::wf_tx(final(tx)@),
            r is Err ==> final(tx)@ == old(tx)@,
            r is Ok ==> final(tx)@.id == old(tx)@.id && final(tx)@.v_out == old(tx)@.v_out
                && final(tx)@.v_in.len() == old(tx)@.v_in.len(),
            r is Ok ==> (forall|k: int|
                0 <= k < old(tx)@.v_in.len() ==> (#[trigger] final(tx)@.v_in[k]).tx_id
                    == old(tx)@.v_in[k].tx_id && final(tx)@.v_in[k].v_out
                    == old(tx)@.v_in[k].v_out && final(tx)@.v_in[k].pub_key
                    == old(tx)@.v_in[k].pub_key),
            r matches Err(e) ==> e == Error::MissingPrevTx || e == Error::MalformedInput || e
                == Error::NoChain || e == Error::Serialization || e == Error::Io,
            crate::transaction::is_coinbase_tx(old(tx)@) ==> r is Ok && final(tx)@ == old(tx)@,
            self.wf() && self.tip is Some && !crate::transaction::is_coinbase_tx(old(tx)@) && r
                is Ok ==> {
                let prevs = chain_prevs(
                    self.store(),
                    self.tip_hash(),
                    self.tip_height as int,
                    old(tx)@,
                );
                &&& final(tx)@ == crate::transaction::signed_tx(old(tx)@, private_key@, prevs)
                &&& (forall|k: int|
                    0 <= k < old(tx)@.v_in.len() ==> crate::crypto::ecdsa_verifies(
                        crate::crypto::p256_pub_of(private_key@),
                        crate::transaction::signing_msg(
                            old(tx)@,
                            k,
                            crate::transaction::prev_pkh(old(tx)@, prevs, k),
                        ),
                        (#[trigger] final(tx)@.v_in[k]).signature,
                    ))
                &&& (forall|k: int|
                    0 <= k < old(tx)@.v_in.len() ==> (#[trigger] final(tx)@.v_in[k]).signature.len()
                        == 64)
            },
    {
        if tx.is_coinbase() {
            return Ok(());
        }
        let prevs = match self.collect_prevs(tx) {
            Ok(p) => p,
            Err(e) => {
                return Err(e);
            },
        };
        tx.sign(private_key, &prevs)
    }

    /// Stores a block that carries its proof of work; adopts it as
    /// the new tip when its height beats the current best.  A block
    /// whose hash is already present is not overwritten.
    pub fn add_block(&mut self, block: &Block) -> (r: Result<(), Error>)
        requires
            wf_block(block@),
        ensures
            r is Ok ==> block_pow_ok(block@),
            r == Err::<(), Error>(Error::InvalidTransaction) ==> !block_pow_ok(block@)
                && *final(self) == *old(self),
            r is Ok ==> {
                let stored = if old(self).store().dom().contains(block@.hash) {
                    old(self).store()
                } else {
                    old(self).store().insert(block@.hash, enc_block(block@))
                };
                &&& final(self).store().dom().contains(block@.hash)
                &&& (block@.height > old(self).spec_height() ==> final(self).store()
                    == stored.insert(tip_key_spec(), block@.hash) && (final(self).tip matches
                Some(t) && t@ == block@.hash) && final(self).tip_height == block@.height)
                &&& (block@.height <= old(self).spec_height() ==> final(self).store() == stored
                    && final(self).tip == old(self).tip && final(self).tip_height == old(
                    self,
                ).tip_height)
            },
            old(self).wf() && old(self).tip is Some && block@.prev_block_hash == old(
                self,
            ).tip_hash() && block@.height == old(self).tip_height + 1 && !old(
                self,
            ).store().dom().contains(block@.hash) && r is Ok ==> {
                &&& final(self).wf()
                &&& final(self).tip matches Some(t) && t@ == block@.hash
                &&& final(self).tip_height == old(self).tip_height + 1
                &&& final(self).store() == old(self).store().insert(
                    block@.hash,
                    enc_block(block@),
                ).insert(tip_key_spec(), block@.hash)
                &&& final(self).chain() == seq![block@] + old(self).chain()
                &&& final(self).all_txs() == block@.transactions + old(self).all_txs()
            },
    {
        if !block.validate() {
            return Err(Error::InvalidTransaction);
        }
        let ghost old_store = self.store();
        let hash = clone_bytes(&block.hash);
        let present = match kv_get(&self.db, hash.as_slice()) {
            Ok(Some(_)) => true,
            Ok(None) => false,
            Err(e) => {
                return Err(e);
            },
        };
        if !present {
            let enc = block.encode();
            kv_insert(&mut self.db, hash.as_slice(), enc.as_slice())?;
        }
        if block.height > self.get_best_height() {
            let key = tip_key();
            kv_insert(&mut self.db, key.as_slice(), hash.as_slice())?;
            self.tip = Some(hash);
            self.tip_height = block.height;
        }
        kv_flush(&self.db)?;
        proof {
            let b = block@;
            let oldself = *old(self);
            if oldself.wf() && oldself.tip is Some && b.prev_block_hash == oldself.tip_hash()
                && b.height == oldself.tip_height + 1 && !old_store.dom().contains(b.hash) {
                let m1 = old_store.insert(b.hash, enc_block(b));
                let m2 = m1.insert(tip_key_spec(), b.hash);
                assert(b.hash.len() == 32) by {
                    assert(crate::block::meets_target(b.hash));
                }
                lemma_chain_insert(
                    old_store,
                    oldself.tip_hash(),
                    oldself.tip_height as int,
                    b.hash,
                    enc_block(b),
                );
                lemma_chain_insert(
                    m1,
                    oldself.tip_hash(),
                    oldself.tip_height as int,
                    tip_key_spec(),
                    b.hash,
                );
                crate::block::lemma_rt_block(b, Seq::empty());
                assert(enc_block(b) + Seq::<u8>::empty() =~= enc_block(b));
                assert(m2[b.hash] == enc_block(b));
                assert(parse_block(m2[b.hash]) == Some(b)) by {
                    reveal(parse_block);
                }
                assert(chain_ok(m2, b.hash, b.height as int));
                assert(chain_seq(m2, b.hash, b.height as int) =~= seq![b] + chain_seq(
                    m2,
                    b.prev_block_hash,
                    oldself.tip_height as int,
                ));
                assert(self.all_txs() =~= b.transactions + chain_txs(
                    m2,
                    b.prev_block_hash,
                    oldself.tip_height as int,
                )) by {
                    reveal(chain_txs);
                }
            }
        }
        Ok(())
    }

    /// Verifies every transaction, mines a block over the current tip
    /// and appends it.
    pub fn mine_block(&mut self, transactions: Vec<Transaction>) -> (r: Result<Block, Error>)
        requires
            transactions@.len() < 0x100000000,
            crate::transaction::wf_txs(tx_views(transactions@)),
        ensures
            old(self).tip is None ==> r is Err,
            r == Err::<Block, Error>(Error::InvalidTransaction) ==> final(self).store() == old(
                self,
            ).store() && final(self).tip == old(self).tip && final(self).tip_height == old(
                self,
            ).tip_height && (old(self).wf() && old(self).tip is Some ==> exists|k: int|
                0 <= k < transactions@.len() && !crate::transaction::is_coinbase_tx(
                    #[trigger] tx_views(transactions@)[k],
                ) && !crate::transaction::tx_verifies(
                    tx_views(transactions@)[k],
                    chain_prevs(
                        old(self).store(),
                        old(self).tip_hash(),
                        old(self).tip_height as int,
                        tx_views(transactions@)[k],
                    ),
                )),
            old(self).wf() && old(self).tip is Some ==> (r matches Ok(b) ==> {
                &&& final(self).wf()
                &&& wf_block(b@)
                &&& block_pow_ok(b@)
                &&& b@.transactions == tx_views(transactions@)
                &&& b@.height == old(self).tip_height + 1
                &&& b@.prev_block_hash == old(self).tip_hash()
                &&& final(self).tip matches Some(t) && t@ == b@.hash
                &&& final(self).tip_height == old(self).tip_height + 1
                &&& final(self).chain() == seq![b@] + old(self).chain()
                &&& final(self).all_txs() == b@.transactions + old(self).all_txs()
            }),
    {
        let mut k: usize = 0;
        while k < transactions.len()
            invariant
                k <= transactions@.len(),
                self == old(self),
                crate::transaction::wf_txs(tx_views(transactions@)),
            decreases transactions@.len() - k,
        {
            proof {
                assert(tx_views(transactions@)[k as int] == transactions@[k as int]@);
            }
            if !transactions[k].is_coinbase() {
                match self.verify_transaction(&transactions[k]) {
                    Ok(true) => {},
                    Ok(false) => {
                        proof {
                            if self.wf() && self.tip is Some {
                                let tv = tx_views(transactions@);
                                assert(tv[k as int] == transactions@[k as int]@);
                                assert(!crate::transaction::is_coinbase_tx(tv[k as int]));
                                assert(!crate::transaction::tx_verifies(
                                    tv[k as int],
                                    chain_prevs(
                                        self.store(),
                                        self.tip_hash(),
                                        self.tip_height as int,
                                        tv[k as int],
                                    ),
                                ));
                            }
                        }
                        return Err(Error::InvalidTransaction);
                    },
                    Err(e) => {
                        return Err(e);
                    },
                }
            }
            k = k + 1;
        }
        let tip = match &self.tip {
            Some(t) => clone_bytes(t),
            None => {
                return Err(Error::NoChain);
            },
        };
        if self.tip_height >= 0x7FFFFFFEi32 {
            return Err(Error::Protocol);
        }
        if tip.len() != 32 {
            return Err(Error::Serialization);
        }
        let block = match Block::new(transactions, tip, self.tip_height + 1) {
            Ok(b) => b,
            Err(e) => {
                return Err(e);
            },
        };
        match kv_get(&self.db, block.hash.as_slice()) {
            Ok(Some(_)) => {
                return Err(Error::Protocol);
            },
            Ok(None) => {},
            Err(e) => {
                return Err(e);
            },
        }
        match self.add_block(&block) {
            Ok(()) => Ok(block),
            Err(e) => Err(e),
        }
    }
}

} // verus!
