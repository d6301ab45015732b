use vstd::prelude::*;

use crate::block::{wf_block, Block, BlockView};
use crate::blockchain::{chain_ok, Blockchain};
use crate::errors::Error;
use crate::kv::{kv_clear, kv_entries, kv_flush, kv_get, kv_insert, kv_open, kv_remove, kv_view};
use crate::transaction::{
    enc_outs, is_coinbase_tx, sdec_outs, wf_out, wf_outs, wf_tx, TXOutput, TXOutputs, Transaction,
    TxInView, TxOutView, TxView,
};
use crate::utils::{bytes_eq, clone_bytes};

verus! {

// ------------------------------------------------------------------
// The reference scan: which outputs of which transactions are
// unspent, derived from the chain alone.  The index maps the UTF-8
// bytes of a transaction identifier to the outputs of that
// transaction that no later transaction spends.
// ------------------------------------------------------------------

/// A stored record parses when the whole value is one output-list
/// encoding.
#[verifier::opaque]
pub open spec fn parse_outs(bytes: Seq<u8>) -> Option<Seq<TxOutView>> {
    match sdec_outs(bytes) {
        Some((s, rest)) => if rest.len() == 0 {
            Some(s)
        } else {
            None
        },
        None => None,
    }
}

/// The output references a transaction spends: nothing for a
/// coinbase.
pub open spec fn tx_spends(t: TxView) -> Set<(Seq<char>, int)> {
    if is_coinbase_tx(t) {
        Set::empty()
    } else {
        Set::new(
            |p: (Seq<char>, int)|
                exists|k: int|
                    0 <= k < t.v_in.len() && (#[trigger] t.v_in[k]).tx_id == p.0
                        && t.v_in[k].v_out as int == p.1,
        )
    }
}

/// The outputs of `t` from index `i` on that the spent set does not
/// cover.
#[verifier::opaque]
pub open spec fn tx_unspent_from(t: TxView, spent: Set<(Seq<char>, int)>, i: int) -> Seq<TxOutView>
    decreases t.v_out.len() - i,
{
    if i < 0 || i >= t.v_out.len() {
        Seq::empty()
    } else if spent.contains((t.id, i)) {
        tx_unspent_from(t, spent, i + 1)
    } else {
        seq![t.v_out[i]] + tx_unspent_from(t, spent, i + 1)
    }
}

/// One transaction's contribution to the index: its unspent outputs,
/// appended to any record the identifier already has.
#[verifier::opaque]
pub open spec fn scan_step(
    acc: Map<Seq<u8>, Seq<TxOutView>>,
    t: TxView,
    spent: Set<(Seq<char>, int)>,
) -> Map<Seq<u8>, Seq<TxOutView>> {
    let outs = tx_unspent_from(t, spent, 0);
    let key = vstd::utf8::encode_utf8(t.id);
    if outs.len() == 0 {
        acc
    } else if acc.dom().contains(key) {
        acc.insert(key, acc[key] + outs)
    } else {
        acc.insert(key, outs)
    }
}

/// Scans transactions in order (tip block first), accumulating the
/// index and the set of spent output references.
#[verifier::opaque]
pub open spec fn scan_utxos(
    txs: Seq<TxView>,
    spent: Set<(Seq<char>, int)>,
    acc: Map<Seq<u8>, Seq<TxOutView>>,
) -> (Map<Seq<u8>, Seq<TxOutView>>, Set<(Seq<char>, int)>)
    decreases txs.len(),
{
    if txs.len() == 0 {
        (acc, spent)
    } else {
        scan_utxos(txs.drop_first(), spent.union(tx_spends(txs[0])), scan_step(acc, txs[0], spent))
    }
}

/// The reference UTXO index of a whole chain.
pub open spec fn chain_utxo(txs: Seq<TxView>) -> Map<Seq<u8>, Seq<TxOutView>> {
    scan_utxos(txs, Set::empty(), Map::empty()).0
}

/// Every transaction in a list of blocks, in block order.
pub open spec fn blocks_txs(bs: Seq<crate::block::BlockView>) -> Seq<TxView>
    decreases bs.len(),
{
    if bs.len() == 0 {
        Seq::empty()
    } else {
        bs[0].transactions + blocks_txs(bs.drop_first())
    }
}

/// Walking the chain and flattening its blocks' transactions gives
/// exactly the chain's transaction sequence.
pub proof fn lemma_chain_txs_blocks(m: Map<Seq<u8>, Seq<u8>>, hash: Seq<u8>, height: int)
    requires
        chain_ok(m, hash, height),
    ensures
        crate::blockchain::chain_txs(m, hash, height) == blocks_txs(
            crate::blockchain::chain_seq(m, hash, height),
        ),
    decreases height,
{
    reveal(crate::blockchain::chain_txs);
    let b = crate::blockchain::parse_block(m[hash]).unwrap();
    let s = crate::blockchain::chain_seq(m, hash, height);
    assert(s[0] == b);
    assert(s.len() > 0);
    assert(blocks_txs(s) == s[0].transactions + blocks_txs(s.drop_first()));
    assert(crate::blockchain::chain_txs(m, hash, height) == b.transactions
        + crate::blockchain::chain_txs(m, b.prev_block_hash, height - 1));
    if height == 0 {
        assert(s.drop_first() =~= Seq::<crate::block::BlockView>::empty());
        assert(crate::blockchain::chain_txs(m, b.prev_block_hash, -1) =~= Seq::<TxView>::empty());
        assert(blocks_txs(Seq::<crate::block::BlockView>::empty()) =~= Seq::<TxView>::empty());
        assert(crate::blockchain::chain_txs(m, hash, height) =~= blocks_txs(s));
    } else {
        lemma_chain_txs_blocks(m, b.prev_block_hash, height - 1);
        assert(s.drop_first() =~= crate::blockchain::chain_seq(m, b.prev_block_hash, height - 1));
        assert(blocks_txs(s.drop_first()) == crate::blockchain::chain_txs(
            m,
            b.prev_block_hash,
            height - 1,
        ));
        assert(crate::blockchain::chain_txs(m, hash, height) =~= blocks_txs(s));
    }
}

/// The byte form the store holds: each record encoded.
pub open spec fn store_of(u: Map<Seq<u8>, Seq<TxOutView>>) -> Map<Seq<u8>, Seq<u8>> {
    Map::new(|k: Seq<u8>| u.dom().contains(k), |k: Seq<u8>| enc_outs(u[k]))
}

// ------------------------------------------------------------------
// The incremental update: what one block does to the stored records.
// ------------------------------------------------------------------

/// The outputs left when index `idx` is consumed; out-of-range
/// indices consume nothing.
pub open spec fn drop_output(outs: Seq<TxOutView>, idx: int) -> Seq<TxOutView> {
    if 0 <= idx < outs.len() {
        outs.remove(idx)
    } else {
        outs
    }
}

/// One input applied to the records: its transaction's record loses
/// the consumed output, and is removed when nothing survives.  `None`
/// when the record is absent or does not parse.
pub open spec fn apply_input(m: Map<Seq<u8>, Seq<u8>>, i: TxInView) -> Option<
    Map<Seq<u8>, Seq<u8>>,
> {
    let key = vstd::utf8::encode_utf8(i.tx_id);
    if !m.dom().contains(key) {
        None
    } else {
        match parse_outs(m[key]) {
            Some(outs) => {
                let kept = drop_output(outs, i.v_out as int);
                if kept.len() == 0 {
                    Some(m.remove(key))
                } else {
                    Some(m.insert(key, enc_outs(kept)))
                }
            },
            None => None,
        }
    }
}

pub open spec fn apply_inputs(m: Map<Seq<u8>, Seq<u8>>, ins: Seq<TxInView>, k: int) -> Option<
    Map<Seq<u8>, Seq<u8>>,
>
    decreases ins.len() - k,
{
    if k < 0 || k >= ins.len() {
        Some(m)
    } else {
        match apply_input(m, ins[k]) {
            Some(m2) => apply_inputs(m2, ins, k + 1),
            None => None,
        }
    }
}

/// One transaction applied: a non-coinbase consumes what its inputs
/// reference, then the transaction's full output list enters as a
/// fresh record.
pub open spec fn apply_tx(m: Map<Seq<u8>, Seq<u8>>, t: TxView) -> Option<Map<Seq<u8>, Seq<u8>>> {
    let after = if is_coinbase_tx(t) {
        Some(m)
    } else {
        apply_inputs(m, t.v_in, 0)
    };
    match after {
        Some(m2) => Some(m2.insert(vstd::utf8::encode_utf8(t.id), enc_outs(t.v_out))),
        None => None,
    }
}

pub open spec fn apply_txs(m: Map<Seq<u8>, Seq<u8>>, txs: Seq<TxView>, k: int) -> Option<
    Map<Seq<u8>, Seq<u8>>,
>
    decreases txs.len() - k,
{
    if k < 0 || k >= txs.len() {
        Some(m)
    } else {
        match apply_tx(m, txs[k]) {
            Some(m2) => apply_txs(m2, txs, k + 1),
            None => None,
        }
    }
}

/// A whole block applied to the records, transaction by transaction.
pub open spec fn apply_block(m: Map<Seq<u8>, Seq<u8>>, b: BlockView) -> Option<
    Map<Seq<u8>, Seq<u8>>,
> {
    apply_txs(m, b.transactions, 0)
}

// ------------------------------------------------------------------
// What the queries return, stated over the stored records.
// ------------------------------------------------------------------

/// The outputs of one record locked to a key, in record order.
pub open spec fn locked_outs(outs: Seq<TxOutView>, pkh: Seq<u8>) -> Seq<TxOutView>
    decreases outs.len(),
{
    if outs.len() == 0 {
        Seq::empty()
    } else {
        (if outs[0].pub_key_hash == pkh {
            seq![outs[0]]
        } else {
            Seq::empty()
        }) + locked_outs(outs.drop_first(), pkh)
    }
}

pub proof fn lemma_locked_outs_app(a: Seq<TxOutView>, b: Seq<TxOutView>, pkh: Seq<u8>)
    ensures
        locked_outs(a + b, pkh) == locked_outs(a, pkh) + locked_outs(b, pkh),
    decreases a.len(),
{
    if a.len() == 0 {
        assert(a + b =~= b);
        assert(locked_outs(a, pkh) + locked_outs(b, pkh) =~= locked_outs(b, pkh));
    } else {
        assert((a + b).drop_first() =~= a.drop_first() + b);
        lemma_locked_outs_app(a.drop_first(), b, pkh);
        assert((a + b)[0] == a[0]);
        assert(locked_outs(a + b, pkh) =~= locked_outs(a, pkh) + locked_outs(b, pkh));
    }
}

/// The locked outputs across an enumeration of record keys.
pub open spec fn locked_across(
    m: Map<Seq<u8>, Seq<u8>>,
    keys: Seq<Seq<u8>>,
    pkh: Seq<u8>,
) -> Seq<TxOutView>
    decreases keys.len(),
{
    if keys.len() == 0 {
        Seq::empty()
    } else {
        (match parse_outs(m[keys[0]]) {
            Some(outs) => locked_outs(outs, pkh),
            None => Seq::empty(),
        }) + locked_across(m, keys.drop_first(), pkh)
    }
}

pub proof fn lemma_locked_across_app(
    m: Map<Seq<u8>, Seq<u8>>,
    a: Seq<Seq<u8>>,
    b: Seq<Seq<u8>>,
    pkh: Seq<u8>,
)
    ensures
        locked_across(m, a + b, pkh) == locked_across(m, a, pkh) + locked_across(m, b, pkh),
    decreases a.len(),
{
    if a.len() == 0 {
        assert(a + b =~= b);
        assert(locked_across(m, a, pkh) + locked_across(m, b, pkh) =~= locked_across(m, b, pkh));
    } else {
        assert((a + b).drop_first() =~= a.drop_first() + b);
        lemma_locked_across_app(m, a.drop_first(), b, pkh);
        assert((a + b)[0] == a[0]);
        assert(locked_across(m, a + b, pkh) =~= locked_across(m, a, pkh) + locked_across(
            m,
            b,
            pkh,
        ));
    }
}

/// Whether a key list enumerates a map's keys exactly once each.
pub open spec fn enumerates(m: Map<Seq<u8>, Seq<u8>>, keys: Seq<Seq<u8>>) -> bool {
    &&& (forall|q: int| 0 <= q < keys.len() ==> m.dom().contains(#[trigger] keys[q]))
    &&& (forall|q1: int, q2: int| 0 <= q1 < q2 < keys.len() ==> keys[q1] != keys[q2])
    &&& (forall|k: Seq<u8>|
        #[trigger] m.dom().contains(k) ==> exists|q: int| 0 <= q < keys.len() && keys[q] == k)
}

/// The value of the outputs a selection picks from one record.
pub open spec fn group_sum(outs: Seq<TxOutView>, idxs: Seq<i32>) -> int
    decreases idxs.len(),
{
    if idxs.len() == 0 {
        0
    } else {
        group_sum(outs, idxs.drop_last()) + outs[idxs.last() as int].value
    }
}

/// The views of a selection: each record's identifier text with the
/// picked output indices.
pub open spec fn sel_views(s: Seq<(String, Vec<i32>)>) -> Seq<(Seq<char>, Seq<i32>)> {
    s.map_values(|p: (String, Vec<i32>)| (p.0@, p.1@))
}

/// The total value a selection picks.
pub open spec fn sel_sum(m: Map<Seq<u8>, Seq<u8>>, sel: Seq<(Seq<char>, Seq<i32>)>) -> int
    decreases sel.len(),
{
    if sel.len() == 0 {
        0
    } else {
        sel_sum(m, sel.drop_last()) + (match parse_outs(
            m[vstd::utf8::encode_utf8(sel.last().0)],
        ) {
            Some(outs) => group_sum(outs, sel.last().1),
            None => 0,
        })
    }
}

/// A selection is sound: every picked pair names a stored, parsed
/// record and an in-range output locked to the key with a
/// non-negative value; records appear once and indices ascend.
pub open spec fn sel_wf(
    m: Map<Seq<u8>, Seq<u8>>,
    sel: Seq<(Seq<char>, Seq<i32>)>,
    pkh: Seq<u8>,
) -> bool {
    &&& (forall|q: int|
        0 <= q < sel.len() ==> {
            let key = vstd::utf8::encode_utf8((#[trigger] sel[q]).0);
            &&& m.dom().contains(key)
            &&& parse_outs(m[key]) is Some
            &&& (forall|j: int|
                0 <= j < sel[q].1.len() ==> 0 <= #[trigger] sel[q].1[j] < parse_outs(
                    m[key],
                ).unwrap().len() && parse_outs(m[key]).unwrap()[sel[q].1[j] as int].pub_key_hash
                    == pkh && parse_outs(m[key]).unwrap()[sel[q].1[j] as int].value >= 0)
            &&& (forall|j1: int, j2: int|
                0 <= j1 < j2 < sel[q].1.len() ==> sel[q].1[j1] < sel[q].1[j2])
        })
    &&& (forall|q1: int, q2: int|
        0 <= q1 < q2 < sel.len() ==> vstd::utf8::encode_utf8((#[trigger] sel[q1]).0)
            != vstd::utf8::encode_utf8((#[trigger] sel[q2]).0))
}

/// Whether the selection picks the `j`-th output of the record under
/// key `k`.
pub open spec fn selected_in(sel: Seq<(Seq<char>, Seq<i32>)>, k: Seq<u8>, j: int) -> bool {
    exists|q: int, jj: int|
        0 <= q < sel.len() && vstd::utf8::encode_utf8((#[trigger] sel[q]).0) == k && 0 <= jj
            < sel[q].1.len() && (#[trigger] sel[q].1[jj]) as int == j
}

/// The selection exhausted the store: every parsed record's
/// representable, non-negative output locked to the key was picked.
pub open spec fn sel_covers(
    m: Map<Seq<u8>, Seq<u8>>,
    sel: Seq<(Seq<char>, Seq<i32>)>,
    pkh: Seq<u8>,
) -> bool {
    forall|k: Seq<u8>, j: int|
        #![trigger m.dom().contains(k), parse_outs(m[k]).unwrap()[j]]
        m.dom().contains(k) ==> parse_outs(m[k]) is Some && (0 <= j < parse_outs(
            m[k],
        ).unwrap().len() && j < 0x7FFFFFFF && parse_outs(m[k]).unwrap()[j].pub_key_hash == pkh
            && parse_outs(m[k]).unwrap()[j].value >= 0 ==> selected_in(sel, k, j))
}

/// The inputs one selected record contributes, in index order, each
/// carrying the spender's public key and no signature yet.
pub open spec fn group_inputs(id: Seq<char>, idxs: Seq<i32>, pub_key: Seq<u8>) -> Seq<TxInView> {
    Seq::new(
        idxs.len(),
        |j: int|
            TxInView {
                tx_id: id,
                v_out: idxs[j],
                signature: Seq::empty(),
                pub_key: pub_key,
            },
    )
}

/// The inputs a whole selection contributes, record by record.
pub open spec fn sel_inputs(sel: Seq<(Seq<char>, Seq<i32>)>, pub_key: Seq<u8>) -> Seq<TxInView>
    decreases sel.len(),
{
    if sel.len() == 0 {
        Seq::empty()
    } else {
        sel_inputs(sel.drop_last(), pub_key) + group_inputs(
            sel.last().0,
            sel.last().1,
            pub_key,
        )
    }
}

/// Law: the rebuilt records are a function of the chain's
/// transactions alone, so rebuilding the index any number of times,
/// and whatever the stores held before, always yields the same
/// records; in particular two rebuilds from the same chain agree.
pub proof fn lemma_reindex_idempotent(
    txs: Seq<TxView>,
    first: Map<Seq<u8>, Seq<u8>>,
    second: Map<Seq<u8>, Seq<u8>>,
)
    requires
        first == store_of(chain_utxo(txs)),
        second == store_of(chain_utxo(txs)),
    ensures
        first == second,
{
}

// ------------------------------------------------------------------
// The index itself.
// ------------------------------------------------------------------

/// The on-disk UTXO index, owning the chain it is derived from.
pub struct UTXOSet {
    pub bc: Blockchain,
    pub db: sled::Db,
}

/// Whether a spent list holds a reference.
fn spent_contains(spent: &Vec<(String, i32)>, id: &String, idx: i32) -> (r: bool)
    ensures
        r == exists|i: int|
            0 <= i < spent@.len() && (#[trigger] spent@[i]).0@ == id@ && spent@[i].1 == idx,
{
    let mut i: usize = 0;
    while i < spent.len()
        invariant
            i <= spent@.len(),
            forall|j: int|
                0 <= j < i ==> !((#[trigger] spent@[j]).0@ == id@ && spent@[j].1 == idx),
        decreases spent@.len() - i,
    {
        if spent[i].0 == *id && spent[i].1 == idx {
            return true;
        }
        i = i + 1;
    }
    false
}

/// The spent set an exec list stands for.
pub open spec fn spent_set_of(s: Seq<(String, i32)>) -> Set<(Seq<char>, int)> {
    Set::new(
        |p: (Seq<char>, int)|
            exists|i: int| 0 <= i < s.len() && (#[trigger] s[i]).0@ == p.0 && s[i].1 as int == p.1,
    )
}

/// Whether an exec record list stands for the given index map.
pub open spec fn recs_match(
    rs: Seq<(Vec<u8>, TXOutputs)>,
    acc: Map<Seq<u8>, Seq<TxOutView>>,
) -> bool {
    &&& (forall|i: int, j: int| 0 <= i < j < rs.len() ==> (#[trigger] rs[i]).0@ != (#[trigger] rs[j]).0@)
    &&& (forall|i: int|
        0 <= i < rs.len() ==> acc.dom().contains((#[trigger] rs[i]).0@) && acc[rs[i].0@]
            == rs[i].1@ && wf_outs(rs[i].1@))
    &&& (forall|k: Seq<u8>|
        #[trigger] acc.dom().contains(k) ==> exists|i: int| 0 <= i < rs.len() && (#[trigger] rs[i]).0@ == k)
}

impl UTXOSet {
    /// Opens the index store at `path` over the given chain.
    pub fn new(bc: Blockchain, path: &str) -> (r: Result<UTXOSet, Error>)
        ensures
            r matches Ok(u) ==> u.bc == bc,
    {
        let db = kv_open(path)?;
        Ok(UTXOSet { bc, db })
    }

    /// The stored records.
    pub open spec fn view_map(&self) -> Map<Seq<u8>, Seq<u8>> {
        kv_view(self.db)
    }
}


/// Appends clones of `src` to `dst`.
fn append_outputs(dst: &mut Vec<TXOutput>, src: &Vec<TXOutput>)
    ensures
        final(dst)@.map_values(|t: TXOutput| t@) == old(dst)@.map_values(|t: TXOutput| t@)
            + src@.map_values(|t: TXOutput| t@),
        final(dst)@.len() == old(dst)@.len() + src@.len(),
{
    let ghost orig = dst@.map_values(|t: TXOutput| t@);
    let ghost srcv = src@.map_values(|t: TXOutput| t@);
    let mut i: usize = 0;
    while i < src.len()
        invariant
            i <= src@.len(),
            srcv == src@.map_values(|t: TXOutput| t@),
            orig.len() + i == dst@.len(),
            dst@.map_values(|t: TXOutput| t@) == orig + srcv.take(i as int),
        decreases src@.len() - i,
    {
        let ghost prev = dst@.map_values(|t: TXOutput| t@);
        dst.push(
            TXOutput { value: src[i].value, pub_key_hash: clone_bytes(&src[i].pub_key_hash) },
        );
        i = i + 1;
        proof {
            assert(dst@.map_values(|t: TXOutput| t@) =~= prev.push(srcv[i - 1]));
            assert(srcv.take(i as int) =~= srcv.take(i - 1).push(srcv[i - 1]));
            assert((orig + srcv.take(i - 1)).push(srcv[i - 1]) =~= orig + srcv.take(i as int));
        }
    }
    proof {
        assert(srcv.take(srcv.len() as int) =~= srcv);
    }
}

/// The index of the record stored under `key`, if any.
fn find_record(records: &Vec<(Vec<u8>, TXOutputs)>, key: &Vec<u8>) -> (r: Option<usize>)
    ensures
        match r {
            Some(idx) => idx < records@.len() && records@[idx as int].0@ == key@,
            None => forall|p: int| 0 <= p < records@.len() ==> (#[trigger] records@[p]).0@ != key@,
        },
{
    let mut fi: usize = 0;
    while fi < records.len()
        invariant
            fi <= records@.len(),
            forall|p: int| 0 <= p < fi ==> (#[trigger] records@[p]).0@ != key@,
        decreases records@.len() - fi,
    {
        if bytes_eq(records[fi].0.as_slice(), key.as_slice()) {
            return Some(fi);
        }
        fi = fi + 1;
    }
    None
}

/// This transaction's still-unspent outputs, given what later
/// transactions already spent.
fn collect_unspent(tx: &Transaction, spent: &Vec<(String, i32)>) -> (r: Option<Vec<TXOutput>>)
    requires
        wf_tx(tx@),
    ensures
        r matches Some(v) ==> v@.map_values(|o: TXOutput| o@) == tx_unspent_from(
            tx@,
            spent_set_of(spent@),
            0,
        ) && wf_outs(v@.map_values(|o: TXOutput| o@)),
{
    let ghost t = tx@;
    let ghost sp = spent_set_of(spent@);
    if tx.v_out.len() >= 0x7FFF0000usize {
        return None;
    }
    let mut outs: Vec<TXOutput> = Vec::new();
    let mut oj: usize = 0;
    while oj < tx.v_out.len()
        invariant
            oj <= tx.v_out@.len(),
            tx.v_out@.len() < 0x7FFF0000,
            t == tx@,
            wf_tx(t),
            sp == spent_set_of(spent@),
            outs@.len() <= oj,
            tx_unspent_from(t, sp, 0) == outs@.map_values(|o: TXOutput| o@) + tx_unspent_from(
                t,
                sp,
                oj as int,
            ),
            wf_outs(outs@.map_values(|o: TXOutput| o@)),
        decreases tx.v_out@.len() - oj,
    {
        let is_spent = spent_contains(spent, &tx.id, oj as i32);
        proof {
            reveal(tx_unspent_from);
            assert(is_spent == sp.contains((t.id, oj as int)));
        }
        let ghost prev = outs@.map_values(|o: TXOutput| o@);
        if !is_spent {
            outs.push(
                TXOutput {
                    value: tx.v_out[oj].value,
                    pub_key_hash: clone_bytes(&tx.v_out[oj].pub_key_hash),
                },
            );
            proof {
                assert(outs@.map_values(|o: TXOutput| o@) =~= prev.push(t.v_out[oj as int]));
                assert(prev.push(t.v_out[oj as int]) =~= prev + seq![t.v_out[oj as int]]);
                assert(prev + (seq![t.v_out[oj as int]] + tx_unspent_from(t, sp, oj + 1)) =~= (prev
                    + seq![t.v_out[oj as int]]) + tx_unspent_from(t, sp, oj + 1));
            }
        }
        oj = oj + 1;
    }
    proof {
        reveal(tx_unspent_from);
        assert(tx_unspent_from(t, sp, tx.v_out@.len() as int) =~= Seq::<TxOutView>::empty());
        assert(outs@.map_values(|o: TXOutput| o@) + Seq::<TxOutView>::empty() =~= outs@.map_values(
            |o: TXOutput| o@,
        ));
    }
    Some(outs)
}

/// Feeds one transaction into the records and the spent list, exactly
/// as the reference scan does.
#[verifier::rlimit(100)]
fn process_tx(
    records: &mut Vec<(Vec<u8>, TXOutputs)>,
    spent: &mut Vec<(String, i32)>,
    tx: &Transaction,
    Ghost(acc): Ghost<Map<Seq<u8>, Seq<TxOutView>>>,
) -> (r: Result<(), Error>)
    requires
        wf_tx(tx@),
        recs_match(old(records)@, acc),
    ensures
        r is Ok ==> recs_match(
            final(records)@,
            scan_step(acc, tx@, spent_set_of(old(spent)@)),
        ) && spent_set_of(final(spent)@) == spent_set_of(old(spent)@).union(tx_spends(tx@)),
        r is Err ==> final(records)@ == old(records)@ && final(spent)@ == old(spent)@,
{
    let ghost t = tx@;
    let ghost sp = spent_set_of(spent@);
    let ghost acc2 = scan_step(acc, t, sp);
    let outs = match collect_unspent(tx, spent) {
        Some(o) => o,
        None => {
            return Err(Error::Serialization);
        },
    };
    let ghost outsv = outs@.map_values(|o: TXOutput| o@);
    if outs.len() > 0 {
        let key: Vec<u8> = vstd::slice::slice_to_vec(tx.id.as_str().as_bytes());
        proof {
            assert(key@ == vstd::utf8::encode_utf8(t.id));
        }
        match find_record(records, &key) {
            Some(found) => {
                let mut merged = crate::transaction::clone_outputs(&records[found].1.outputs);
                if merged.len() >= 0x7FFF0000usize || outs.len() >= 0x7FFF0000usize {
                    return Err(Error::Serialization);
                }
                append_outputs(&mut merged, &outs);
                let ghost mergedv = merged@.map_values(|o: TXOutput| o@);
                let ghost rec0 = records@;
                let mut records2: Vec<(Vec<u8>, TXOutputs)> = Vec::new();
                let mut p: usize = 0;
                while p < records.len()
                    invariant
                        p <= rec0.len(),
                        rec0 == records@,
                        found < rec0.len(),
                        records2@.len() == p,
                        mergedv == merged@.map_values(|o: TXOutput| o@),
                        forall|q: int|
                            0 <= q < p && q != found ==> (#[trigger] records2@[q]).0@
                                == rec0[q].0@ && records2@[q].1@ == rec0[q].1@,
                        forall|q: int|
                            0 <= q < p && q == found ==> (#[trigger] records2@[q]).0@
                                == rec0[q].0@ && records2@[q].1@ == mergedv,
                    decreases rec0.len() - p,
                {
                    if p == found {
                        records2.push(
                            (
                                clone_bytes(&records[p].0),
                                TXOutputs {
                                    outputs: crate::transaction::clone_outputs(&merged),
                                },
                            ),
                        );
                    } else {
                        records2.push(
                            (
                                clone_bytes(&records[p].0),
                                TXOutputs {
                                    outputs: crate::transaction::clone_outputs(
                                        &records[p].1.outputs,
                                    ),
                                },
                            ),
                        );
                    }
                    p = p + 1;
                }
                proof {
                    reveal(scan_step);
                    assert(rec0[found as int].0@ == key@);
                    assert(acc.dom().contains(key@));
                    assert(acc[key@] == rec0[found as int].1@);
                    assert(acc2 == acc.insert(key@, acc[key@] + outsv));
                    assert(mergedv == rec0[found as int].1@ + outsv);
                    assert(wf_outs(mergedv)) by {
                        assert(wf_outs(rec0[found as int].1@));
                        assert(wf_outs(outsv));
                        assert forall|q: int| 0 <= q < mergedv.len() implies wf_out(
                            #[trigger] mergedv[q],
                        ) by {
                            if q < rec0[found as int].1@.len() {
                                assert(mergedv[q] == rec0[found as int].1@[q]);
                            } else {
                                assert(mergedv[q] == outsv[q - rec0[found as int].1@.len()]);
                            }
                        }
                    }
                    assert forall|q: int| 0 <= q < records2@.len() implies acc2.dom().contains(
                        (#[trigger] records2@[q]).0@,
                    ) && acc2[records2@[q].0@] == records2@[q].1@ && wf_outs(records2@[q].1@) by {
                        if q == found {
                            assert(records2@[q].0@ == key@);
                        } else {
                            assert(records2@[q].0@ == rec0[q].0@);
                            assert(rec0[q].0@ != key@);
                        }
                    }
                    assert forall|k: Seq<u8>| #[trigger] acc2.dom().contains(k) implies exists|
                        qq: int,
                    | 0 <= qq < records2@.len() && (#[trigger] records2@[qq]).0@ == k by {
                        assert(acc.dom().contains(k));
                        let qq = choose|qq: int|
                            0 <= qq < rec0.len() && (#[trigger] rec0[qq]).0@ == k;
                        assert(records2@[qq].0@ == k);
                    }
                    assert(recs_match(records2@, acc2));
                }
                *records = records2;
            },
            None => {
                proof {
                    reveal(scan_step);
                    assert(!acc.dom().contains(key@));
                    assert(acc2 == acc.insert(key@, outsv));
                }
                let ghost rec0 = records@;
                records.push((key, TXOutputs { outputs: outs }));
                proof {
                    assert(records@[rec0.len() as int].1@ == outsv);
                    assert forall|q: int| 0 <= q < records@.len() implies acc2.dom().contains(
                        (#[trigger] records@[q]).0@,
                    ) && acc2[records@[q].0@] == records@[q].1@ && wf_outs(records@[q].1@) by {
                        if q < rec0.len() {
                            assert(records@[q] == rec0[q]);
                            assert(rec0[q].0@ != key@);
                        } else {
                            assert(records@[q].0@ == key@);
                        }
                    }
                    assert forall|k: Seq<u8>| #[trigger] acc2.dom().contains(k) implies exists|
                        qq: int,
                    | 0 <= qq < records@.len() && (#[trigger] records@[qq]).0@ == k by {
                        if acc.dom().contains(k) {
                            let qq = choose|qq: int|
                                0 <= qq < rec0.len() && (#[trigger] rec0[qq]).0@ == k;
                            assert(records@[qq].0@ == k);
                        } else {
                            assert(k == key@);
                            assert(records@[rec0.len() as int].0@ == k);
                        }
                    }
                    assert(recs_match(records@, acc2));
                }
            },
        }
    } else {
        proof {
            reveal(scan_step);
            assert(acc2 == acc);
        }
    }
    // record what this transaction spends
    let ghost sp2 = sp.union(tx_spends(t));
    if !tx.is_coinbase() {
        let ghost spent0 = spent@;
        let mut sk: usize = 0;
        while sk < tx.v_in.len()
            invariant
                sk <= tx.v_in@.len(),
                t == tx@,
                spent@.len() == spent0.len() + sk,
                forall|q: int| 0 <= q < spent0.len() ==> (#[trigger] spent@[q]) == spent0[q],
                forall|q: int|
                    spent0.len() <= q < spent@.len() ==> ((#[trigger] spent@[q]).0@ == t.v_in[q
                        - spent0.len()].tx_id && spent@[q].1 == t.v_in[q - spent0.len()].v_out),
            decreases tx.v_in@.len() - sk,
        {
            spent.push((tx.v_in[sk].tx_id.clone(), tx.v_in[sk].v_out));
            sk = sk + 1;
        }
        proof {
            assert forall|pr: (Seq<char>, int)|
                spent_set_of(spent@).contains(pr) == sp2.contains(pr) by {
                if spent_set_of(spent@).contains(pr) {
                    let q = choose|q: int|
                        0 <= q < spent@.len() && (#[trigger] spent@[q]).0@ == pr.0 && spent@[q].1
                            as int == pr.1;
                    if q < spent0.len() {
                        assert(spent0[q] == spent@[q]);
                        assert(sp.contains(pr));
                    } else {
                        assert(t.v_in[q - spent0.len()].tx_id == pr.0);
                        assert(tx_spends(t).contains(pr));
                    }
                }
                if sp.contains(pr) {
                    let q = choose|q: int|
                        0 <= q < spent0.len() && (#[trigger] spent0[q]).0@ == pr.0 && spent0[q].1
                            as int == pr.1;
                    assert(spent@[q] == spent0[q]);
                    assert(spent_set_of(spent@).contains(pr));
                }
                if tx_spends(t).contains(pr) {
                    let k2 = choose|k2: int|
                        0 <= k2 < t.v_in.len() && (#[trigger] t.v_in[k2]).tx_id == pr.0
                            && t.v_in[k2].v_out as int == pr.1;
                    assert(spent@[spent0.len() + k2].0@ == pr.0);
                    assert(spent_set_of(spent@).contains(pr));
                }
            }
            assert(spent_set_of(spent@) =~= sp2);
        }
    } else {
        proof {
            assert(tx_spends(t) =~= Set::<(Seq<char>, int)>::empty());
            assert(sp2 =~= sp);
        }
    }
    Ok(())
}

impl UTXOSet {
    /// Drops every record and rebuilds the index by the reference
    /// scan of the whole chain, tip block first.
    #[verifier::rlimit(100)]
    pub fn reindex(&mut self) -> (r: Result<(), Error>)
        ensures
            final(self).bc == old(self).bc,
            old(self).bc.wf() && old(self).bc.tip is Some && r is Ok ==> kv_view(final(self).db)
                == store_of(chain_utxo(old(self).bc.all_txs())),
    {
        let ghost w = self.bc.wf() && self.bc.tip is Some;
        let blocks = match self.bc.blocks() {
            Ok(b) => b,
            Err(e) => {
                return Err(e);
            },
        };
        let ghost bviews = blocks@.map_values(|b: crate::block::Block| b@);
        let ghost target = chain_utxo(blocks_txs(bviews));
        let mut records: Vec<(Vec<u8>, TXOutputs)> = Vec::new();
        let mut spent: Vec<(String, i32)> = Vec::new();
        let ghost mut acc: Map<Seq<u8>, Seq<TxOutView>> = Map::empty();
        proof {
            reveal(scan_utxos);
            assert(bviews.skip(0) =~= bviews);
            assert(spent@ =~= Seq::<(String, i32)>::empty());
            assert(spent_set_of(spent@) =~= Set::<(Seq<char>, int)>::empty());
        }
        let mut i: usize = 0;
        while i < blocks.len()
            invariant
                bviews == blocks@.map_values(|b: crate::block::Block| b@),
                target == chain_utxo(blocks_txs(bviews)),
                forall|p: int| 0 <= p < blocks@.len() ==> wf_block((#[trigger] blocks@[p])@),
                i <= blocks@.len(),
                recs_match(records@, acc),
                scan_utxos(blocks_txs(bviews.skip(i as int)), spent_set_of(spent@), acc).0
                    == target,
            decreases blocks@.len() - i,
        {
            proof {
                assert(bviews.skip(i as int)[0] == bviews[i as int]);
                assert(bviews.skip(i as int).drop_first() =~= bviews.skip(i + 1));
                assert(blocks_txs(bviews.skip(i as int)) == bviews[i as int].transactions
                    + blocks_txs(bviews.skip(i + 1)));
                assert(bviews[i as int] == blocks@[i as int]@);
                assert(blocks@[i as int]@.transactions.skip(0) =~= blocks@[i as int]@.transactions);
            }
            let ghost rest = blocks_txs(bviews.skip(i + 1));
            let block = &blocks[i];
            let mut j: usize = 0;
            while j < block.transactions.len()
                invariant
                    bviews == blocks@.map_values(|b: crate::block::Block| b@),
                    target == chain_utxo(blocks_txs(bviews)),
                    i < blocks@.len(),
                    block == blocks@[i as int],
                    wf_block(blocks@[i as int]@),
                    bviews[i as int] == blocks@[i as int]@,
                    rest == blocks_txs(bviews.skip(i + 1)),
                    j <= block.transactions@.len(),
                    recs_match(records@, acc),
                    scan_utxos(
                        blocks@[i as int]@.transactions.skip(j as int) + rest,
                        spent_set_of(spent@),
                        acc,
                    ).0 == target,
                decreases block.transactions@.len() - j,
            {
                let tx = &block.transactions[j];
                let ghost t = tx@;
                let ghost sp_before = spent_set_of(spent@);
                proof {
                    assert(t == blocks@[i as int]@.transactions[j as int]);
                    assert(wf_tx(t));
                }
                match process_tx(&mut records, &mut spent, tx, Ghost(acc)) {
                    Ok(()) => {},
                    Err(e) => {
                        return Err(e);
                    },
                }
                proof {
                    let acc2 = scan_step(acc, t, sp_before);
                    reveal(scan_utxos);
                    let bt = blocks@[i as int]@.transactions;
                    let suffix = bt.skip(j as int) + rest;
                    let suffix2 = bt.skip(j + 1) + rest;
                    assert(suffix[0] == t);
                    assert(suffix.drop_first() =~= suffix2);
                    assert(scan_utxos(suffix, sp_before, acc) == scan_utxos(
                        suffix2,
                        sp_before.union(tx_spends(t)),
                        acc2,
                    ));
                    acc = acc2;
                }
                j = j + 1;
            }
            proof {
                assert(blocks@[i as int]@.transactions.skip(
                    blocks@[i as int]@.transactions.len() as int,
                ) + rest =~= rest);
            }
            i = i + 1;
        }
        proof {
            reveal(scan_utxos);
            assert(bviews.skip(bviews.len() as int) =~= Seq::<crate::block::BlockView>::empty());
            assert(blocks_txs(Seq::<crate::block::BlockView>::empty())
                =~= Seq::<TxView>::empty());
            assert(acc == target);
        }
        // rewrite the store
        kv_clear(&mut self.db)?;
        let mut wi: usize = 0;
        while wi < records.len()
            invariant
                wi <= records@.len(),
                self.bc == old(self).bc,
                recs_match(records@, acc),
                forall|q: int|
                    0 <= q < wi ==> kv_view(self.db).dom().contains((#[trigger] records@[q]).0@)
                        && kv_view(self.db)[records@[q].0@] == enc_outs(records@[q].1@),
                forall|k: Seq<u8>|
                    #[trigger] kv_view(self.db).dom().contains(k) ==> exists|q: int|
                        0 <= q < wi && (#[trigger] records@[q]).0@ == k,
            decreases records@.len() - wi,
        {
            let enc = records[wi].1.encode();
            kv_insert(&mut self.db, records[wi].0.as_slice(), enc.as_slice())?;
            wi = wi + 1;
        }
        kv_flush(&self.db)?;
        proof {
            if w {
                let m = old(self).bc.store();
                let th = old(self).bc.tip_hash();
                let hh = old(self).bc.tip_height as int;
                crate::blockchain::lemma_chain_seq_props(m, th, hh);
                lemma_chain_txs_blocks(m, th, hh);
                assert(bviews =~= crate::blockchain::chain_seq(m, th, hh));
                assert(kv_view(self.db) =~= store_of(acc));
            }
        }
        Ok(())
    }
}


impl UTXOSet {
    /// Every stored output locked to the given public-key hash:
    /// exactly the locked outputs of every record, walked under some
    /// enumeration of the stored keys.
    #[verifier::rlimit(100)]
    pub fn find_utxo(&self, pub_key_hash: &[u8]) -> (r: Result<TXOutputs, Error>)
        ensures
            r matches Ok(o) ==> exists|keys: Seq<Seq<u8>>|
                #[trigger] enumerates(self.view_map(), keys) && (forall|q: int|
                    0 <= q < keys.len() ==> parse_outs(
                        self.view_map()[#[trigger] keys[q]],
                    ) is Some) && o@ == locked_across(self.view_map(), keys, pub_key_hash@),
    {
        let ghost m = self.view_map();
        let entries = kv_entries(&self.db)?;
        let ghost keys = entries@.map_values(|e: (Vec<u8>, Vec<u8>)| e.0@);
        let mut res: Vec<TXOutput> = Vec::new();
        let mut i: usize = 0;
        while i < entries.len()
            invariant
                i <= entries@.len(),
                m == self.view_map(),
                keys == entries@.map_values(|e: (Vec<u8>, Vec<u8>)| e.0@),
                forall|q: int|
                    0 <= q < entries@.len() ==> m.dom().contains((#[trigger] entries@[q]).0@)
                        && m[entries@[q].0@] == entries@[q].1@,
                forall|q1: int, q2: int|
                    0 <= q1 < q2 < entries@.len() ==> (#[trigger] entries@[q1]).0@ != (
                    #[trigger] entries@[q2]).0@,
                forall|k: Seq<u8>|
                    #[trigger] m.dom().contains(k) ==> exists|q: int|
                        0 <= q < entries@.len() && (#[trigger] entries@[q]).0@ == k,
                forall|q: int| 0 <= q < i ==> parse_outs(m[#[trigger] keys[q]]) is Some,
                res@.map_values(|o: TXOutput| o@) == locked_across(
                    m,
                    keys.take(i as int),
                    pub_key_hash@,
                ),
            decreases entries@.len() - i,
        {
            let outs = match TXOutputs::decode(&entries[i].1) {
                Some(o) => o,
                None => {
                    return Err(Error::Serialization);
                },
            };
            let ghost outsv = outs@;
            proof {
                reveal(parse_outs);
                assert(keys[i as int] == entries@[i as int].0@);
                assert(parse_outs(m[keys[i as int]]) == Some(outsv));
            }
            let mut j: usize = 0;
            while j < outs.outputs.len()
                invariant
                    j <= outs.outputs@.len(),
                    outsv == outs@,
                    res@.map_values(|o: TXOutput| o@) == locked_across(
                        m,
                        keys.take(i as int),
                        pub_key_hash@,
                    ) + locked_outs(outsv.take(j as int), pub_key_hash@),
                decreases outs.outputs@.len() - j,
            {
                let ghost resv = res@.map_values(|o: TXOutput| o@);
                if outs.outputs[j].is_locked_with_key(pub_key_hash) {
                    res.push(
                        TXOutput {
                            value: outs.outputs[j].value,
                            pub_key_hash: clone_bytes(&outs.outputs[j].pub_key_hash),
                        },
                    );
                    proof {
                        assert(res@.map_values(|o: TXOutput| o@) =~= resv.push(
                            outsv[j as int],
                        ));
                    }
                }
                j = j + 1;
                proof {
                    assert(outsv.take(j as int) =~= outsv.take(j - 1) + seq![outsv[j - 1]]);
                    lemma_locked_outs_app(outsv.take(j - 1), seq![outsv[j - 1]], pub_key_hash@);
                    assert(seq![outsv[j - 1]].drop_first() =~= Seq::<TxOutView>::empty());
                    assert(locked_outs(Seq::<TxOutView>::empty(), pub_key_hash@)
                        =~= Seq::<TxOutView>::empty());
                    if outsv[j - 1].pub_key_hash == pub_key_hash@ {
                        assert(locked_outs(seq![outsv[j - 1]], pub_key_hash@) =~= seq![outsv[j
                            - 1]]);
                    } else {
                        assert(locked_outs(seq![outsv[j - 1]], pub_key_hash@)
                            =~= Seq::<TxOutView>::empty());
                    }
                    assert(res@.map_values(|o: TXOutput| o@) =~= locked_across(
                        m,
                        keys.take(i as int),
                        pub_key_hash@,
                    ) + locked_outs(outsv.take(j as int), pub_key_hash@));
                }
            }
            i = i + 1;
            proof {
                assert(outsv.take(outsv.len() as int) =~= outsv);
                assert(keys.take(i as int) =~= keys.take(i - 1) + seq![keys[i - 1]]);
                lemma_locked_across_app(m, keys.take(i - 1), seq![keys[i - 1]], pub_key_hash@);
                assert(seq![keys[i - 1]].drop_first() =~= Seq::<Seq<u8>>::empty());
                assert(locked_across(m, Seq::<Seq<u8>>::empty(), pub_key_hash@)
                    =~= Seq::<TxOutView>::empty());
                assert(locked_across(m, seq![keys[i - 1]], pub_key_hash@) =~= locked_outs(
                    outsv,
                    pub_key_hash@,
                ));
                assert(res@.map_values(|o: TXOutput| o@) =~= locked_across(
                    m,
                    keys.take(i as int),
                    pub_key_hash@,
                ));
            }
        }
        proof {
            assert(keys.take(keys.len() as int) =~= keys);
            assert(enumerates(m, keys)) by {
                assert forall|k: Seq<u8>| #[trigger] m.dom().contains(k) implies exists|q: int|
                    0 <= q < keys.len() && keys[q] == k by {
                    let q = choose|q: int|
                        0 <= q < entries@.len() && (#[trigger] entries@[q]).0@ == k;
                    assert(keys[q] == k);
                }
            }
        }
        Ok(TXOutputs { outputs: res })
    }

    /// Enough outputs locked to `pub_key_hash` to cover `amount`,
    /// with the accumulated value: record by record until the amount
    /// is reached.  The accumulated value equals the sum of the
    /// selected outputs, and falls short of `amount` only when every
    /// such output in the store was taken.
    #[verifier::rlimit(100)]
    pub fn find_spendable_outputs(&self, pub_key_hash: &[u8], amount: i32) -> (r: Result<
        (i32, Vec<(String, Vec<i32>)>),
        Error,
    >)
        ensures
            r matches Ok(p) ==> {
                let sel = sel_views(p.1@);
                &&& p.0 >= 0
                &&& sel_wf(self.view_map(), sel, pub_key_hash@)
                &&& p.0 as int == sel_sum(self.view_map(), sel)
                &&& (p.0 < amount ==> sel_covers(self.view_map(), sel, pub_key_hash@))
            },
            r matches Err(e) ==> e == Error::Io || e == Error::Serialization,
    {
        let ghost m = self.view_map();
        let ghost pkh = pub_key_hash@;
        let entries = kv_entries(&self.db)?;
        let mut accumulated: i64 = 0;
        let mut selected: Vec<(String, Vec<i32>)> = Vec::new();
        let mut i: usize = 0;
        while i < entries.len()
            invariant
                i <= entries@.len(),
                m == self.view_map(),
                pkh == pub_key_hash@,
                forall|q: int|
                    0 <= q < entries@.len() ==> m.dom().contains((#[trigger] entries@[q]).0@)
                        && m[entries@[q].0@] == entries@[q].1@,
                forall|q1: int, q2: int|
                    0 <= q1 < q2 < entries@.len() ==> (#[trigger] entries@[q1]).0@ != (
                    #[trigger] entries@[q2]).0@,
                forall|k: Seq<u8>|
                    #[trigger] m.dom().contains(k) ==> exists|q: int|
                        0 <= q < entries@.len() && (#[trigger] entries@[q]).0@ == k,
                0 <= accumulated < 0x7FFFFFFFi64,
                i == 0 || accumulated < amount as i64,
                sel_wf(m, sel_views(selected@), pkh),
                accumulated as int == sel_sum(m, sel_views(selected@)),
                forall|q: int|
                    0 <= q < selected@.len() ==> exists|e: int|
                        0 <= e < i && (#[trigger] entries@[e]).0@ == vstd::utf8::encode_utf8(
                            (#[trigger] sel_views(selected@)[q]).0,
                        ),
                forall|e: int| 0 <= e < i ==> parse_outs(m[(#[trigger] entries@[e]).0@]) is Some,
                accumulated >= amount as i64 || (forall|e: int, j: int|
                    #![trigger parse_outs(m[entries@[e].0@]).unwrap()[j]]
                    0 <= e < i && 0 <= j < parse_outs(m[entries@[e].0@]).unwrap().len() && j
                        < 0x7FFFFFFF && parse_outs(m[entries@[e].0@]).unwrap()[j].pub_key_hash
                        == pkh && parse_outs(m[entries@[e].0@]).unwrap()[j].value >= 0
                        ==> selected_in(sel_views(selected@), entries@[e].0@, j)),
            decreases entries@.len() - i,
        {
            let tx_id = match crate::codec::bytes_to_string(clone_bytes(&entries[i].0)) {
                Some(s) => s,
                None => {
                    return Err(Error::Serialization);
                },
            };
            let outs = match TXOutputs::decode(&entries[i].1) {
                Some(o) => o,
                None => {
                    return Err(Error::Serialization);
                },
            };
            let ghost outsv = outs@;
            proof {
                reveal(parse_outs);
                assert(parse_outs(m[entries@[i as int].0@]) == Some(outsv));
                assert(vstd::utf8::encode_utf8(tx_id@) == entries@[i as int].0@);
            }
            let ghost sel0 = sel_views(selected@);
            let ghost acc0 = accumulated as int;
            let mut picked: Vec<i32> = Vec::new();
            let mut j: usize = 0;
            while j < outs.outputs.len()
                invariant
                    j <= outs.outputs@.len(),
                    outsv == outs@,
                    pkh == pub_key_hash@,
                    outs.outputs@.len() < 0x100000000,
                    sel0 == sel_views(selected@),
                    acc0 == sel_sum(m, sel0),
                    acc0 >= 0,
                    0 <= accumulated,
                    accumulated < 0x7FFFFFFFi64 + 0x7FFFFFFFi64,
                    accumulated as int == acc0 + group_sum(outsv, picked@),
                    forall|q: int|
                        0 <= q < picked@.len() ==> 0 <= #[trigger] picked@[q] && (picked@[q]
                            as int) < j && (picked@[q] as int) < outsv.len() && outsv[picked@[q]
                            as int].pub_key_hash == pkh && outsv[picked@[q] as int].value >= 0,
                    forall|q1: int, q2: int|
                        0 <= q1 < q2 < picked@.len() ==> picked@[q1] < picked@[q2],
                    acc0 >= amount as i64 || accumulated >= amount as i64 || (forall|jp: int|
                        0 <= jp < j && jp < 0x7FFFFFFF && (#[trigger] outsv[jp]).pub_key_hash
                            == pkh && outsv[jp].value >= 0 ==> exists|q: int|
                            0 <= q < picked@.len() && #[trigger] picked@[q] as int == jp),
                decreases outs.outputs@.len() - j,
            {
                let ghost pickedv = picked@;
                if accumulated < amount as i64 && outs.outputs[j].is_locked_with_key(pub_key_hash)
                    && outs.outputs[j].value >= 0 && j < 0x7FFFFFFFusize {
                    accumulated = accumulated + outs.outputs[j].value as i64;
                    picked.push(j as i32);
                    proof {
                        assert(picked@.drop_last() =~= pickedv);
                        assert(picked@.last() as int == j as int);
                    }
                }
                j = j + 1;
            }
            if picked.len() > 0 {
                let ghost pickedv = picked@;
                selected.push((tx_id, picked));
                proof {
                    let sel1 = sel_views(selected@);
                    assert(sel1.drop_last() =~= sel0);
                    assert forall|q: int| 0 <= q < sel0.len() implies #[trigger] sel1[q]
                        == sel0[q] by {
                        assert(sel1.drop_last()[q] == sel1[q]);
                    }
                    assert(sel1.last().0 == tx_id@ && sel1.last().1 == pickedv);
                    assert(sel_sum(m, sel1) == sel_sum(m, sel0) + group_sum(outsv, pickedv));
                    assert forall|q1: int, q2: int|
                        0 <= q1 < q2 < sel1.len() implies vstd::utf8::encode_utf8(
                        (#[trigger] sel1[q1]).0,
                    ) != vstd::utf8::encode_utf8((#[trigger] sel1[q2]).0) by {
                        if q2 == sel1.len() - 1 {
                            assert(sel1[q1] == sel0[q1]);
                            let e = choose|e: int|
                                0 <= e < i && (#[trigger] entries@[e]).0@
                                    == vstd::utf8::encode_utf8(sel0[q1].0);
                            assert(entries@[e].0@ != entries@[i as int].0@);
                            assert(vstd::utf8::encode_utf8(sel1[q2].0) == entries@[i as int].0@);
                        } else {
                            assert(sel1[q1] == sel0[q1] && sel1[q2] == sel0[q2]);
                        }
                    }
                    assert(sel_wf(m, sel1, pkh)) by {
                        assert forall|q: int| 0 <= q < sel1.len() implies {
                            let key = vstd::utf8::encode_utf8((#[trigger] sel1[q]).0);
                            &&& m.dom().contains(key)
                            &&& parse_outs(m[key]) is Some
                            &&& (forall|j: int|
                                0 <= j < sel1[q].1.len() ==> 0 <= #[trigger] sel1[q].1[j]
                                    < parse_outs(m[key]).unwrap().len() && parse_outs(
                                    m[key],
                                ).unwrap()[sel1[q].1[j] as int].pub_key_hash == pkh && parse_outs(
                                    m[key],
                                ).unwrap()[sel1[q].1[j] as int].value >= 0)
                            &&& (forall|j1: int, j2: int|
                                0 <= j1 < j2 < sel1[q].1.len() ==> sel1[q].1[j1] < sel1[q].1[j2])
                        } by {
                            if q < sel0.len() {
                                assert(sel1[q] == sel0[q]);
                            } else {
                                assert(sel1[q].0 == tx_id@ && sel1[q].1 == pickedv);
                                assert(vstd::utf8::encode_utf8(tx_id@) == entries@[i as int].0@);
                                assert(parse_outs(m[entries@[i as int].0@]) == Some(outsv));
                            }
                        }
                    }
                }
            }
            let ghost sel_now = sel_views(selected@);
            proof {
                assert forall|e: int, j2: int|
                    #![trigger parse_outs(m[entries@[e].0@]).unwrap()[j2]]
                    0 <= e < i && 0 <= j2 < parse_outs(m[entries@[e].0@]).unwrap().len() && j2
                        < 0x7FFFFFFF && parse_outs(m[entries@[e].0@]).unwrap()[j2].pub_key_hash
                        == pkh && parse_outs(m[entries@[e].0@]).unwrap()[j2].value >= 0
                        && selected_in(sel0, entries@[e].0@, j2) implies selected_in(
                    sel_now,
                    entries@[e].0@,
                    j2,
                ) by {
                    let (q, jj) = choose|q: int, jj: int|
                        0 <= q < sel0.len() && vstd::utf8::encode_utf8((#[trigger] sel0[q]).0)
                            == entries@[e].0@ && 0 <= jj < sel0[q].1.len() && (
                        #[trigger] sel0[q].1[jj]) as int == j2;
                    assert(sel_now[q] == sel0[q]);
                }
            }
            if accumulated >= amount as i64 {
                if accumulated > 0x7FFFFFFFi64 {
                    return Err(Error::Serialization);
                }
                return Ok((accumulated as i32, selected));
            }
            proof {
                if acc0 < amount as i64 {
                    assert forall|jp: int|
                        0 <= jp < outsv.len() && jp < 0x7FFFFFFF && (
                        #[trigger] outsv[jp]).pub_key_hash == pkh && outsv[jp].value >= 0 implies
                        selected_in(sel_now, entries@[i as int].0@, jp) by {
                        let q = choose|q: int|
                            0 <= q < picked@.len() && #[trigger] picked@[q] as int == jp;
                        assert(sel_now.len() > 0);
                        assert(sel_now.last().1[q] as int == jp);
                        assert(vstd::utf8::encode_utf8(sel_now.last().0) == entries@[i
                            as int].0@);
                    }
                }
            }
            if accumulated >= 0x7FFFFFFFi64 {
                return Err(Error::Serialization);
            }
            i = i + 1;
        }
        proof {
            assert forall|k: Seq<u8>, j: int|
                #![trigger m.dom().contains(k), parse_outs(m[k]).unwrap()[j]]
                m.dom().contains(k) implies parse_outs(m[k]) is Some && (0 <= j < parse_outs(
                m[k],
            ).unwrap().len() && j < 0x7FFFFFFF && parse_outs(m[k]).unwrap()[j].pub_key_hash == pkh
                && parse_outs(m[k]).unwrap()[j].value >= 0 ==> selected_in(
                sel_views(selected@),
                k,
                j,
            )) by {
                let e = choose|e: int| 0 <= e < entries@.len() && (#[trigger] entries@[e]).0@ == k;
                assert(0 < entries@.len());
                assert(accumulated < amount as i64);
                assert(parse_outs(m[entries@[e].0@]) is Some);
            }
        }
        Ok((accumulated as i32, selected))
    }

    /// Applies a block to the index: consumed outputs leave their
    /// records (empty records are dropped) and every transaction's
    /// outputs enter as a fresh record.
    #[verifier::rlimit(100)]
    pub fn update(&mut self, block: &Block) -> (r: Result<(), Error>)
        ensures
            final(self).bc == old(self).bc,
            r is Ok ==> (apply_block(kv_view(old(self).db), block@) matches Some(m2) && kv_view(
                final(self).db,
            ) == m2),
            r == Err::<(), Error>(Error::MissingPrevTx) ==> apply_block(
                kv_view(old(self).db),
                block@,
            ) is None,
    {
        let ghost m0 = kv_view(self.db);
        let ghost tv = block@.transactions;
        let mut i: usize = 0;
        while i < block.transactions.len()
            invariant
                i <= block.transactions@.len(),
                self.bc == old(self).bc,
                m0 == kv_view(old(self).db),
                tv == block@.transactions,
                apply_txs(m0, tv, 0) == apply_txs(kv_view(self.db), tv, i as int),
            decreases block.transactions@.len() - i,
        {
            let tx = &block.transactions[i];
            let ghost t = tx@;
            let ghost v_at_tx = kv_view(self.db);
            proof {
                assert(t == tv[i as int]);
            }
            if !tx.is_coinbase() {
                let mut k: usize = 0;
                while k < tx.v_in.len()
                    invariant
                        k <= tx.v_in@.len(),
                        self.bc == old(self).bc,
                        t == tx@,
                        m0 == kv_view(old(self).db),
                        tv == block@.transactions,
                        i < tv.len(),
                        t == tv[i as int],
                        !is_coinbase_tx(t),
                        apply_txs(m0, tv, 0) == apply_txs(v_at_tx, tv, i as int),
                        apply_inputs(v_at_tx, t.v_in, 0) == apply_inputs(
                            kv_view(self.db),
                            t.v_in,
                            k as int,
                        ),
                    decreases tx.v_in@.len() - k,
                {
                    let ghost v_now = kv_view(self.db);
                    let key: Vec<u8> = vstd::slice::slice_to_vec(
                        tx.v_in[k].tx_id.as_str().as_bytes(),
                    );
                    proof {
                        assert(key@ == vstd::utf8::encode_utf8(t.v_in[k as int].tx_id));
                    }
                    let bytes = match kv_get(&self.db, key.as_slice()) {
                        Ok(Some(b)) => b,
                        Ok(None) => {
                            proof {
                                assert(apply_input(v_now, t.v_in[k as int]) is None);
                                assert(apply_inputs(v_now, t.v_in, k as int) is None);
                                assert(apply_inputs(v_at_tx, t.v_in, 0) is None);
                                assert(apply_tx(v_at_tx, t) is None);
                                assert(apply_txs(v_at_tx, tv, i as int) is None);
                            }
                            return Err(Error::MissingPrevTx);
                        },
                        Err(e) => {
                            return Err(e);
                        },
                    };
                    let outs = match TXOutputs::decode(&bytes) {
                        Some(o) => o,
                        None => {
                            return Err(Error::Serialization);
                        },
                    };
                    proof {
                        reveal(parse_outs);
                        assert(parse_outs(v_now[key@]) == Some(outs@));
                    }
                    let spent_idx = tx.v_in[k].v_out;
                    let ghost outsv = outs@;
                    let ghost sp = spent_idx as int;
                    let mut kept: Vec<TXOutput> = Vec::new();
                    let mut j: usize = 0;
                    while j < outs.outputs.len()
                        invariant
                            j <= outs.outputs@.len(),
                            outsv == outs@,
                            sp == spent_idx as int,
                            outs.outputs@.len() < 0x100000000,
                            forall|q: int|
                                0 <= q < kept@.len() ==> wf_out((#[trigger] kept@[q])@),
                            wf_outs(outsv),
                            kept@.map_values(|o: TXOutput| o@) == drop_output(
                                outsv.take(j as int),
                                sp,
                            ),
                        decreases outs.outputs@.len() - j,
                    {
                        let ghost keptv = kept@.map_values(|o: TXOutput| o@);
                        if spent_idx < 0 || j != spent_idx as usize {
                            kept.push(
                                TXOutput {
                                    value: outs.outputs[j].value,
                                    pub_key_hash: clone_bytes(&outs.outputs[j].pub_key_hash),
                                },
                            );
                            proof {
                                assert(wf_out(outsv[j as int]));
                                assert(kept@.map_values(|o: TXOutput| o@) =~= keptv.push(
                                    outsv[j as int],
                                ));
                                if 0 <= sp < j {
                                    assert(outsv.take(j + 1).remove(sp) =~= outsv.take(
                                        j as int,
                                    ).remove(sp).push(outsv[j as int]));
                                } else {
                                    assert(outsv.take(j + 1) =~= outsv.take(j as int).push(
                                        outsv[j as int],
                                    ));
                                }
                                assert(kept@.map_values(|o: TXOutput| o@) =~= drop_output(
                                    outsv.take(j + 1),
                                    sp,
                                ));
                            }
                        } else {
                            proof {
                                assert(sp == j);
                                assert(outsv.take(j + 1).remove(sp) =~= outsv.take(j as int));
                                assert(kept@.map_values(|o: TXOutput| o@) =~= drop_output(
                                    outsv.take(j + 1),
                                    sp,
                                ));
                            }
                        }
                        j = j + 1;
                    }
                    proof {
                        assert(outsv.take(outsv.len() as int) =~= outsv);
                        assert(kept@.map_values(|o: TXOutput| o@) == drop_output(outsv, sp));
                    }
                    if kept.len() == 0 {
                        kv_remove(&mut self.db, key.as_slice())?;
                        proof {
                            assert(apply_input(v_now, t.v_in[k as int]) == Some(
                                kv_view(self.db),
                            ));
                        }
                    } else {
                        let record = TXOutputs { outputs: kept };
                        proof {
                            assert(wf_outs(record@)) by {
                                assert(forall|q: int|
                                    0 <= q < record@.len() ==> wf_out(#[trigger] record@[q]));
                            }
                        }
                        let enc = record.encode();
                        kv_insert(&mut self.db, key.as_slice(), enc.as_slice())?;
                        proof {
                            assert(apply_input(v_now, t.v_in[k as int]) == Some(
                                kv_view(self.db),
                            ));
                        }
                    }
                    k = k + 1;
                }
                proof {
                    assert(apply_inputs(kv_view(self.db), t.v_in, t.v_in.len() as int) == Some(
                        kv_view(self.db),
                    ));
                }
            }
            let ghost v_after_inputs = kv_view(self.db);
            let fresh = crate::transaction::clone_outputs(&tx.v_out);
            let record = TXOutputs { outputs: fresh };
            if !crate::utxoset::record_sizes_ok(&record) {
                return Err(Error::Serialization);
            }
            proof {
                assert(record@ =~= t.v_out);
            }
            let enc = record.encode();
            let key: Vec<u8> = vstd::slice::slice_to_vec(tx.id.as_str().as_bytes());
            proof {
                assert(key@ == vstd::utf8::encode_utf8(t.id));
            }
            kv_insert(&mut self.db, key.as_slice(), enc.as_slice())?;
            proof {
                assert(apply_tx(v_at_tx, t) == Some(kv_view(self.db)));
            }
            i = i + 1;
        }
        proof {
            assert(apply_txs(kv_view(self.db), tv, tv.len() as int) == Some(kv_view(self.db)));
        }
        kv_flush(&self.db)?;
        Ok(())
    }
}

/// Whether every field of the record fits its length prefix.
pub fn record_sizes_ok(o: &TXOutputs) -> (r: bool)
    ensures
        r ==> wf_outs(o@),
{
    if o.outputs.len() >= 0x7FFF0000usize {
        return false;
    }
    let mut i: usize = 0;
    while i < o.outputs.len()
        invariant
            i <= o.outputs@.len(),
            o.outputs@.len() < 0x7FFF0000,
            forall|j: int| 0 <= j < i ==> wf_out(#[trigger] o@[j]),
        decreases o.outputs@.len() - i,
    {
        if o.outputs[i].pub_key_hash.len() >= 0x7FFF0000usize {
            return false;
        }
        i = i + 1;
    }
    true
}


/// The witness behind a successful spend: the wallet entry used, the
/// selection drawn from the index, and its accumulated value, with
/// the built transaction's inputs and outputs determined by them.
#[verifier::opaque]
pub open spec fn spend_witness(
    ws: Seq<(String, crate::wallet::Wallet)>,
    from: Seq<char>,
    utxo: UTXOSet,
    amount: int,
    t: TxView,
    wi: int,
    sel: Seq<(Seq<char>, Seq<i32>)>,
    acc: int,
) -> bool {
    let w = ws[wi].1;
    &&& 0 <= wi < ws.len()
    &&& ws[wi].0@ == from
    &&& sel_wf(utxo.view_map(), sel, crate::crypto::pkh_of(w.public_key@))
    &&& acc == sel_sum(utxo.view_map(), sel)
    &&& acc >= amount
    &&& t.v_in.map_values(|iv: TxInView| crate::transaction::strip_in(iv)) == sel_inputs(
        sel,
        w.public_key@,
    )
    &&& (acc > amount ==> t.v_out.len() == 2 && t.v_out[1].value == acc - amount && (forall|
        p: Seq<u8>,
    |
        5 <= p.len() <= 90 && from == #[trigger] crate::crypto::base58_of(p)
            ==> t.v_out[1].pub_key_hash == p.subrange(1, p.len() - 4)))
    &&& (acc == amount ==> t.v_out.len() == 1)
    &&& (utxo.bc.wf() && utxo.bc.tip is Some && w.public_key@ == crate::crypto::p256_pub_of(
        w.private_key@,
    ) ==> crate::transaction::tx_verifies(
        t,
        crate::blockchain::chain_prevs(
            utxo.bc.store(),
            utxo.bc.tip_hash(),
            utxo.bc.tip_height as int,
            t,
        ),
    ))
}

/// The witness behind an insufficient-funds failure: a wallet entry
/// for the sender and an exhaustive selection whose value is the
/// reported amount.
#[verifier::opaque]
pub open spec fn shortfall_witness(
    ws: Seq<(String, crate::wallet::Wallet)>,
    from: Seq<char>,
    utxo: UTXOSet,
    reported: int,
    wi: int,
    sel: Seq<(Seq<char>, Seq<i32>)>,
) -> bool {
    let w = ws[wi].1;
    &&& 0 <= wi < ws.len()
    &&& ws[wi].0@ == from
    &&& sel_wf(utxo.view_map(), sel, crate::crypto::pkh_of(w.public_key@))
    &&& reported == sel_sum(utxo.view_map(), sel)
    &&& sel_covers(utxo.view_map(), sel, crate::crypto::pkh_of(w.public_key@))
}

impl Transaction {
    /// Builds and signs a transaction moving `amount` from `from` to
    /// `to`, spending outputs the index reports as unspent and
    /// returning any change to the sender.
    #[verifier::rlimit(100)]
    #[verifier::spinoff_prover]
    pub fn new_utxo(
        wallets: &crate::wallet::Wallets,
        from: &str,
        to: &str,
        amount: i32,
        utxo: &UTXOSet,
    ) -> (r: Result<Transaction, Error>)
        requires
            amount >= 0,
        ensures
            r matches Ok(tx) ==> {
                &&& wf_tx(tx@)
                &&& 1 <= tx@.v_out.len() <= 2
                &&& tx@.v_out[0].value == amount
                &&& (forall|p: Seq<u8>|
                    5 <= p.len() <= 90 && to@ == #[trigger] crate::crypto::base58_of(p)
                        ==> tx@.v_out[0].pub_key_hash == p.subrange(1, p.len() - 4))
                &&& exists|wi: int, sel: Seq<(Seq<char>, Seq<i32>)>, acc: int|
                    #[trigger] spend_witness(
                        wallets.wallets@,
                        from@,
                        *utxo,
                        amount as int,
                        tx@,
                        wi,
                        sel,
                        acc,
                    )
            },
            (forall|wi: int|
                0 <= wi < wallets.wallets@.len() ==> (#[trigger] wallets.wallets@[wi]).0@
                    != from@) ==> r == Err::<Transaction, Error>(Error::MalformedInput),
            match r {
                Err(Error::InsufficientFunds(a)) => a < amount && a >= 0 && (exists|
                    wi: int,
                    sel: Seq<(Seq<char>, Seq<i32>)>,
                | #[trigger] shortfall_witness(
                    wallets.wallets@,
                    from@,
                    *utxo,
                    a as int,
                    wi,
                    sel,
                )),
                _ => true,
            },
    {
        let wallet = match wallets.get_wallet(from) {
            Some(w) => w,
            None => {
                return Err(Error::MalformedInput);
            },
        };
        let ghost wi = choose|wi: int|
            0 <= wi < wallets.wallets@.len() && (#[trigger] wallets.wallets@[wi]).0@ == from@
                && wallets.wallets@[wi].1 == *wallet && (forall|j: int|
                wi < j < wallets.wallets@.len() ==> (#[trigger] wallets.wallets@[j]).0@ != from@);
        if wallet.public_key.len() >= 0x7FFF0000usize {
            return Err(Error::Serialization);
        }
        let ghost w_pub = wallet.public_key@;
        let ghost pkhv = crate::crypto::pkh_of(w_pub);
        let pkh = crate::utils::hash_pub_key(wallet.public_key.as_slice());
        let ghost m = utxo.view_map();
        let (acc, selected) = match utxo.find_spendable_outputs(pkh.as_slice(), amount) {
            Ok(p) => p,
            Err(e) => {
                return Err(e);
            },
        };
        let ghost selv = sel_views(selected@);
        if acc < amount {
            proof {
                reveal(shortfall_witness);
                assert(shortfall_witness(wallets.wallets@, from@, *utxo, acc as int, wi, selv));
            }
            return Err(Error::InsufficientFunds(acc));
        }
        let mut inputs: Vec<crate::transaction::TXInput> = Vec::new();
        let mut i: usize = 0;
        while i < selected.len()
            invariant
                i <= selected@.len(),
                selv == sel_views(selected@),
                w_pub == wallet.public_key@,
                wallet.public_key@.len() < 0x7FFF0000,
                0 <= wi < wallets.wallets@.len() && wallets.wallets@[wi].0@ == from@,
                sel_wf(m, selv, pkhv),
                forall|q: int|
                    0 <= q < inputs@.len() ==> crate::transaction::wf_in(
                        (#[trigger] inputs@[q])@,
                    ),
                inputs@.map_values(|t: crate::transaction::TXInput| t@) == sel_inputs(
                    selv.take(i as int),
                    w_pub,
                ),
            decreases selected@.len() - i,
        {
            if selected[i].0.as_str().as_bytes().len() >= 0x7FFF0000usize {
                return Err(Error::Serialization);
            }
            let ghost group_base = inputs@.map_values(|t: crate::transaction::TXInput| t@);
            let mut j: usize = 0;
            while j < selected[i].1.len()
                invariant
                    i < selected@.len(),
                    j <= selected@[i as int].1@.len(),
                    selv == sel_views(selected@),
                    w_pub == wallet.public_key@,
                    wallet.public_key@.len() < 0x7FFF0000,
                    0 <= wi < wallets.wallets@.len() && wallets.wallets@[wi].0@ == from@,
                    vstd::utf8::encode_utf8(selected@[i as int].0@).len() < 0x7FFF0000,
                    forall|q: int|
                        0 <= q < inputs@.len() ==> crate::transaction::wf_in(
                            (#[trigger] inputs@[q])@,
                        ),
                    group_base == sel_inputs(selv.take(i as int), w_pub),
                    inputs@.map_values(|t: crate::transaction::TXInput| t@) == group_base
                        + group_inputs(selv[i as int].0, selv[i as int].1.take(j as int), w_pub),
                decreases selected@[i as int].1@.len() - j,
            {
                let ghost prev_inputs = inputs@.map_values(|t: crate::transaction::TXInput| t@);
                inputs.push(
                    crate::transaction::TXInput {
                        tx_id: selected[i].0.clone(),
                        v_out: selected[i].1[j],
                        signature: Vec::new(),
                        pub_key: clone_bytes(&wallet.public_key),
                    },
                );
                j = j + 1;
                proof {
                    assert(inputs@.map_values(|t: crate::transaction::TXInput| t@)
                        =~= prev_inputs.push(
                        TxInView {
                            tx_id: selv[i as int].0,
                            v_out: selv[i as int].1[j - 1],
                            signature: Seq::empty(),
                            pub_key: w_pub,
                        },
                    ));
                    assert(group_inputs(selv[i as int].0, selv[i as int].1.take(j as int), w_pub)
                        =~= group_inputs(
                        selv[i as int].0,
                        selv[i as int].1.take(j - 1),
                        w_pub,
                    ).push(
                        TxInView {
                            tx_id: selv[i as int].0,
                            v_out: selv[i as int].1[j - 1],
                            signature: Seq::empty(),
                            pub_key: w_pub,
                        },
                    ));
                    assert(inputs@.map_values(|t: crate::transaction::TXInput| t@) =~= group_base
                        + group_inputs(
                        selv[i as int].0,
                        selv[i as int].1.take(j as int),
                        w_pub,
                    ));
                }
            }
            i = i + 1;
            proof {
                assert(selv[i - 1].1.take(selv[i - 1].1.len() as int) =~= selv[i - 1].1);
                assert(selv.take(i as int).drop_last() =~= selv.take(i - 1));
                assert(selv.take(i as int).last() == selv[i - 1]);
                assert(inputs@.map_values(|t: crate::transaction::TXInput| t@) =~= sel_inputs(
                    selv.take(i as int),
                    w_pub,
                ));
            }
        }
        proof {
            assert(selv.take(selv.len() as int) =~= selv);
        }
        if inputs.len() >= 0x7FFF0000usize {
            return Err(Error::Serialization);
        }
        let mut outputs: Vec<TXOutput> = Vec::new();
        let first_out = match TXOutput::new(amount, to) {
            Ok(o) => o,
            Err(e) => {
                return Err(e);
            },
        };
        outputs.push(first_out);
        if acc > amount {
            let change = match TXOutput::new(acc - amount, from) {
                Ok(o) => o,
                Err(e) => {
                    return Err(e);
                },
            };
            outputs.push(change);
        }
        let mut tx = Transaction { id: String::new(), v_in: inputs, v_out: outputs };
        proof {
            reveal_strlit("");
            assert(""@ =~= Seq::<char>::empty());
            assert(vstd::utf8::encode_utf8(Seq::<char>::empty()) =~= Seq::<u8>::empty());
        }
        tx.set_id();
        let ghost pre_sign = tx@;
        proof {
            assert(pre_sign.v_in == sel_inputs(selv, w_pub));
            assert(!crate::transaction::is_coinbase_tx(pre_sign)) by {
                if pre_sign.v_in.len() == 1 {
                    assert(pre_sign.v_in[0] == sel_inputs(selv, w_pub)[0]);
                    assert(pre_sign.v_in[0].v_out >= 0) by {
                        lemma_sel_inputs_nonneg(selv, w_pub, m, pkhv, 0);
                    }
                }
            }
        }
        match utxo.bc.sign_transaction(&mut tx, wallet.private_key.as_slice()) {
            Ok(()) => {
                proof {
                    assert forall|k: int| 0 <= k < tx@.v_in.len() implies tx@.v_in.map_values(
                        |iv: TxInView| crate::transaction::strip_in(iv),
                    )[k] == sel_inputs(selv, w_pub)[k] by {
                        assert(tx@.v_in.map_values(
                            |iv: TxInView| crate::transaction::strip_in(iv),
                        )[k] == crate::transaction::strip_in(tx@.v_in[k]));
                        assert(pre_sign.v_in[k] == sel_inputs(selv, w_pub)[k]);
                        lemma_sel_inputs_nonneg(selv, w_pub, m, pkhv, k);
                        assert(sel_inputs(selv, w_pub)[k].signature =~= Seq::<u8>::empty());
                        assert(tx@.v_in[k].tx_id == pre_sign.v_in[k].tx_id);
                        assert(tx@.v_in[k].v_out == pre_sign.v_in[k].v_out);
                        assert(tx@.v_in[k].pub_key == pre_sign.v_in[k].pub_key);
                    }
                    assert(tx@.v_in.map_values(|iv: TxInView| crate::transaction::strip_in(iv))
                        =~= sel_inputs(selv, w_pub));
                    if utxo.bc.wf() && utxo.bc.tip is Some && w_pub == crate::crypto::p256_pub_of(
                        wallet.private_key@,
                    ) {
                        let prevs = crate::blockchain::chain_prevs(
                            utxo.bc.store(),
                            utxo.bc.tip_hash(),
                            utxo.bc.tip_height as int,
                            pre_sign,
                        );
                        assert forall|k: int|
                            0 <= k < pre_sign.v_in.len() implies (
                        #[trigger] pre_sign.v_in[k]).pub_key == crate::crypto::p256_pub_of(
                            wallet.private_key@,
                        ) by {
                            lemma_sel_inputs_nonneg(selv, w_pub, m, pkhv, k);
                        }
                        crate::transaction::lemma_sign_verify(
                            pre_sign,
                            tx@,
                            wallet.private_key@,
                            prevs,
                        );
                        assert(crate::blockchain::chain_prevs(
                            utxo.bc.store(),
                            utxo.bc.tip_hash(),
                            utxo.bc.tip_height as int,
                            tx@,
                        ) =~= prevs);
                    }
                    assert(spend_witness(
                        wallets.wallets@,
                        from@,
                        *utxo,
                        amount as int,
                        tx@,
                        wi,
                        selv,
                        acc as int,
                    )) by {
                        reveal(spend_witness);
                    }
                }
                Ok(tx)
            },
            Err(e) => Err(e),
        }
    }
}

/// Every input a selection yields carries the spender's key and a
/// non-negative output index.
pub proof fn lemma_sel_inputs_nonneg(
    sel: Seq<(Seq<char>, Seq<i32>)>,
    pub_key: Seq<u8>,
    m: Map<Seq<u8>, Seq<u8>>,
    pkh: Seq<u8>,
    k: int,
)
    requires
        sel_wf(m, sel, pkh),
        0 <= k < sel_inputs(sel, pub_key).len(),
    ensures
        sel_inputs(sel, pub_key)[k].v_out >= 0,
        sel_inputs(sel, pub_key)[k].pub_key == pub_key,
        sel_inputs(sel, pub_key)[k].signature.len() == 0,
    decreases sel.len(),
{
    if sel.len() > 0 {
        let base = sel_inputs(sel.drop_last(), pub_key);
        if k < base.len() {
            assert(forall|q: int|
                0 <= q < sel.drop_last().len() ==> #[trigger] sel.drop_last()[q] == sel[q]);
            assert(sel_wf(m, sel.drop_last(), pkh)) by {
                assert forall|q: int| 0 <= q < sel.drop_last().len() implies {
                    let key = vstd::utf8::encode_utf8((#[trigger] sel.drop_last()[q]).0);
                    &&& m.dom().contains(key)
                    &&& parse_outs(m[key]) is Some
                    &&& (forall|j: int|
                        0 <= j < sel.drop_last()[q].1.len() ==> 0 <= #[trigger] sel.drop_last(
                        )[q].1[j] < parse_outs(m[key]).unwrap().len() && parse_outs(
                            m[key],
                        ).unwrap()[sel.drop_last()[q].1[j] as int].pub_key_hash == pkh
                            && parse_outs(m[key]).unwrap()[sel.drop_last()[q].1[j] as int].value
                            >= 0)
                    &&& (forall|j1: int, j2: int|
                        0 <= j1 < j2 < sel.drop_last()[q].1.len() ==> sel.drop_last()[q].1[j1]
                            < sel.drop_last()[q].1[j2])
                } by {
                    assert(sel.drop_last()[q] == sel[q]);
                }
            }
            lemma_sel_inputs_nonneg(sel.drop_last(), pub_key, m, pkh, k);
        } else {
            let g = group_inputs(sel.last().0, sel.last().1, pub_key);
            assert(sel_inputs(sel, pub_key)[k] == g[k - base.len()]);
            assert(sel.last() == sel[sel.len() - 1]);
            assert(sel[sel.len() - 1].1[k - base.len()] >= 0);
        }
    }
}

} // verus!
