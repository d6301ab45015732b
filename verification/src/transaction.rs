use vstd::prelude::*;

use crate::codec::{
    enc_bytes, enc_i32, enc_str, enc_u32, get_byte_string, get_i32, get_str, get_u32,
    lemma_rt_bytes, lemma_rt_i32, lemma_rt_str, lemma_rt_u32, put_byte_string, put_i32, put_str,
    put_u32, sdec_bytes, sdec_i32, sdec_str, sdec_u32,
};
use crate::crypto::{
    ecdsa_sig_of, ecdsa_verifies, hex_of, p256_pub_of, scalar_ok, sec1_ok, sha256, sha256_of,
    sig_scalars_ok,
};
use crate::errors::Error;
use crate::utils::{bytes_eq, clone_bytes, get_pub_key_hash, hash_pub_key};

verus! {

/// The fixed mining reward paid by a coinbase transaction.
pub const SUBSIDY: i32 = 10;

// ------------------------------------------------------------------
// Transaction data model.
//
// An output carries a value locked to a public-key hash.  An input
// points at the `v_out`-th output of the transaction named by
// `tx_id`, and carries the spender's signature and public key.  A
// coinbase transaction has a single input with an empty `tx_id`,
// `v_out` of -1, and arbitrary data in `pub_key`.
// ------------------------------------------------------------------

pub struct TXOutput {
    pub value: i32,
    pub pub_key_hash: Vec<u8>,
}

pub struct TXInput {
    pub tx_id: String,
    pub v_out: i32,
    pub signature: Vec<u8>,
    pub pub_key: Vec<u8>,
}

pub struct Transaction {
    pub id: String,
    pub v_in: Vec<TXInput>,
    pub v_out: Vec<TXOutput>,
}

/// The record the UTXO index stores per transaction: the outputs of
/// that transaction that are still unspent.
pub struct TXOutputs {
    pub outputs: Vec<TXOutput>,
}

// ------------------------------------------------------------------
// Mathematical views.
// ------------------------------------------------------------------

pub struct TxOutView {
    pub value: i32,
    pub pub_key_hash: Seq<u8>,
}

pub struct TxInView {
    pub tx_id: Seq<char>,
    pub v_out: i32,
    pub signature: Seq<u8>,
    pub pub_key: Seq<u8>,
}

pub struct TxView {
    pub id: Seq<char>,
    pub v_in: Seq<TxInView>,
    pub v_out: Seq<TxOutView>,
}

impl View for TXOutput {
    type V = TxOutView;

    open spec fn view(&self) -> TxOutView {
        TxOutView { value: self.value, pub_key_hash: self.pub_key_hash@ }
    }
}

impl View for TXInput {
    type V = TxInView;

    open spec fn view(&self) -> TxInView {
        TxInView {
            tx_id: self.tx_id@,
            v_out: self.v_out,
            signature: self.signature@,
            pub_key: self.pub_key@,
        }
    }
}

impl View for Transaction {
    type V = TxView;

    open spec fn view(&self) -> TxView {
        TxView {
            id: self.id@,
            v_in: self.v_in@.map_values(|t: TXInput| t@),
            v_out: self.v_out@.map_values(|t: TXOutput| t@),
        }
    }
}

impl View for TXOutputs {
    type V = Seq<TxOutView>;

    open spec fn view(&self) -> Seq<TxOutView> {
        self.outputs@.map_values(|t: TXOutput| t@)
    }
}

// ------------------------------------------------------------------
// Well-formedness: every variable-length field fits behind a 4-byte
// length or count prefix.
// ------------------------------------------------------------------

pub open spec fn wf_out(o: TxOutView) -> bool {
    o.pub_key_hash.len() < 0x100000000
}

pub open spec fn wf_in(i: TxInView) -> bool {
    &&& vstd::utf8::encode_utf8(i.tx_id).len() < 0x100000000
    &&& i.signature.len() < 0x100000000
    &&& i.pub_key.len() < 0x100000000
}

pub open spec fn wf_tx(t: TxView) -> bool {
    &&& vstd::utf8::encode_utf8(t.id).len() < 0x100000000
    &&& t.v_in.len() < 0x100000000
    &&& t.v_out.len() < 0x100000000
    &&& forall|k: int| 0 <= k < t.v_in.len() ==> wf_in(#[trigger] t.v_in[k])
    &&& forall|k: int| 0 <= k < t.v_out.len() ==> wf_out(#[trigger] t.v_out[k])
}

pub open spec fn wf_ins(s: Seq<TxInView>) -> bool {
    &&& s.len() < 0x100000000
    &&& forall|k: int| 0 <= k < s.len() ==> wf_in(#[trigger] s[k])
}

pub open spec fn wf_outs(s: Seq<TxOutView>) -> bool {
    &&& s.len() < 0x100000000
    &&& forall|k: int| 0 <= k < s.len() ==> wf_out(#[trigger] s[k])
}

// ------------------------------------------------------------------
// Spec encoding.
// ------------------------------------------------------------------

pub open spec fn enc_out(o: TxOutView) -> Seq<u8> {
    enc_i32(o.value) + enc_bytes(o.pub_key_hash)
}

pub open spec fn enc_in(i: TxInView) -> Seq<u8> {
    enc_str(i.tx_id) + enc_i32(i.v_out) + enc_bytes(i.signature) + enc_bytes(i.pub_key)
}

pub open spec fn cat_outs(s: Seq<TxOutView>) -> Seq<u8>
    decreases s.len(),
{
    if s.len() == 0 {
        Seq::empty()
    } else {
        enc_out(s[0]) + cat_outs(s.drop_first())
    }
}

pub open spec fn cat_ins(s: Seq<TxInView>) -> Seq<u8>
    decreases s.len(),
{
    if s.len() == 0 {
        Seq::empty()
    } else {
        enc_in(s[0]) + cat_ins(s.drop_first())
    }
}

/// The encoding of a list of outputs, as stored by the UTXO index.
pub open spec fn enc_outs(s: Seq<TxOutView>) -> Seq<u8> {
    enc_u32(s.len() as u32) + cat_outs(s)
}

/// The deterministic encoding of a whole transaction.
#[verifier::opaque]
pub open spec fn enc_tx(t: TxView) -> Seq<u8> {
    enc_str(t.id) + enc_u32(t.v_in.len() as u32) + cat_ins(t.v_in) + enc_u32(
        t.v_out.len() as u32,
    ) + cat_outs(t.v_out)
}

// ------------------------------------------------------------------
// Spec parsing.
// ------------------------------------------------------------------

pub open spec fn sdec_out(b: Seq<u8>) -> Option<(TxOutView, Seq<u8>)> {
    match sdec_i32(b) {
        Some((value, r1)) => match sdec_bytes(r1) {
            Some((pkh, r2)) => Some((TxOutView { value, pub_key_hash: pkh }, r2)),
            None => None,
        },
        None => None,
    }
}

pub open spec fn sdec_in(b: Seq<u8>) -> Option<(TxInView, Seq<u8>)> {
    match sdec_str(b) {
        Some((tx_id, r1)) => match sdec_i32(r1) {
            Some((v_out, r2)) => match sdec_bytes(r2) {
                Some((signature, r3)) => match sdec_bytes(r3) {
                    Some((pub_key, r4)) => Some(
                        (TxInView { tx_id, v_out, signature, pub_key }, r4),
                    ),
                    None => None,
                },
                None => None,
            },
            None => None,
        },
        None => None,
    }
}

pub open spec fn sdec_out_seq(b: Seq<u8>, n: nat) -> Option<(Seq<TxOutView>, Seq<u8>)>
    decreases n,
{
    if n == 0 {
        Some((Seq::empty(), b))
    } else {
        match sdec_out(b) {
            Some((v, r)) => match sdec_out_seq(r, (n - 1) as nat) {
                Some((s, r2)) => Some((seq![v] + s, r2)),
                None => None,
            },
            None => None,
        }
    }
}

pub open spec fn sdec_in_seq(b: Seq<u8>, n: nat) -> Option<(Seq<TxInView>, Seq<u8>)>
    decreases n,
{
    if n == 0 {
        Some((Seq::empty(), b))
    } else {
        match sdec_in(b) {
            Some((v, r)) => match sdec_in_seq(r, (n - 1) as nat) {
                Some((s, r2)) => Some((seq![v] + s, r2)),
                None => None,
            },
            None => None,
        }
    }
}

pub open spec fn sdec_outs(b: Seq<u8>) -> Option<(Seq<TxOutView>, Seq<u8>)> {
    match sdec_u32(b) {
        Some((n, r)) => sdec_out_seq(r, n as nat),
        None => None,
    }
}

#[verifier::opaque]
pub open spec fn sdec_tx(b: Seq<u8>) -> Option<(TxView, Seq<u8>)> {
    match sdec_str(b) {
        Some((id, r1)) => match sdec_u32(r1) {
            Some((n_in, r2)) => match sdec_in_seq(r2, n_in as nat) {
                Some((v_in, r3)) => match sdec_u32(r3) {
                    Some((n_out, r4)) => match sdec_out_seq(r4, n_out as nat) {
                        Some((v_out, r5)) => Some((TxView { id, v_in, v_out }, r5)),
                        None => None,
                    },
                    None => None,
                },
                None => None,
            },
            None => None,
        },
        None => None,
    }
}

// ------------------------------------------------------------------
// Round trips.
// ------------------------------------------------------------------

pub proof fn lemma_rt_out(o: TxOutView, rest: Seq<u8>)
    requires
        wf_out(o),
    ensures
        sdec_out(enc_out(o) + rest) == Some((o, rest)),
{
    assert(enc_out(o) + rest =~= enc_i32(o.value) + (enc_bytes(o.pub_key_hash) + rest));
    lemma_rt_i32(o.value, enc_bytes(o.pub_key_hash) + rest);
    lemma_rt_bytes(o.pub_key_hash, rest);
}

pub proof fn lemma_rt_in(i: TxInView, rest: Seq<u8>)
    requires
        wf_in(i),
    ensures
        sdec_in(enc_in(i) + rest) == Some((i, rest)),
{
    let t1 = enc_i32(i.v_out) + (enc_bytes(i.signature) + (enc_bytes(i.pub_key) + rest));
    assert(enc_in(i) + rest =~= enc_str(i.tx_id) + t1);
    lemma_rt_str(i.tx_id, t1);
    lemma_rt_i32(i.v_out, enc_bytes(i.signature) + (enc_bytes(i.pub_key) + rest));
    lemma_rt_bytes(i.signature, enc_bytes(i.pub_key) + rest);
    lemma_rt_bytes(i.pub_key, rest);
}

pub proof fn lemma_rt_out_seq(s: Seq<TxOutView>, rest: Seq<u8>)
    requires
        forall|k: int| 0 <= k < s.len() ==> wf_out(#[trigger] s[k]),
    ensures
        sdec_out_seq(cat_outs(s) + rest, s.len()) == Some((s, rest)),
    decreases s.len(),
{
    if s.len() == 0 {
        assert(cat_outs(s) + rest =~= rest);
        assert(Seq::<TxOutView>::empty() =~= s);
    } else {
        assert(cat_outs(s) + rest =~= enc_out(s[0]) + (cat_outs(s.drop_first()) + rest));
        lemma_rt_out(s[0], cat_outs(s.drop_first()) + rest);
        lemma_rt_out_seq(s.drop_first(), rest);
        assert(seq![s[0]] + s.drop_first() =~= s);
    }
}

#[verifier::rlimit(100)]
pub proof fn lemma_rt_in_seq(s: Seq<TxInView>, rest: Seq<u8>)
    requires
        forall|k: int| 0 <= k < s.len() ==> wf_in(#[trigger] s[k]),
    ensures
        sdec_in_seq(cat_ins(s) + rest, s.len()) == Some((s, rest)),
    decreases s.len(),
{
    if s.len() == 0 {
        assert(cat_ins(s) + rest =~= rest);
        assert(Seq::<TxInView>::empty() =~= s);
    } else {
        let tail = s.drop_first();
        let b = cat_ins(s) + rest;
        assert(b =~= enc_in(s[0]) + (cat_ins(tail) + rest)) by {
            assert(cat_ins(s) == enc_in(s[0]) + cat_ins(tail));
        }
        assert(sdec_in(b) == Some((s[0], cat_ins(tail) + rest))) by {
            lemma_rt_in(s[0], cat_ins(tail) + rest);
        }
        assert(sdec_in_seq(cat_ins(tail) + rest, tail.len()) == Some((tail, rest))) by {
            lemma_rt_in_seq(tail, rest);
        }
        assert(seq![s[0]] + tail =~= s);
        assert(sdec_in_seq(b, s.len()) == Some((s, rest)));
    }
}

pub proof fn lemma_rt_outs(s: Seq<TxOutView>, rest: Seq<u8>)
    requires
        wf_outs(s),
    ensures
        sdec_outs(enc_outs(s) + rest) == Some((s, rest)),
{
    assert(enc_outs(s) + rest =~= enc_u32(s.len() as u32) + (cat_outs(s) + rest));
    lemma_rt_u32(s.len() as u32, cat_outs(s) + rest);
    lemma_rt_out_seq(s, rest);
}

pub proof fn lemma_cat_outs_app(a: Seq<TxOutView>, b: Seq<TxOutView>)
    ensures
        cat_outs(a + b) == cat_outs(a) + cat_outs(b),
    decreases a.len(),
{
    if a.len() == 0 {
        assert(a + b =~= b);
        assert(cat_outs(a) + cat_outs(b) =~= cat_outs(b));
    } else {
        assert((a + b).drop_first() =~= a.drop_first() + b);
        lemma_cat_outs_app(a.drop_first(), b);
        assert((a + b)[0] == a[0]);
        assert(enc_out(a[0]) + (cat_outs(a.drop_first()) + cat_outs(b)) =~= (enc_out(a[0])
            + cat_outs(a.drop_first())) + cat_outs(b));
    }
}

pub proof fn lemma_cat_ins_app(a: Seq<TxInView>, b: Seq<TxInView>)
    ensures
        cat_ins(a + b) == cat_ins(a) + cat_ins(b),
    decreases a.len(),
{
    if a.len() == 0 {
        assert(a + b =~= b);
        assert(cat_ins(a) + cat_ins(b) =~= cat_ins(b));
    } else {
        assert((a + b).drop_first() =~= a.drop_first() + b);
        lemma_cat_ins_app(a.drop_first(), b);
        assert((a + b)[0] == a[0]);
        assert(enc_in(a[0]) + (cat_ins(a.drop_first()) + cat_ins(b)) =~= (enc_in(a[0]) + cat_ins(
            a.drop_first(),
        )) + cat_ins(b));
    }
}

pub proof fn lemma_rt_tx(t: TxView, rest: Seq<u8>)
    requires
        wf_tx(t),
    ensures
        sdec_tx(enc_tx(t) + rest) == Some((t, rest)),
{
    reveal(enc_tx);
    reveal(sdec_tx);
    let t1 = enc_u32(t.v_in.len() as u32) + (cat_ins(t.v_in) + (enc_u32(t.v_out.len() as u32) + (
    cat_outs(t.v_out) + rest)));
    assert(enc_tx(t) + rest =~= enc_str(t.id) + t1);
    lemma_rt_str(t.id, t1);
    lemma_rt_u32(
        t.v_in.len() as u32,
        cat_ins(t.v_in) + (enc_u32(t.v_out.len() as u32) + (cat_outs(t.v_out) + rest)),
    );
    lemma_rt_in_seq(t.v_in, enc_u32(t.v_out.len() as u32) + (cat_outs(t.v_out) + rest));
    lemma_rt_u32(t.v_out.len() as u32, cat_outs(t.v_out) + rest);
    lemma_rt_out_seq(t.v_out, rest);
}


// ------------------------------------------------------------------
// Exec encoding.
// ------------------------------------------------------------------

impl TXOutput {
    pub fn encode_into(&self, out: &mut Vec<u8>)
        requires
            wf_out(self@),
        ensures
            final(out)@ == old(out)@ + enc_out(self@),
    {
        put_i32(out, self.value);
        put_byte_string(out, self.pub_key_hash.as_slice());
        assert(out@ =~= old(out)@ + enc_out(self@));
    }
}

impl TXInput {
    pub fn encode_into(&self, out: &mut Vec<u8>)
        requires
            wf_in(self@),
        ensures
            final(out)@ == old(out)@ + enc_in(self@),
    {
        put_str(out, self.tx_id.as_str());
        put_i32(out, self.v_out);
        put_byte_string(out, self.signature.as_slice());
        put_byte_string(out, self.pub_key.as_slice());
        assert(out@ =~= old(out)@ + enc_in(self@));
    }
}

pub fn encode_out_list(outs: &Vec<TXOutput>, out: &mut Vec<u8>)
    requires
        wf_outs(outs@.map_values(|t: TXOutput| t@)),
    ensures
        final(out)@ == old(out)@ + enc_outs(outs@.map_values(|t: TXOutput| t@)),
{
    let ghost s = outs@.map_values(|t: TXOutput| t@);
    put_u32(out, outs.len() as u32);
    let mut i: usize = 0;
    while i < outs.len()
        invariant
            i <= outs@.len(),
            s == outs@.map_values(|t: TXOutput| t@),
            wf_outs(s),
            out@ == old(out)@ + enc_u32(s.len() as u32) + cat_outs(s.take(i as int)),
        decreases outs@.len() - i,
    {
        proof {
            assert(s[i as int] == outs@[i as int]@);
        }
        outs[i].encode_into(out);
        i = i + 1;
        proof {
            assert(s.take(i as int) =~= s.take(i - 1) + seq![s[i - 1]]);
            lemma_cat_outs_app(s.take(i - 1), seq![s[i - 1]]);
            assert(seq![s[i - 1]].drop_first() =~= Seq::<TxOutView>::empty());
            assert(cat_outs(Seq::<TxOutView>::empty()) =~= Seq::<u8>::empty());
            assert(cat_outs(seq![s[i - 1]]) =~= enc_out(s[i - 1]));
            assert(out@ =~= old(out)@ + enc_u32(s.len() as u32) + cat_outs(s.take(i as int)));
        }
    }
    assert(s.take(s.len() as int) =~= s);
    assert(out@ =~= old(out)@ + enc_outs(s));
}

pub fn encode_in_list(ins: &Vec<TXInput>, out: &mut Vec<u8>)
    requires
        wf_ins(ins@.map_values(|t: TXInput| t@)),
    ensures
        final(out)@ == old(out)@ + enc_u32(ins@.len() as u32) + cat_ins(
            ins@.map_values(|t: TXInput| t@),
        ),
{
    let ghost s = ins@.map_values(|t: TXInput| t@);
    put_u32(out, ins.len() as u32);
    let mut i: usize = 0;
    while i < ins.len()
        invariant
            i <= ins@.len(),
            s == ins@.map_values(|t: TXInput| t@),
            wf_ins(s),
            out@ == old(out)@ + enc_u32(s.len() as u32) + cat_ins(s.take(i as int)),
        decreases ins@.len() - i,
    {
        proof {
            assert(s[i as int] == ins@[i as int]@);
        }
        ins[i].encode_into(out);
        i = i + 1;
        proof {
            assert(s.take(i as int) =~= s.take(i - 1) + seq![s[i - 1]]);
            lemma_cat_ins_app(s.take(i - 1), seq![s[i - 1]]);
            assert(seq![s[i - 1]].drop_first() =~= Seq::<TxInView>::empty());
            assert(cat_ins(Seq::<TxInView>::empty()) =~= Seq::<u8>::empty());
            assert(cat_ins(seq![s[i - 1]]) =~= enc_in(s[i - 1]));
            assert(out@ =~= old(out)@ + enc_u32(s.len() as u32) + cat_ins(s.take(i as int)));
        }
    }
    assert(s.take(s.len() as int) =~= s);
}

impl TXOutputs {
    /// The encoding of one UTXO record.
    pub fn encode(&self) -> (r: Vec<u8>)
        requires
            wf_outs(self@),
        ensures
            r@ == enc_outs(self@),
    {
        let mut out: Vec<u8> = Vec::new();
        encode_out_list(&self.outputs, &mut out);
        out
    }
}

impl Transaction {
    /// The deterministic encoding of the whole transaction.
    pub fn encode(&self) -> (r: Vec<u8>)
        requires
            wf_tx(self@),
        ensures
            r@ == enc_tx(self@),
    {
        let mut out: Vec<u8> = Vec::new();
        put_str(&mut out, self.id.as_str());
        encode_in_list(&self.v_in, &mut out);
        encode_out_list(&self.v_out, &mut out);
        proof {
            reveal(enc_tx);
            assert(out@ =~= enc_tx(self@));
        }
        out
    }
}

// ------------------------------------------------------------------
// Exec decoding.
// ------------------------------------------------------------------

pub fn decode_output(buf: &Vec<u8>, pos: usize) -> (r: Option<(TXOutput, usize)>)
    requires
        pos <= buf@.len(),
    ensures
        match r {
            Some(p) => pos <= p.1 <= buf@.len() && sdec_out(buf@.skip(pos as int)) == Some(
                (p.0@, buf@.skip(p.1 as int)),
            ) && wf_out(p.0@),
            None => sdec_out(buf@.skip(pos as int)) is None,
        },
{
    match get_i32(buf, pos) {
        Some((value, p1)) => match get_byte_string(buf, p1) {
            Some((pkh, p2)) => Some((TXOutput { value, pub_key_hash: pkh }, p2)),
            None => None,
        },
        None => None,
    }
}

pub fn decode_input(buf: &Vec<u8>, pos: usize) -> (r: Option<(TXInput, usize)>)
    requires
        pos <= buf@.len(),
    ensures
        match r {
            Some(p) => pos <= p.1 <= buf@.len() && sdec_in(buf@.skip(pos as int)) == Some(
                (p.0@, buf@.skip(p.1 as int)),
            ) && wf_in(p.0@),
            None => sdec_in(buf@.skip(pos as int)) is None,
        },
{
    match get_str(buf, pos) {
        Some((tx_id, p1)) => match get_i32(buf, p1) {
            Some((v_out, p2)) => match get_byte_string(buf, p2) {
                Some((signature, p3)) => match get_byte_string(buf, p3) {
                    Some((pub_key, p4)) => {
                        let input = TXInput { tx_id, v_out, signature, pub_key };
                        proof {
                            broadcast use vstd::utf8::decode_utf8_encode_utf8;

                        }
                        Some((input, p4))
                    },
                    None => None,
                },
                None => None,
            },
            None => None,
        },
        None => None,
    }
}

pub fn decode_out_list(buf: &Vec<u8>, pos: usize, n: u32) -> (r: Option<(Vec<TXOutput>, usize)>)
    requires
        pos <= buf@.len(),
    ensures
        match r {
            Some(p) => pos <= p.1 <= buf@.len() && sdec_out_seq(buf@.skip(pos as int), n as nat)
                == Some((p.0@.map_values(|t: TXOutput| t@), buf@.skip(p.1 as int))) && wf_outs(
                p.0@.map_values(|t: TXOutput| t@),
            ) && p.0@.len() == n,
            None => sdec_out_seq(buf@.skip(pos as int), n as nat) is None,
        },
{
    let mut acc: Vec<TXOutput> = Vec::new();
    let mut cur: usize = pos;
    let mut k: u32 = 0;
    while k < n
        invariant
            pos <= cur <= buf@.len(),
            k <= n,
            acc@.len() == k,
            wf_outs(acc@.map_values(|t: TXOutput| t@)),
            sdec_out_seq(buf@.skip(pos as int), n as nat) == (match sdec_out_seq(
                buf@.skip(cur as int),
                (n - k) as nat,
            ) {
                Some((s, r2)) => Some((acc@.map_values(|t: TXOutput| t@) + s, r2)),
                None => None,
            }),
        decreases n - k,
    {
        match decode_output(buf, cur) {
            Some((o, next)) => {
                proof {
                    let accv = acc@.map_values(|t: TXOutput| t@);
                    let accv2 = acc@.push(o).map_values(|t: TXOutput| t@);
                    assert(accv2 =~= accv + seq![o@]);
                    assert forall|s: Seq<TxOutView>| true implies accv + (seq![o@] + s) == (accv
                        + seq![o@]) + s by {
                        assert(accv + (seq![o@] + s) =~= (accv + seq![o@]) + s);
                    }
                }
                acc.push(o);
                cur = next;
                k = k + 1;
            },
            None => {
                return None;
            },
        }
    }
    proof {
        let accv = acc@.map_values(|t: TXOutput| t@);
        assert(sdec_out_seq(buf@.skip(cur as int), 0) == Some(
            (Seq::<TxOutView>::empty(), buf@.skip(cur as int)),
        ));
        assert(accv + Seq::<TxOutView>::empty() =~= accv);
    }
    Some((acc, cur))
}

pub fn decode_in_list(buf: &Vec<u8>, pos: usize, n: u32) -> (r: Option<(Vec<TXInput>, usize)>)
    requires
        pos <= buf@.len(),
    ensures
        match r {
            Some(p) => pos <= p.1 <= buf@.len() && sdec_in_seq(buf@.skip(pos as int), n as nat)
                == Some((p.0@.map_values(|t: TXInput| t@), buf@.skip(p.1 as int))) && wf_ins(
                p.0@.map_values(|t: TXInput| t@),
            ) && p.0@.len() == n,
            None => sdec_in_seq(buf@.skip(pos as int), n as nat) is None,
        },
{
    let mut acc: Vec<TXInput> = Vec::new();
    let mut cur: usize = pos;
    let mut k: u32 = 0;
    while k < n
        invariant
            pos <= cur <= buf@.len(),
            k <= n,
            acc@.len() == k,
            wf_ins(acc@.map_values(|t: TXInput| t@)),
            sdec_in_seq(buf@.skip(pos as int), n as nat) == (match sdec_in_seq(
                buf@.skip(cur as int),
                (n - k) as nat,
            ) {
                Some((s, r2)) => Some((acc@.map_values(|t: TXInput| t@) + s, r2)),
                None => None,
            }),
        decreases n - k,
    {
        match decode_input(buf, cur) {
            Some((o, next)) => {
                proof {
                    let accv = acc@.map_values(|t: TXInput| t@);
                    let accv2 = acc@.push(o).map_values(|t: TXInput| t@);
                    assert(accv2 =~= accv + seq![o@]);
                    assert forall|s: Seq<TxInView>| true implies accv + (seq![o@] + s) == (accv
                        + seq![o@]) + s by {
                        assert(accv + (seq![o@] + s) =~= (accv + seq![o@]) + s);
                    }
                }
                acc.push(o);
                cur = next;
                k = k + 1;
            },
            None => {
                return None;
            },
        }
    }
    proof {
        let accv = acc@.map_values(|t: TXInput| t@);
        assert(sdec_in_seq(buf@.skip(cur as int), 0) == Some(
            (Seq::<TxInView>::empty(), buf@.skip(cur as int)),
        ));
        assert(accv + Seq::<TxInView>::empty() =~= accv);
    }
    Some((acc, cur))
}

impl TXOutputs {
    /// Decodes one UTXO record occupying the whole buffer.
    pub fn decode(buf: &Vec<u8>) -> (r: Option<TXOutputs>)
        ensures
            match r {
                Some(o) => sdec_outs(buf@) matches Some(p) && p.0 == o@ && p.1
                    == buf@.skip(buf@.len() as int) && wf_outs(o@),
                None => !(sdec_outs(buf@) matches Some(p) && p.1.len() == 0),
            },
    {
        match get_u32(buf, 0) {
            Some((n, p1)) => match decode_out_list(buf, p1, n) {
                Some((outs, p2)) => {
                    if p2 == buf.len() {
                        assert(buf@.skip(0) =~= buf@);
                        Some(TXOutputs { outputs: outs })
                    } else {
                        assert(buf@.skip(p2 as int).len() > 0);
                        None
                    }
                },
                None => None,
            },
            None => {
                assert(buf@.skip(0) =~= buf@);
                None
            },
        }
    }
}

impl Transaction {
    /// Decodes a transaction starting at `pos`.
    pub fn decode(buf: &Vec<u8>, pos: usize) -> (r: Option<(Transaction, usize)>)
        requires
            pos <= buf@.len(),
        ensures
            match r {
                Some(p) => pos <= p.1 <= buf@.len() && sdec_tx(buf@.skip(pos as int)) == Some(
                    (p.0@, buf@.skip(p.1 as int)),
                ) && wf_tx(p.0@),
                None => sdec_tx(buf@.skip(pos as int)) is None,
            },
    {
        proof {
            reveal(sdec_tx);
        }
        match get_str(buf, pos) {
            Some((id, p1)) => match get_u32(buf, p1) {
                Some((n_in, p2)) => match decode_in_list(buf, p2, n_in) {
                    Some((v_in, p3)) => match get_u32(buf, p3) {
                        Some((n_out, p4)) => match decode_out_list(buf, p4, n_out) {
                            Some((v_out, p5)) => {
                                let tx = Transaction { id, v_in, v_out };
                                proof {
                                    broadcast use vstd::utf8::decode_utf8_encode_utf8;

                                }
                                Some((tx, p5))
                            },
                            None => None,
                        },
                        None => None,
                    },
                    None => None,
                },
                None => None,
            },
            None => None,
        }
    }
}


// ------------------------------------------------------------------
// Identifiers, trimming and signing, at the spec level.
// ------------------------------------------------------------------

/// A coinbase mints new coins: one input with an empty `tx_id` and a
/// `v_out` of -1.
pub open spec fn is_coinbase_tx(t: TxView) -> bool {
    t.v_in.len() == 1 && t.v_in[0].tx_id.len() == 0 && t.v_in[0].v_out == -1
}

/// The transaction with its identifier cleared, the form that is
/// hashed to compute the identifier itself.
pub open spec fn cleared(t: TxView) -> TxView {
    TxView { id: Seq::empty(), v_in: t.v_in, v_out: t.v_out }
}

/// The 32-byte hash a transaction is identified by.
pub open spec fn tx_hash_of(t: TxView) -> Seq<u8> {
    sha256_of(enc_tx(cleared(t)))
}

/// The identifier: lowercase hex text of the hash.
pub open spec fn id_of(t: TxView) -> Seq<char> {
    hex_of(tx_hash_of(t))
}

/// An input with only its signature cleared.
pub open spec fn strip_in(i: TxInView) -> TxInView {
    TxInView { tx_id: i.tx_id, v_out: i.v_out, signature: Seq::empty(), pub_key: i.pub_key }
}

/// An input with signature and public key cleared.
pub open spec fn trimmed_in(i: TxInView) -> TxInView {
    TxInView { tx_id: i.tx_id, v_out: i.v_out, signature: Seq::empty(), pub_key: Seq::empty() }
}

/// The trimmed copy signing and verification work on.
pub open spec fn trimmed_of(t: TxView) -> TxView {
    TxView { id: t.id, v_in: t.v_in.map_values(|i: TxInView| trimmed_in(i)), v_out: t.v_out }
}

/// The exact value hashed when input `k` is signed: every input
/// trimmed, except that input `k` carries the public-key hash locking
/// the output it spends, and the identifier is cleared.
pub open spec fn signing_view(t: TxView, k: int, pkh: Seq<u8>) -> TxView {
    TxView {
        id: Seq::empty(),
        v_in: t.v_in.map_values(|i: TxInView| trimmed_in(i)).update(
            k,
            TxInView {
                tx_id: t.v_in[k].tx_id,
                v_out: t.v_in[k].v_out,
                signature: Seq::empty(),
                pub_key: pkh,
            },
        ),
        v_out: t.v_out,
    }
}

/// The text message input `k` is signed over.
pub open spec fn signing_msg(t: TxView, k: int, pkh: Seq<u8>) -> Seq<char> {
    hex_of(sha256_of(enc_tx(signing_view(t, k, pkh))))
}

/// The first transaction with the given identifier.
#[verifier::opaque]
pub open spec fn find_tx(s: Seq<TxView>, id: Seq<char>) -> Option<TxView>
    decreases s.len(),
{
    if s.len() == 0 {
        None
    } else if s[0].id == id {
        Some(s[0])
    } else {
        find_tx(s.drop_first(), id)
    }
}

/// The views of a list of transactions.
pub open spec fn tx_views(s: Seq<Transaction>) -> Seq<TxView> {
    s.map_values(|t: Transaction| t@)
}

pub open spec fn wf_txs(s: Seq<TxView>) -> bool {
    forall|k: int| 0 <= k < s.len() ==> wf_tx(#[trigger] s[k])
}

/// Whether input `k` references an output that the given previous
/// transactions provide.
pub open spec fn prev_ok(t: TxView, prevs: Seq<TxView>, k: int) -> bool {
    &&& find_tx(prevs, t.v_in[k].tx_id) matches Some(p)
    &&& 0 <= t.v_in[k].v_out < find_tx(prevs, t.v_in[k].tx_id).unwrap().v_out.len()
}

/// The public-key hash locking the output input `k` spends.
pub open spec fn prev_pkh(t: TxView, prevs: Seq<TxView>, k: int) -> Seq<u8> {
    find_tx(prevs, t.v_in[k].tx_id).unwrap().v_out[t.v_in[k].v_out as int].pub_key_hash
}

/// Whether input `k` carries a signature of exactly 64 bytes that
/// verifies over the trimmed message under the input's public key.
pub open spec fn input_verifies(t: TxView, prevs: Seq<TxView>, k: int) -> bool {
    &&& t.v_in[k].signature.len() == 64
    &&& ecdsa_verifies(
        t.v_in[k].pub_key,
        signing_msg(t, k, prev_pkh(t, prevs, k)),
        t.v_in[k].signature,
    )
}

/// Whether the whole transaction verifies: coinbases trivially, any
/// other transaction through every input.
pub open spec fn tx_verifies(t: TxView, prevs: Seq<TxView>) -> bool {
    is_coinbase_tx(t) || (forall|k: int| 0 <= k < t.v_in.len() ==> input_verifies(t, prevs, k))
}

/// Input `k` after signing under the given secret key.
pub open spec fn signed_in(t: TxView, sk: Seq<u8>, prevs: Seq<TxView>, k: int) -> TxInView {
    TxInView {
        tx_id: t.v_in[k].tx_id,
        v_out: t.v_in[k].v_out,
        signature: ecdsa_sig_of(sk, signing_msg(t, k, prev_pkh(t, prevs, k))),
        pub_key: t.v_in[k].pub_key,
    }
}

/// The transaction after signing every input under the secret key.
pub open spec fn signed_tx(t: TxView, sk: Seq<u8>, prevs: Seq<TxView>) -> TxView {
    TxView {
        id: t.id,
        v_in: Seq::new(t.v_in.len(), |k: int| signed_in(t, sk, prevs, k)),
        v_out: t.v_out,
    }
}

/// Whether every input can at least be checked: its referenced output
/// exists, and where the signature has the right length, the public
/// key and the signature scalars parse.
pub open spec fn inputs_checkable(t: TxView, prevs: Seq<TxView>) -> bool {
    forall|k: int|
        0 <= k < t.v_in.len() ==> (prev_ok(t, prevs, k) && ((#[trigger] t.v_in[k]).signature.len()
            == 64 ==> (sec1_ok(t.v_in[k].pub_key) && sig_scalars_ok(t.v_in[k].signature))))
}

pub proof fn lemma_find_tx_member(s: Seq<TxView>, id: Seq<char>)
    requires
        find_tx(s, id) is Some,
    ensures
        exists|i: int| 0 <= i < s.len() && s[i] == find_tx(s, id).unwrap(),
    decreases s.len(),
{
    reveal(find_tx);
    if s.len() > 0 && !(s[0].id == id) {
        lemma_find_tx_member(s.drop_first(), id);
        let j = choose|i: int|
            0 <= i < s.drop_first().len() && s.drop_first()[i] == find_tx(s.drop_first(), id).unwrap();
        assert(s[j + 1] == find_tx(s, id).unwrap());
    }
}

/// The signing message reads none of the signatures, so two
/// transactions differing only in signatures sign over the same text.
pub proof fn lemma_signing_view_ignores_sigs(t1: TxView, t2: TxView, k: int, pkh: Seq<u8>)
    requires
        0 <= k < t1.v_in.len(),
        t1.v_in.len() == t2.v_in.len(),
        forall|j: int|
            0 <= j < t1.v_in.len() ==> (#[trigger] t1.v_in[j]).tx_id == t2.v_in[j].tx_id
                && t1.v_in[j].v_out == t2.v_in[j].v_out && t1.v_in[j].pub_key
                == t2.v_in[j].pub_key,
        t1.v_out == t2.v_out,
    ensures
        signing_view(t1, k, pkh) == signing_view(t2, k, pkh),
{
    let m1 = t1.v_in.map_values(|i: TxInView| trimmed_in(i));
    let m2 = t2.v_in.map_values(|i: TxInView| trimmed_in(i));
    assert forall|j: int| 0 <= j < m1.len() implies m1[j] == m2[j] by {
        assert(m1[j] == trimmed_in(t1.v_in[j]));
        assert(m2[j] == trimmed_in(t2.v_in[j]));
    }
    assert(m1 =~= m2);
    assert(signing_view(t1, k, pkh).v_in =~= signing_view(t2, k, pkh).v_in);
}

// ------------------------------------------------------------------
// Exec methods.
// ------------------------------------------------------------------

/// The first transaction in `prevs` whose identifier is `id`.
pub fn find_prev<'a>(prevs: &'a Vec<Transaction>, id: &String) -> (r: Option<&'a Transaction>)
    ensures
        match r {
            Some(p) => find_tx(tx_views(prevs@), id@) == Some(p@),
            None => find_tx(tx_views(prevs@), id@) is None,
        },
{
    let ghost s = tx_views(prevs@);
    proof {
        reveal(find_tx);
        assert(s.skip(0) =~= s);
    }
    let mut i: usize = 0;
    while i < prevs.len()
        invariant
            i <= prevs@.len(),
            s == tx_views(prevs@),
            find_tx(s, id@) == find_tx(s.skip(i as int), id@),
        decreases prevs@.len() - i,
    {
        proof {
            reveal(find_tx);
            assert(s.skip(i as int)[0] == s[i as int]);
            assert(s.skip(i as int).drop_first() =~= s.skip(i + 1));
        }
        if prevs[i].id == *id {
            return Some(&prevs[i]);
        }
        i = i + 1;
    }
    proof {
        reveal(find_tx);
        assert(s.skip(s.len() as int).len() == 0);
    }
    None
}

/// Copy of a list of outputs.
pub fn clone_outputs(outs: &Vec<TXOutput>) -> (r: Vec<TXOutput>)
    ensures
        r@.map_values(|t: TXOutput| t@) == outs@.map_values(|t: TXOutput| t@),
        r@.len() == outs@.len(),
{
    let mut r: Vec<TXOutput> = Vec::new();
    let mut i: usize = 0;
    while i < outs.len()
        invariant
            i <= outs@.len(),
            r@.len() == i,
            forall|j: int| 0 <= j < i ==> (#[trigger] r@[j])@ == outs@[j]@,
        decreases outs@.len() - i,
    {
        r.push(TXOutput { value: outs[i].value, pub_key_hash: clone_bytes(&outs[i].pub_key_hash) });
        i = i + 1;
    }
    assert(r@.map_values(|t: TXOutput| t@) =~= outs@.map_values(|t: TXOutput| t@));
    r
}

impl Transaction {
    /// Whether this transaction is a coinbase.
    pub fn is_coinbase(&self) -> (r: bool)
        ensures
            r == is_coinbase_tx(self@),
    {
        self.v_in.len() == 1 && self.v_in[0].tx_id.as_str().is_empty() && self.v_in[0].v_out == -1i32
    }

    /// The 32-byte hash identifying this transaction: SHA-256 of the
    /// encoding with the identifier cleared.
    pub fn hash(&self) -> (r: Vec<u8>)
        requires
            wf_tx(self@),
        ensures
            r@ == tx_hash_of(self@),
            r@.len() == 32,
    {
        let mut out: Vec<u8> = Vec::new();
        proof {
            reveal_strlit("");
            assert(""@ =~= Seq::<char>::empty());
            assert(vstd::utf8::encode_utf8(""@) =~= Seq::<u8>::empty());
        }
        put_str(&mut out, "");
        encode_in_list(&self.v_in, &mut out);
        encode_out_list(&self.v_out, &mut out);
        proof {
            reveal(enc_tx);
            assert(out@ =~= enc_tx(cleared(self@)));
        }
        sha256(out.as_slice())
    }

    /// Recomputes and stores the identifier.
    pub fn set_id(&mut self)
        requires
            wf_tx(old(self)@),
        ensures
            final(self)@.id == id_of(old(self)@),
            final(self)@.id == id_of(final(self)@),
            final(self)@.v_in == old(self)@.v_in,
            final(self)@.v_out == old(self)@.v_out,
            wf_tx(final(self)@),
    {
        let h = self.hash();
        let id = crate::crypto::hex_encode(h.as_slice());
        self.id = id;
        proof {
            assert(cleared(self@) =~= cleared(old(self)@));
            crate::crypto::lemma_hex_ascii(tx_hash_of(old(self)@));
        }
    }

    /// The copy that signing and verification hash: all signatures and
    /// public keys cleared.
    pub fn trimmed_copy(&self) -> (r: Transaction)
        ensures
            r@ == trimmed_of(self@),
    {
        let mut ins: Vec<TXInput> = Vec::new();
        let mut i: usize = 0;
        while i < self.v_in.len()
            invariant
                i <= self.v_in@.len(),
                ins@.len() == i,
                forall|j: int| 0 <= j < i ==> (#[trigger] ins@[j])@ == trimmed_in(self.v_in@[j]@),
            decreases self.v_in@.len() - i,
        {
            ins.push(
                TXInput {
                    tx_id: self.v_in[i].tx_id.clone(),
                    v_out: self.v_in[i].v_out,
                    signature: Vec::new(),
                    pub_key: Vec::new(),
                },
            );
            i = i + 1;
        }
        let outs = clone_outputs(&self.v_out);
        let r = Transaction { id: self.id.clone(), v_in: ins, v_out: outs };
        proof {
            assert(r@.v_in =~= trimmed_of(self@).v_in);
            assert(r@ =~= trimmed_of(self@));
        }
        r
    }

    /// The hash signed for input `k` when the spent output is locked
    /// to `pkh`.
    fn signing_hash(&self, k: usize, pkh: &Vec<u8>) -> (r: Vec<u8>)
        requires
            wf_tx(self@),
            k < self@.v_in.len(),
            pkh@.len() < 0x100000000,
        ensures
            r@ == sha256_of(enc_tx(signing_view(self@, k as int, pkh@))),
            r@.len() == 32,
    {
        let ghost sv = signing_view(self@, k as int, pkh@);
        let mut ins: Vec<TXInput> = Vec::new();
        let mut i: usize = 0;
        while i < self.v_in.len()
            invariant
                i <= self.v_in@.len(),
                ins@.len() == i,
                k < self@.v_in.len(),
                pkh@.len() < 0x100000000,
                sv == signing_view(self@, k as int, pkh@),
                forall|j: int| 0 <= j < i ==> (#[trigger] ins@[j])@ == sv.v_in[j],
            decreases self.v_in@.len() - i,
        {
            let pk: Vec<u8> = if i == k {
                clone_bytes(pkh)
            } else {
                Vec::new()
            };
            ins.push(
                TXInput {
                    tx_id: self.v_in[i].tx_id.clone(),
                    v_out: self.v_in[i].v_out,
                    signature: Vec::new(),
                    pub_key: pk,
                },
            );
            i = i + 1;
        }
        let outs = clone_outputs(&self.v_out);
        let tmp = Transaction { id: String::new(), v_in: ins, v_out: outs };
        proof {
            assert(tmp@.v_in =~= sv.v_in);
            assert(tmp@ =~= sv);
        }
        let bytes = tmp.encode();
        sha256(bytes.as_slice())
    }
}


impl TXOutput {
    /// An output of the given value locked to the public-key hash
    /// inside the address.  Fails when the address does not decode.
    pub fn new(value: i32, address: &str) -> (r: Result<TXOutput, Error>)
        ensures
            r matches Ok(o) ==> o@.value == value && wf_out(o@) && (forall|p: Seq<u8>|
                5 <= p.len() <= 90 && address@ == #[trigger] crate::crypto::base58_of(p)
                    ==> o@.pub_key_hash == p.subrange(1, p.len() - 4)),
            r matches Err(e) ==> e == Error::MalformedInput && (forall|p: Seq<u8>|
                5 <= p.len() <= 90 ==> address@ != #[trigger] crate::crypto::base58_of(p)),
    {
        let mut out = TXOutput { value, pub_key_hash: Vec::new() };
        match out.lock(address) {
            Ok(()) => Ok(out),
            Err(e) => Err(e),
        }
    }

    /// Whether this output is locked to the given public-key hash.
    pub fn is_locked_with_key(&self, pub_key_hash: &[u8]) -> (r: bool)
        ensures
            r == (self@.pub_key_hash == pub_key_hash@),
    {
        bytes_eq(self.pub_key_hash.as_slice(), pub_key_hash)
    }

    /// Locks this output to the public-key hash inside the address.
    pub fn lock(&mut self, address: &str) -> (r: Result<(), Error>)
        ensures
            r matches Ok(()) ==> final(self).value == old(self).value && wf_out(final(self)@)
                && (forall|p: Seq<u8>|
                5 <= p.len() <= 90 && address@ == #[trigger] crate::crypto::base58_of(p)
                    ==> final(self)@.pub_key_hash == p.subrange(1, p.len() - 4)),
            r matches Err(e) ==> e == Error::MalformedInput && *final(self) == *old(self) && (forall|
                p: Seq<u8>,
            | 5 <= p.len() <= 90 ==> address@ != #[trigger] crate::crypto::base58_of(p)),
    {
        match get_pub_key_hash(address) {
            Some(pkh) => {
                proof {
                    assert(pkh@.len() <= 132);
                }
                self.pub_key_hash = pkh;
                Ok(())
            },
            None => Err(Error::MalformedInput),
        }
    }
}

impl TXInput {
    /// Whether this input's public key hashes to the given value.
    pub fn uses_key(&self, pub_key_hash: &[u8]) -> (r: bool)
        ensures
            r == (crate::crypto::pkh_of(self@.pub_key) == pub_key_hash@),
    {
        let v = hash_pub_key(self.pub_key.as_slice());
        bytes_eq(v.as_slice(), pub_key_hash)
    }
}

/// The data string a coinbase carries: the caller's, or the standard
/// reward note when the caller gave none.
pub open spec fn coinbase_data_of(to: Seq<char>, data: Seq<char>) -> Seq<char> {
    if data.len() == 0 {
        "Reward to '"@ + to + "'"@
    } else {
        data
    }
}

impl Transaction {
    /// A coinbase transaction minting the subsidy to the given
    /// address.  The data string rides in the input's public-key slot
    /// so that distinct coinbases hash differently.
    pub fn new_coinbase(to: &str, data: String) -> (r: Result<Transaction, Error>)
        ensures
            r matches Ok(tx) ==> {
                &&& wf_tx(tx@)
                &&& is_coinbase_tx(tx@)
                &&& tx@.id == id_of(tx@)
                &&& tx@.v_out.len() == 1
                &&& tx@.v_out[0].value == SUBSIDY
                &&& (forall|p: Seq<u8>|
                    5 <= p.len() <= 90 && to@ == #[trigger] crate::crypto::base58_of(p)
                        ==> tx@.v_out[0].pub_key_hash == p.subrange(1, p.len() - 4))
                &&& tx@.v_in[0].pub_key == vstd::utf8::encode_utf8(coinbase_data_of(to@, data@))
                &&& tx@.v_in[0].signature.len() == 0
            },
            r == Err::<Transaction, Error>(Error::MalformedInput) ==> (forall|p: Seq<u8>|
                5 <= p.len() <= 90 ==> to@ != #[trigger] crate::crypto::base58_of(p)),
            r matches Err(e) ==> e == Error::MalformedInput || e == Error::Serialization,
    {
        let d: String = if data.as_str().is_empty() {
            let m = String::from_str("Reward to '");
            let m = m.concat(to);
            let m = m.concat("'");
            m
        } else {
            data
        };
        let pub_key: Vec<u8> = vstd::slice::slice_to_vec(d.as_str().as_bytes());
        if pub_key.len() >= 0x40000000 {
            return Err(Error::Serialization);
        }
        let tx_in = TXInput {
            tx_id: String::new(),
            v_out: -1i32,
            signature: Vec::new(),
            pub_key,
        };
        let tx_out = match TXOutput::new(SUBSIDY, to) {
            Ok(o) => o,
            Err(e) => {
                return Err(e);
            },
        };
        let mut tx = Transaction { id: String::new(), v_in: vec![tx_in], v_out: vec![tx_out] };
        proof {
            reveal_strlit("");
            assert(""@ =~= Seq::<char>::empty());
            assert(vstd::utf8::encode_utf8(Seq::<char>::empty()) =~= Seq::<u8>::empty());
            assert(tx@.v_in[0].tx_id.len() == 0);
        }
        tx.set_id();
        Ok(tx)
    }

    /// Signs every input against the previous transactions its inputs
    /// reference.  Coinbases are left untouched.
    pub fn sign(&mut self, private_key: &[u8], prev_txs: &Vec<Transaction>) -> (r: Result<
        (),
        Error,
    >)
        requires
            wf_tx(old(self)@),
            wf_txs(tx_views(prev_txs@)),
        ensures
            wf_tx(final(self)@),
            r is Err ==> final(self)@ == old(self)@,
            is_coinbase_tx(old(self)@) ==> r is Ok && final(self)@ == old(self)@,
            !is_coinbase_tx(old(self)@) && private_key@.len() == 32 && scalar_ok(private_key@)
                && (forall|k: int|
                0 <= k < old(self)@.v_in.len() ==> #[trigger] prev_ok(
                    old(self)@,
                    tx_views(prev_txs@),
                    k,
                )) ==> r is Ok,
            !is_coinbase_tx(old(self)@) && r is Ok ==> {
                let t = old(self)@;
                let prevs = tx_views(prev_txs@);
                &&& final(self)@ == signed_tx(t, private_key@, prevs)
                &&& (forall|k: int| 0 <= k < t.v_in.len() ==> prev_ok(t, prevs, k))
                &&& (forall|k: int|
                    0 <= k < t.v_in.len() ==> ecdsa_verifies(
                        p256_pub_of(private_key@),
                        signing_msg(t, k, prev_pkh(t, prevs, k)),
                        final(self)@.v_in[k].signature,
                    ))
                &&& (forall|k: int|
                    0 <= k < t.v_in.len() ==> (#[trigger] final(self)@.v_in[k]).signature.len()
                        == 64)
                &&& (forall|k: int|
                    0 <= k < t.v_in.len() ==> sig_scalars_ok(
                        (#[trigger] final(self)@.v_in[k]).signature,
                    ))
            },
            r matches Err(e) ==> e == Error::MissingPrevTx || e == Error::MalformedInput,
            r == Err::<(), Error>(Error::MissingPrevTx) ==> exists|k: int|
                0 <= k < old(self)@.v_in.len() && find_tx(
                    tx_views(prev_txs@),
                    (#[trigger] old(self)@.v_in[k]).tx_id,
                ) is None,
    {
        if self.is_coinbase() {
            return Ok(());
        }
        let ghost t = old(self)@;
        let ghost prevs = tx_views(prev_txs@);
        let mut new_ins: Vec<TXInput> = Vec::new();
        let mut k: usize = 0;
        while k < self.v_in.len()
            invariant
                self == old(self),
                t == self@,
                prevs == tx_views(prev_txs@),
                wf_tx(t),
                wf_txs(prevs),
                !is_coinbase_tx(t),
                k <= t.v_in.len(),
                new_ins@.len() == k,
                forall|j: int| 0 <= j < k ==> prev_ok(t, prevs, j),
                forall|j: int|
                    0 <= j < k ==> (#[trigger] new_ins@[j])@ == signed_in(t, private_key@, prevs, j),
                forall|j: int|
                    0 <= j < k ==> ecdsa_verifies(
                        p256_pub_of(private_key@),
                        signing_msg(t, j, prev_pkh(t, prevs, j)),
                        (#[trigger] new_ins@[j])@.signature,
                    ),
                forall|j: int| 0 <= j < k ==> (#[trigger] new_ins@[j])@.signature.len() == 64,
                forall|j: int| 0 <= j < k ==> sig_scalars_ok((#[trigger] new_ins@[j])@.signature),
                forall|j: int| 0 <= j < k ==> wf_in((#[trigger] new_ins@[j])@),
            decreases t.v_in.len() - k,
        {
            let prev = match find_prev(prev_txs, &self.v_in[k].tx_id) {
                Some(p) => p,
                None => {
                    proof {
                        assert(!prev_ok(t, prevs, k as int));
                        assert(0 <= k < t.v_in.len() && find_tx(prevs, t.v_in[k as int].tx_id)
                            is None);
                    }
                    return Err(Error::MissingPrevTx);
                },
            };
            proof {
                lemma_find_tx_member(prevs, t.v_in[k as int].tx_id);
                let i = choose|i: int|
                    0 <= i < prevs.len() && prevs[i] == find_tx(
                        prevs,
                        t.v_in[k as int].tx_id,
                    ).unwrap();
                assert(wf_tx(prevs[i]));
            }
            let vout = self.v_in[k].v_out;
            if vout < 0 || vout as usize >= prev.v_out.len() {
                proof {
                    assert(!prev_ok(t, prevs, k as int));
                }
                return Err(Error::MalformedInput);
            }
            let pkh = &prev.v_out[vout as usize].pub_key_hash;
            proof {
                assert(wf_out(prev@.v_out[vout as int]));
            }
            let h = self.signing_hash(k, pkh);
            let msg = crate::crypto::hex_encode(h.as_slice());
            let sig = match crate::crypto::ecdsa_sign(private_key, msg.as_str()) {
                Some(s) => s,
                None => {
                    return Err(Error::MalformedInput);
                },
            };
            new_ins.push(
                TXInput {
                    tx_id: self.v_in[k].tx_id.clone(),
                    v_out: self.v_in[k].v_out,
                    signature: sig,
                    pub_key: clone_bytes(&self.v_in[k].pub_key),
                },
            );
            k = k + 1;
        }
        self.v_in = new_ins;
        proof {
            assert(self@.v_in =~= signed_tx(t, private_key@, prevs).v_in);
            assert(self@ =~= signed_tx(t, private_key@, prevs));
        }
        Ok(())
    }

    /// Checks every input's signature against the previous
    /// transactions.  Coinbases verify trivially.
    pub fn verify(&self, prev_txs: &Vec<Transaction>) -> (r: Result<bool, Error>)
        requires
            wf_tx(self@),
            wf_txs(tx_views(prev_txs@)),
        ensures
            r matches Ok(b) ==> b == tx_verifies(self@, tx_views(prev_txs@)),
            is_coinbase_tx(self@) ==> r == Ok::<bool, Error>(true),
            inputs_checkable(self@, tx_views(prev_txs@)) ==> r is Ok,
            r matches Err(e) ==> e == Error::MissingPrevTx || e == Error::MalformedInput,
            r == Err::<bool, Error>(Error::MissingPrevTx) ==> exists|k: int|
                0 <= k < self@.v_in.len() && find_tx(
                    tx_views(prev_txs@),
                    (#[trigger] self@.v_in[k]).tx_id,
                ) is None,
    {
        if self.is_coinbase() {
            return Ok(true);
        }
        let ghost t = self@;
        let ghost prevs = tx_views(prev_txs@);
        let mut k: usize = 0;
        while k < self.v_in.len()
            invariant
                t == self@,
                prevs == tx_views(prev_txs@),
                wf_tx(t),
                wf_txs(prevs),
                !is_coinbase_tx(t),
                k <= t.v_in.len(),
                forall|j: int| 0 <= j < k ==> input_verifies(t, prevs, j),
            decreases t.v_in.len() - k,
        {
            let prev = match find_prev(prev_txs, &self.v_in[k].tx_id) {
                Some(p) => p,
                None => {
                    proof {
                        assert(!prev_ok(t, prevs, k as int));
                        assert(0 <= k < t.v_in.len() && find_tx(prevs, t.v_in[k as int].tx_id)
                            is None);
                    }
                    return Err(Error::MissingPrevTx);
                },
            };
            proof {
                lemma_find_tx_member(prevs, t.v_in[k as int].tx_id);
                let i = choose|i: int|
                    0 <= i < prevs.len() && prevs[i] == find_tx(
                        prevs,
                        t.v_in[k as int].tx_id,
                    ).unwrap();
                assert(wf_tx(prevs[i]));
            }
            let vout = self.v_in[k].v_out;
            if vout < 0 || vout as usize >= prev.v_out.len() {
                proof {
                    assert(!prev_ok(t, prevs, k as int));
                }
                return Err(Error::MalformedInput);
            }
            if self.v_in[k].signature.len() != 64 {
                proof {
                    assert(!input_verifies(t, prevs, k as int));
                }
                return Ok(false);
            }
            let pkh = &prev.v_out[vout as usize].pub_key_hash;
            proof {
                assert(wf_out(prev@.v_out[vout as int]));
            }
            let h = self.signing_hash(k, pkh);
            let msg = crate::crypto::hex_encode(h.as_slice());
            match crate::crypto::ecdsa_verify(
                self.v_in[k].pub_key.as_slice(),
                msg.as_str(),
                self.v_in[k].signature.as_slice(),
            ) {
                Some(true) => {
                    proof {
                        assert(input_verifies(t, prevs, k as int));
                    }
                },
                Some(false) => {
                    proof {
                        assert(!input_verifies(t, prevs, k as int));
                    }
                    return Ok(false);
                },
                None => {
                    return Err(Error::MalformedInput);
                },
            }
            k = k + 1;
        }
        Ok(true)
    }
}

/// Law: a freshly signed transaction verifies.  Signing writes, for
/// every input, the deterministic signature over the trimmed message;
/// verification recomputes the same message (it reads no signatures)
/// and checks the signature under the input's public key, which must
/// be the one belonging to the signing scalar.
pub proof fn lemma_sign_verify(t: TxView, signed: TxView, sk: Seq<u8>, prevs: Seq<TxView>)
    requires
        !is_coinbase_tx(t),
        signed == signed_tx(t, sk, prevs),
        forall|k: int|
            0 <= k < t.v_in.len() ==> ecdsa_verifies(
                p256_pub_of(sk),
                signing_msg(t, k, prev_pkh(t, prevs, k)),
                signed.v_in[k].signature,
            ),
        forall|k: int| 0 <= k < t.v_in.len() ==> (#[trigger] signed.v_in[k]).signature.len() == 64,
        forall|k: int| 0 <= k < t.v_in.len() ==> (#[trigger] t.v_in[k]).pub_key == p256_pub_of(sk),
    ensures
        tx_verifies(signed, prevs),
{
    assert forall|k: int| 0 <= k < signed.v_in.len() implies input_verifies(signed, prevs, k) by {
        assert(signed.v_in[k] == signed_in(t, sk, prevs, k));
        assert(signed.v_in[k].tx_id == t.v_in[k].tx_id);
        assert(find_tx(prevs, signed.v_in[k].tx_id) == find_tx(prevs, t.v_in[k].tx_id));
        assert(prev_pkh(signed, prevs, k) == prev_pkh(t, prevs, k));
        assert forall|j: int|
            0 <= j < signed.v_in.len() implies (#[trigger] signed.v_in[j]).tx_id == t.v_in[j].tx_id
            && signed.v_in[j].v_out == t.v_in[j].v_out && signed.v_in[j].pub_key
            == t.v_in[j].pub_key by {
            assert(signed.v_in[j] == signed_in(t, sk, prevs, j));
        }
        lemma_signing_view_ignores_sigs(signed, t, k, prev_pkh(t, prevs, k));
        assert(signing_msg(signed, k, prev_pkh(signed, prevs, k)) == signing_msg(
            t,
            k,
            prev_pkh(t, prevs, k),
        ));
        assert(signed.v_in[k].pub_key == p256_pub_of(sk));
    }
}

} // verus!
