use vstd::prelude::*;

use crate::block::{enc_block, wf_block, Block, BlockView};
use crate::codec::{
    enc_bytes, enc_i32, enc_str, enc_u32, get_byte_string, get_i32, get_str, get_u32,
    put_byte_string, put_i32, put_str, put_u32, sdec_bytes, sdec_i32, sdec_str, sdec_u32,
};
use crate::block::sdec_block;
use crate::transaction::sdec_tx;
use crate::errors::Error;
use crate::transaction::{enc_tx, wf_tx, Transaction, TxView};
use crate::utils::{bytes_eq, clone_bytes, str_eq};
use crate::utxoset::UTXOSet;

verus! {

/// What an inventory or data request refers to.
#[derive(PartialEq, Eq, Structural, Clone, Copy, Debug)]
pub enum InvKind {
    Block,
    Tx,
}

/// One message of the gossip protocol.
pub enum Message {
    Addr { nodes: Vec<String> },
    Block { addr_from: String, block: Block },
    Inv { addr_from: String, kind: InvKind, items: Vec<Vec<u8>> },
    GetBlocks { addr_from: String },
    GetData { addr_from: String, kind: InvKind, id: Vec<u8> },
    Tx { addr_from: String, transaction: Transaction },
    Version { addr_from: String, version: i32, best_height: i32 },
}

pub enum MsgView {
    Addr { nodes: Seq<Seq<char>> },
    Block { addr_from: Seq<char>, block: BlockView },
    Inv { addr_from: Seq<char>, kind: InvKind, items: Seq<Seq<u8>> },
    GetBlocks { addr_from: Seq<char> },
    GetData { addr_from: Seq<char>, kind: InvKind, id: Seq<u8> },
    Tx { addr_from: Seq<char>, transaction: TxView },
    Version { addr_from: Seq<char>, version: i32, best_height: i32 },
}

impl View for Message {
    type V = MsgView;

    open spec fn view(&self) -> MsgView {
        match self {
            Message::Addr { nodes } => MsgView::Addr {
                nodes: nodes@.map_values(|s: String| s@),
            },
            Message::Block { addr_from, block } => MsgView::Block {
                addr_from: addr_from@,
                block: block@,
            },
            Message::Inv { addr_from, kind, items } => MsgView::Inv {
                addr_from: addr_from@,
                kind: *kind,
                items: items@.map_values(|v: Vec<u8>| v@),
            },
            Message::GetBlocks { addr_from } => MsgView::GetBlocks { addr_from: addr_from@ },
            Message::GetData { addr_from, kind, id } => MsgView::GetData {
                addr_from: addr_from@,
                kind: *kind,
                id: id@,
            },
            Message::Tx { addr_from, transaction } => MsgView::Tx {
                addr_from: addr_from@,
                transaction: transaction@,
            },
            Message::Version { addr_from, version, best_height } => MsgView::Version {
                addr_from: addr_from@,
                version: *version,
                best_height: *best_height,
            },
        }
    }
}

pub open spec fn wf_str(s: Seq<char>) -> bool {
    vstd::utf8::encode_utf8(s).len() < 0x100000000
}

pub open spec fn wf_message(m: MsgView) -> bool {
    match m {
        MsgView::Addr { nodes } => nodes.len() < 0x100000000 && (forall|i: int|
            0 <= i < nodes.len() ==> wf_str(#[trigger] nodes[i])),
        MsgView::Block { addr_from, block } => wf_str(addr_from) && wf_block(block),
        MsgView::Inv { addr_from, kind, items } => wf_str(addr_from) && items.len() < 0x100000000
            && (forall|i: int| 0 <= i < items.len() ==> (#[trigger] items[i]).len() < 0x100000000),
        MsgView::GetBlocks { addr_from } => wf_str(addr_from),
        MsgView::GetData { addr_from, kind, id } => wf_str(addr_from) && id.len() < 0x100000000,
        MsgView::Tx { addr_from, transaction } => wf_str(addr_from) && wf_tx(transaction),
        MsgView::Version { addr_from, version, best_height } => wf_str(addr_from),
    }
}

// ------------------------------------------------------------------
// Wire form: a tag byte, then the variant's fields.
// ------------------------------------------------------------------

pub open spec fn enc_kind(k: InvKind) -> Seq<u8> {
    match k {
        InvKind::Block => seq![0u8],
        InvKind::Tx => seq![1u8],
    }
}

pub open spec fn cat_byte_strs(s: Seq<Seq<u8>>) -> Seq<u8>
    decreases s.len(),
{
    if s.len() == 0 {
        Seq::empty()
    } else {
        enc_bytes(s[0]) + cat_byte_strs(s.drop_first())
    }
}

pub open spec fn cat_strs(s: Seq<Seq<char>>) -> Seq<u8>
    decreases s.len(),
{
    if s.len() == 0 {
        Seq::empty()
    } else {
        enc_str(s[0]) + cat_strs(s.drop_first())
    }
}

/// An inventory list with every copy of one hash removed, order kept.
pub open spec fn drop_matching(items: Seq<Seq<u8>>, h: Seq<u8>) -> Seq<Seq<u8>>
    decreases items.len(),
{
    if items.len() == 0 {
        Seq::empty()
    } else {
        (if items[0] == h {
            Seq::empty()
        } else {
            seq![items[0]]
        }) + drop_matching(items.drop_first(), h)
    }
}

pub proof fn lemma_drop_matching_app(a: Seq<Seq<u8>>, b: Seq<Seq<u8>>, h: Seq<u8>)
    ensures
        drop_matching(a + b, h) == drop_matching(a, h) + drop_matching(b, h),
    decreases a.len(),
{
    if a.len() == 0 {
        assert(a + b =~= b);
        assert(drop_matching(a, h) + drop_matching(b, h) =~= drop_matching(b, h));
    } else {
        assert((a + b).drop_first() =~= a.drop_first() + b);
        lemma_drop_matching_app(a.drop_first(), b, h);
        assert((a + b)[0] == a[0]);
        assert(drop_matching(a + b, h) =~= drop_matching(a, h) + drop_matching(b, h));
    }
}

/// The deterministic encoding of a whole message.
pub open spec fn enc_message(m: MsgView) -> Seq<u8> {
    match m {
        MsgView::Addr { nodes } => seq![0u8] + enc_u32(nodes.len() as u32) + cat_strs(nodes),
        MsgView::Block { addr_from, block } => seq![1u8] + enc_str(addr_from) + enc_block(block),
        MsgView::Inv { addr_from, kind, items } => seq![2u8] + enc_str(addr_from) + enc_kind(kind)
            + enc_u32(items.len() as u32) + cat_byte_strs(items),
        MsgView::GetBlocks { addr_from } => seq![3u8] + enc_str(addr_from),
        MsgView::GetData { addr_from, kind, id } => seq![4u8] + enc_str(addr_from) + enc_kind(kind)
            + enc_bytes(id),
        MsgView::Tx { addr_from, transaction } => seq![5u8] + enc_str(addr_from) + enc_tx(
            transaction,
        ),
        MsgView::Version { addr_from, version, best_height } => seq![6u8] + enc_str(addr_from)
            + enc_i32(version) + enc_i32(best_height),
    }
}

// ------------------------------------------------------------------
// The spec parser the decoder mirrors.
// ------------------------------------------------------------------

pub open spec fn sdec_kind(b: Seq<u8>) -> Option<(InvKind, Seq<u8>)> {
    if b.len() >= 1 {
        if b[0] == 0u8 {
            Some((InvKind::Block, b.drop_first()))
        } else if b[0] == 1u8 {
            Some((InvKind::Tx, b.drop_first()))
        } else {
            None
        }
    } else {
        None
    }
}

pub open spec fn sdec_str_seq(b: Seq<u8>, n: nat) -> Option<(Seq<Seq<char>>, Seq<u8>)>
    decreases n,
{
    if n == 0 {
        Some((Seq::empty(), b))
    } else {
        match sdec_str(b) {
            Some((v, r)) => match sdec_str_seq(r, (n - 1) as nat) {
                Some((s, r2)) => Some((seq![v] + s, r2)),
                None => None,
            },
            None => None,
        }
    }
}

pub open spec fn sdec_bytes_seq(b: Seq<u8>, n: nat) -> Option<(Seq<Seq<u8>>, Seq<u8>)>
    decreases n,
{
    if n == 0 {
        Some((Seq::empty(), b))
    } else {
        match sdec_bytes(b) {
            Some((v, r)) => match sdec_bytes_seq(r, (n - 1) as nat) {
                Some((s, r2)) => Some((seq![v] + s, r2)),
                None => None,
            },
            None => None,
        }
    }
}

/// The message a whole buffer decodes to, if it holds exactly one.
pub open spec fn sdec_message(b: Seq<u8>) -> Option<MsgView> {
    if b.len() < 1 {
        None
    } else if b[0] == 0u8 {
        match sdec_u32(b.drop_first()) {
            Some((n, r1)) => match sdec_str_seq(r1, n as nat) {
                Some((nodes, r2)) => if r2.len() == 0 {
                    Some(MsgView::Addr { nodes })
                } else {
                    None
                },
                None => None,
            },
            None => None,
        }
    } else if b[0] == 1u8 {
        match sdec_str(b.drop_first()) {
            Some((addr_from, r1)) => match sdec_block(r1) {
                Some((block, r2)) => if r2.len() == 0 {
                    Some(MsgView::Block { addr_from, block })
                } else {
                    None
                },
                None => None,
            },
            None => None,
        }
    } else if b[0] == 2u8 {
        match sdec_str(b.drop_first()) {
            Some((addr_from, r1)) => match sdec_kind(r1) {
                Some((kind, r2)) => match sdec_u32(r2) {
                    Some((n, r3)) => match sdec_bytes_seq(r3, n as nat) {
                        Some((items, r4)) => if r4.len() == 0 {
                            Some(MsgView::Inv { addr_from, kind, items })
                        } else {
                            None
                        },
                        None => None,
                    },
                    None => None,
                },
                None => None,
            },
            None => None,
        }
    } else if b[0] == 3u8 {
        match sdec_str(b.drop_first()) {
            Some((addr_from, r1)) => if r1.len() == 0 {
                Some(MsgView::GetBlocks { addr_from })
            } else {
                None
            },
            None => None,
        }
    } else if b[0] == 4u8 {
        match sdec_str(b.drop_first()) {
            Some((addr_from, r1)) => match sdec_kind(r1) {
                Some((kind, r2)) => match sdec_bytes(r2) {
                    Some((id, r3)) => if r3.len() == 0 {
                        Some(MsgView::GetData { addr_from, kind, id })
                    } else {
                        None
                    },
                    None => None,
                },
                None => None,
            },
            None => None,
        }
    } else if b[0] == 5u8 {
        match sdec_str(b.drop_first()) {
            Some((addr_from, r1)) => match sdec_tx(r1) {
                Some((transaction, r2)) => if r2.len() == 0 {
                    Some(MsgView::Tx { addr_from, transaction })
                } else {
                    None
                },
                None => None,
            },
            None => None,
        }
    } else if b[0] == 6u8 {
        match sdec_str(b.drop_first()) {
            Some((addr_from, r1)) => match sdec_i32(r1) {
                Some((version, r2)) => match sdec_i32(r2) {
                    Some((best_height, r3)) => if r3.len() == 0 {
                        Some(MsgView::Version { addr_from, version, best_height })
                    } else {
                        None
                    },
                    None => None,
                },
                None => None,
            },
            None => None,
        }
    } else {
        None
    }
}

impl Message {
    /// Encodes the message for the wire.
    #[verifier::rlimit(100)]
    pub fn encode(&self) -> (r: Vec<u8>)
        requires
            wf_message(self@),
        ensures
            r@ == enc_message(self@),
    {
        let mut out: Vec<u8> = Vec::new();
        match self {
            Message::Addr { nodes } => {
                out.push(0u8);
                put_u32(&mut out, nodes.len() as u32);
                let ghost s = nodes@.map_values(|x: String| x@);
                let mut i: usize = 0;
                while i < nodes.len()
                    invariant
                        i <= nodes@.len(),
                        s == nodes@.map_values(|x: String| x@),
                        s.len() < 0x100000000,
                        forall|j: int| 0 <= j < s.len() ==> wf_str(#[trigger] s[j]),
                        out@ == seq![0u8] + enc_u32(s.len() as u32) + cat_strs(s.take(i as int)),
                    decreases nodes@.len() - i,
                {
                    proof {
                        assert(s[i as int] == nodes@[i as int]@);
                    }
                    put_str(&mut out, nodes[i].as_str());
                    i = i + 1;
                    proof {
                        assert(s.take(i as int) =~= s.take(i - 1) + seq![s[i - 1]]);
                        lemma_cat_strs_app(s.take(i - 1), seq![s[i - 1]]);
                        assert(seq![s[i - 1]].drop_first() =~= Seq::<Seq<char>>::empty());
                        assert(cat_strs(Seq::<Seq<char>>::empty()) =~= Seq::<u8>::empty());
                        assert(cat_strs(seq![s[i - 1]]) =~= enc_str(s[i - 1]));
                        assert(out@ =~= seq![0u8] + enc_u32(s.len() as u32) + cat_strs(
                            s.take(i as int),
                        ));
                    }
                }
                proof {
                    assert(s.take(s.len() as int) =~= s);
                    assert(out@ =~= enc_message(self@));
                }
            },
            Message::Block { addr_from, block } => {
                out.push(1u8);
                put_str(&mut out, addr_from.as_str());
                let enc = block.encode();
                crate::codec::push_bytes(&mut out, enc.as_slice());
                assert(out@ =~= enc_message(self@));
            },
            Message::Inv { addr_from, kind, items } => {
                out.push(2u8);
                put_str(&mut out, addr_from.as_str());
                match kind {
                    InvKind::Block => out.push(0u8),
                    InvKind::Tx => out.push(1u8),
                }
                proof {
                    assert(out@ =~= seq![2u8] + enc_str(addr_from@) + enc_kind(*kind));
                }
                put_u32(&mut out, items.len() as u32);
                let ghost s = items@.map_values(|x: Vec<u8>| x@);
                let ghost base = seq![2u8] + enc_str(addr_from@) + enc_kind(*kind) + enc_u32(
                    s.len() as u32,
                );
                let mut i: usize = 0;
                while i < items.len()
                    invariant
                        i <= items@.len(),
                        s == items@.map_values(|x: Vec<u8>| x@),
                        s.len() < 0x100000000,
                        forall|j: int| 0 <= j < s.len() ==> (#[trigger] s[j]).len() < 0x100000000,
                        base == seq![2u8] + enc_str(
                            match self@ {
                                MsgView::Inv { addr_from, .. } => addr_from,
                                _ => Seq::empty(),
                            },
                        ) + enc_kind(
                            match self@ {
                                MsgView::Inv { kind, .. } => kind,
                                _ => InvKind::Block,
                            },
                        ) + enc_u32(s.len() as u32),
                        out@ == base + cat_byte_strs(s.take(i as int)),
                    decreases items@.len() - i,
                {
                    proof {
                        assert(s[i as int] == items@[i as int]@);
                    }
                    put_byte_string(&mut out, items[i].as_slice());
                    i = i + 1;
                    proof {
                        assert(s.take(i as int) =~= s.take(i - 1) + seq![s[i - 1]]);
                        lemma_cat_byte_strs_app(s.take(i - 1), seq![s[i - 1]]);
                        assert(seq![s[i - 1]].drop_first() =~= Seq::<Seq<u8>>::empty());
                        assert(cat_byte_strs(Seq::<Seq<u8>>::empty()) =~= Seq::<u8>::empty());
                        assert(cat_byte_strs(seq![s[i - 1]]) =~= enc_bytes(s[i - 1]));
                        assert(out@ =~= base + cat_byte_strs(s.take(i as int)));
                    }
                }
                proof {
                    assert(s.take(s.len() as int) =~= s);
                    assert(out@ =~= enc_message(self@));
                }
            },
            Message::GetBlocks { addr_from } => {
                out.push(3u8);
                put_str(&mut out, addr_from.as_str());
                assert(out@ =~= enc_message(self@));
            },
            Message::GetData { addr_from, kind, id } => {
                out.push(4u8);
                put_str(&mut out, addr_from.as_str());
                match kind {
                    InvKind::Block => out.push(0u8),
                    InvKind::Tx => out.push(1u8),
                }
                put_byte_string(&mut out, id.as_slice());
                assert(out@ =~= enc_message(self@));
            },
            Message::Tx { addr_from, transaction } => {
                out.push(5u8);
                put_str(&mut out, addr_from.as_str());
                let enc = transaction.encode();
                crate::codec::push_bytes(&mut out, enc.as_slice());
                assert(out@ =~= enc_message(self@));
            },
            Message::Version { addr_from, version, best_height } => {
                out.push(6u8);
                put_str(&mut out, addr_from.as_str());
                put_i32(&mut out, *version);
                put_i32(&mut out, *best_height);
                assert(out@ =~= enc_message(self@));
            },
        }
        out
    }

    /// Decodes a whole message; the buffer must hold exactly one.
    /// The result is exactly what the spec parser reads from the
    /// bytes.
    #[verifier::rlimit(100)]
    pub fn decode(buf: &Vec<u8>) -> (r: Option<Message>)
        ensures
            r matches Some(m) ==> wf_message(m@) && sdec_message(buf@) == Some(m@),
            r is None ==> sdec_message(buf@) is None,
    {
        if buf.len() < 1 {
            return None;
        }
        proof {
            assert(buf@.drop_first() =~= buf@.skip(1));
        }
        let tag = buf[0];
        if tag == 0u8 {
            let (n, p1) = match get_u32(buf, 1) {
                Some(p) => p,
                None => {
                    return None;
                },
            };
            let mut nodes: Vec<String> = Vec::new();
            let mut pos = p1;
            let mut k: u32 = 0;
            while k < n
                invariant
                    pos <= buf@.len(),
                    nodes@.len() == k,
                    k <= n,
                    buf@.len() >= 1,
                    buf@[0] == 0u8,
                    buf@.drop_first() == buf@.skip(1),
                    sdec_u32(buf@.skip(1)) == Some((n, buf@.skip(p1 as int))),
                    forall|j: int| 0 <= j < nodes@.len() ==> wf_str((#[trigger] nodes@[j])@),
                    sdec_str_seq(buf@.skip(p1 as int), n as nat) == (match sdec_str_seq(
                        buf@.skip(pos as int),
                        (n - k) as nat,
                    ) {
                        Some((s, r2)) => Some((nodes@.map_values(|x: String| x@) + s, r2)),
                        None => None,
                    }),
                decreases n - k,
            {
                let (sv, p2) = match get_str(buf, pos) {
                    Some(p) => p,
                    None => {
                        return None;
                    },
                };
                proof {
                    broadcast use vstd::utf8::decode_utf8_encode_utf8;

                    let accv = nodes@.map_values(|x: String| x@);
                    let accv2 = nodes@.push(sv).map_values(|x: String| x@);
                    assert(accv2 =~= accv + seq![sv@]);
                    assert forall|s2: Seq<Seq<char>>| true implies accv + (seq![sv@] + s2) == (
                    accv + seq![sv@]) + s2 by {
                        assert(accv + (seq![sv@] + s2) =~= (accv + seq![sv@]) + s2);
                    }
                }
                nodes.push(sv);
                pos = p2;
                k = k + 1;
            }
            if pos != buf.len() {
                proof {
                    assert(buf@.skip(pos as int).len() > 0);
                    assert(sdec_str_seq(buf@.skip(pos as int), 0) == Some(
                        (Seq::<Seq<char>>::empty(), buf@.skip(pos as int)),
                    ));
                }
                return None;
            }
            proof {
                assert(sdec_str_seq(buf@.skip(pos as int), 0) == Some(
                    (Seq::<Seq<char>>::empty(), buf@.skip(pos as int)),
                ));
                assert(nodes@.map_values(|x: String| x@) + Seq::<Seq<char>>::empty()
                    =~= nodes@.map_values(|x: String| x@));
                assert(buf@.skip(buf@.len() as int).len() == 0);
            }
            Some(Message::Addr { nodes })
        } else if tag == 1u8 {
            let (addr_from, p1) = match get_str(buf, 1) {
                Some(p) => p,
                None => {
                    return None;
                },
            };
            let (block, p2) = match Block::decode(buf, p1) {
                Some(p) => p,
                None => {
                    return None;
                },
            };
            if p2 != buf.len() {
                proof {
                    assert(buf@.skip(p2 as int).len() > 0);
                }
                return None;
            }
            proof {
                broadcast use vstd::utf8::decode_utf8_encode_utf8;

                assert(buf@.skip(p2 as int).len() == 0);
            }
            Some(Message::Block { addr_from, block })
        } else if tag == 2u8 {
            let (addr_from, p1) = match get_str(buf, 1) {
                Some(p) => p,
                None => {
                    return None;
                },
            };
            if p1 >= buf.len() {
                return None;
            }
            let kind = if buf[p1] == 0u8 {
                InvKind::Block
            } else if buf[p1] == 1u8 {
                InvKind::Tx
            } else {
                return None;
            };
            proof {
                assert(buf@.skip(p1 as int)[0] == buf@[p1 as int]);
                assert(buf@.skip(p1 as int).drop_first() =~= buf@.skip(p1 + 1));
            }
            let (n, p2) = match get_u32(buf, p1 + 1) {
                Some(p) => p,
                None => {
                    return None;
                },
            };
            let mut items: Vec<Vec<u8>> = Vec::new();
            let mut pos = p2;
            let mut k: u32 = 0;
            while k < n
                invariant
                    pos <= buf@.len(),
                    items@.len() == k,
                    k <= n,
                    buf@.len() >= 1,
                    buf@[0] == 2u8,
                    buf@.drop_first() == buf@.skip(1),
                    sdec_str(buf@.skip(1)) == Some((addr_from@, buf@.skip(p1 as int))),
                    sdec_kind(buf@.skip(p1 as int)) == Some((kind, buf@.skip(p1 + 1))),
                    sdec_u32(buf@.skip(p1 + 1)) == Some((n, buf@.skip(p2 as int))),
                    forall|j: int|
                        0 <= j < items@.len() ==> (#[trigger] items@[j])@.len() < 0x100000000,
                    sdec_bytes_seq(buf@.skip(p2 as int), n as nat) == (match sdec_bytes_seq(
                        buf@.skip(pos as int),
                        (n - k) as nat,
                    ) {
                        Some((s, r2)) => Some((items@.map_values(|x: Vec<u8>| x@) + s, r2)),
                        None => None,
                    }),
                decreases n - k,
            {
                let (bv, p3) = match get_byte_string(buf, pos) {
                    Some(p) => p,
                    None => {
                        return None;
                    },
                };
                proof {
                    let accv = items@.map_values(|x: Vec<u8>| x@);
                    let accv2 = items@.push(bv).map_values(|x: Vec<u8>| x@);
                    assert(accv2 =~= accv + seq![bv@]);
                    assert forall|s2: Seq<Seq<u8>>| true implies accv + (seq![bv@] + s2) == (accv
                        + seq![bv@]) + s2 by {
                        assert(accv + (seq![bv@] + s2) =~= (accv + seq![bv@]) + s2);
                    }
                }
                items.push(bv);
                pos = p3;
                k = k + 1;
            }
            if pos != buf.len() {
                proof {
                    assert(buf@.skip(pos as int).len() > 0);
                    assert(sdec_bytes_seq(buf@.skip(pos as int), 0) == Some(
                        (Seq::<Seq<u8>>::empty(), buf@.skip(pos as int)),
                    ));
                }
                return None;
            }
            proof {
                broadcast use vstd::utf8::decode_utf8_encode_utf8;

                assert(sdec_bytes_seq(buf@.skip(pos as int), 0) == Some(
                    (Seq::<Seq<u8>>::empty(), buf@.skip(pos as int)),
                ));
                assert(items@.map_values(|x: Vec<u8>| x@) + Seq::<Seq<u8>>::empty()
                    =~= items@.map_values(|x: Vec<u8>| x@));
                assert(buf@.skip(buf@.len() as int).len() == 0);
            }
            Some(Message::Inv { addr_from, kind, items })
        } else if tag == 3u8 {
            let (addr_from, p1) = match get_str(buf, 1) {
                Some(p) => p,
                None => {
                    return None;
                },
            };
            if p1 != buf.len() {
                proof {
                    assert(buf@.skip(p1 as int).len() > 0);
                }
                return None;
            }
            proof {
                broadcast use vstd::utf8::decode_utf8_encode_utf8;

                assert(buf@.skip(p1 as int).len() == 0);
            }
            Some(Message::GetBlocks { addr_from })
        } else if tag == 4u8 {
            let (addr_from, p1) = match get_str(buf, 1) {
                Some(p) => p,
                None => {
                    return None;
                },
            };
            if p1 >= buf.len() {
                return None;
            }
            let kind = if buf[p1] == 0u8 {
                InvKind::Block
            } else if buf[p1] == 1u8 {
                InvKind::Tx
            } else {
                return None;
            };
            proof {
                assert(buf@.skip(p1 as int)[0] == buf@[p1 as int]);
                assert(buf@.skip(p1 as int).drop_first() =~= buf@.skip(p1 + 1));
            }
            let (id, p2) = match get_byte_string(buf, p1 + 1) {
                Some(p) => p,
                None => {
                    return None;
                },
            };
            if p2 != buf.len() {
                proof {
                    assert(buf@.skip(p2 as int).len() > 0);
                }
                return None;
            }
            proof {
                broadcast use vstd::utf8::decode_utf8_encode_utf8;

                assert(buf@.skip(p2 as int).len() == 0);
            }
            Some(Message::GetData { addr_from, kind, id })
        } else if tag == 5u8 {
            let (addr_from, p1) = match get_str(buf, 1) {
                Some(p) => p,
                None => {
                    return None;
                },
            };
            let (transaction, p2) = match Transaction::decode(buf, p1) {
                Some(p) => p,
                None => {
                    return None;
                },
            };
            if p2 != buf.len() {
                proof {
                    assert(buf@.skip(p2 as int).len() > 0);
                }
                return None;
            }
            proof {
                broadcast use vstd::utf8::decode_utf8_encode_utf8;

                assert(buf@.skip(p2 as int).len() == 0);
            }
            Some(Message::Tx { addr_from, transaction })
        } else if tag == 6u8 {
            let (addr_from, p1) = match get_str(buf, 1) {
                Some(p) => p,
                None => {
                    return None;
                },
            };
            let (version, p2) = match get_i32(buf, p1) {
                Some(p) => p,
                None => {
                    return None;
                },
            };
            let (best_height, p3) = match get_i32(buf, p2) {
                Some(p) => p,
                None => {
                    return None;
                },
            };
            if p3 != buf.len() {
                proof {
                    assert(buf@.skip(p3 as int).len() > 0);
                }
                return None;
            }
            proof {
                broadcast use vstd::utf8::decode_utf8_encode_utf8;

                assert(buf@.skip(p3 as int).len() == 0);
            }
            Some(Message::Version { addr_from, version, best_height })
        } else {
            None
        }
    }
}

pub proof fn lemma_cat_strs_app(a: Seq<Seq<char>>, b: Seq<Seq<char>>)
    ensures
        cat_strs(a + b) == cat_strs(a) + cat_strs(b),
    decreases a.len(),
{
    if a.len() == 0 {
        assert(a + b =~= b);
        assert(cat_strs(a) + cat_strs(b) =~= cat_strs(b));
    } else {
        assert((a + b).drop_first() =~= a.drop_first() + b);
        lemma_cat_strs_app(a.drop_first(), b);
        assert((a + b)[0] == a[0]);
        assert(enc_str(a[0]) + (cat_strs(a.drop_first()) + cat_strs(b)) =~= (enc_str(a[0])
            + cat_strs(a.drop_first())) + cat_strs(b));
    }
}

pub proof fn lemma_cat_byte_strs_app(a: Seq<Seq<u8>>, b: Seq<Seq<u8>>)
    ensures
        cat_byte_strs(a + b) == cat_byte_strs(a) + cat_byte_strs(b),
    decreases a.len(),
{
    if a.len() == 0 {
        assert(a + b =~= b);
        assert(cat_byte_strs(a) + cat_byte_strs(b) =~= cat_byte_strs(b));
    } else {
        assert((a + b).drop_first() =~= a.drop_first() + b);
        lemma_cat_byte_strs_app(a.drop_first(), b);
        assert((a + b)[0] == a[0]);
        assert(enc_bytes(a[0]) + (cat_byte_strs(a.drop_first()) + cat_byte_strs(b)) =~= (enc_bytes(
            a[0],
        ) + cat_byte_strs(a.drop_first())) + cat_byte_strs(b));
    }
}


// ------------------------------------------------------------------
// The mempool: received, not yet mined transactions, keyed by the
// raw transaction hash.
// ------------------------------------------------------------------

/// The map a mempool's entry list stands for: later entries win.
pub open spec fn mempool_map(s: Seq<(Vec<u8>, Transaction)>) -> Map<Seq<u8>, TxView>
    decreases s.len(),
{
    if s.len() == 0 {
        Map::empty()
    } else {
        mempool_map(s.drop_last()).insert(s.last().0@, s.last().1@)
    }
}

pub struct Mempool {
    pub entries: Vec<(Vec<u8>, Transaction)>,
}

impl Mempool {
    /// What the pool holds.
    pub open spec fn view_map(&self) -> Map<Seq<u8>, TxView> {
        mempool_map(self.entries@)
    }

    /// Every held transaction is well formed.
    pub open spec fn wf(&self) -> bool {
        forall|i: int| 0 <= i < self.entries@.len() ==> wf_tx((#[trigger] self.entries@[i]).1@)
    }

    pub fn empty() -> (r: Mempool)
        ensures
            r.view_map() == Map::<Seq<u8>, TxView>::empty(),
            r.wf(),
    {
        Mempool { entries: Vec::new() }
    }

    /// Stores a transaction under its key; re-inserting a key
    /// overwrites, so inserting the same transaction twice leaves the
    /// pool the same (the no-duplication law below).
    pub fn insert(&mut self, key: Vec<u8>, tx: Transaction)
        requires
            wf_tx(tx@),
            old(self).wf(),
        ensures
            final(self).view_map() == old(self).view_map().insert(key@, tx@),
            final(self).wf(),
    {
        self.entries.push((key, tx));
        proof {
            assert(self.entries@.drop_last() =~= old(self).entries@);
        }
    }

    pub fn is_empty(&self) -> (r: bool)
        ensures
            r == (self.entries@.len() == 0),
    {
        self.entries.len() == 0
    }

    pub fn clear(&mut self)
        ensures
            final(self).view_map() == Map::<Seq<u8>, TxView>::empty(),
            final(self).wf(),
    {
        self.entries = Vec::new();
    }

    /// Whether any entry carries the key.
    pub fn contains(&self, key: &[u8]) -> (r: bool)
        ensures
            r == exists|i: int|
                0 <= i < self.entries@.len() && (#[trigger] self.entries@[i]).0@ == key@,
    {
        let mut i: usize = 0;
        while i < self.entries.len()
            invariant
                i <= self.entries@.len(),
                forall|j: int| 0 <= j < i ==> (#[trigger] self.entries@[j]).0@ != key@,
            decreases self.entries@.len() - i,
        {
            if bytes_eq(self.entries[i].0.as_slice(), key) {
                return true;
            }
            i = i + 1;
        }
        false
    }

    /// The transaction stored under a key: the most recent entry,
    /// which is what the pool's map holds.
    pub fn get(&self, key: &[u8]) -> (r: Option<&Transaction>)
        requires
            self.wf(),
        ensures
            r matches Some(tx) ==> wf_tx(tx@) && self.view_map().dom().contains(key@)
                && self.view_map()[key@] == tx@,
            r is None ==> !self.view_map().dom().contains(key@),
    {
        let mut i: usize = self.entries.len();
        while i > 0
            invariant
                i <= self.entries@.len(),
                self.wf(),
                forall|j: int|
                    i <= j < self.entries@.len() ==> (#[trigger] self.entries@[j]).0@ != key@,
            decreases i,
        {
            i = i - 1;
            if bytes_eq(self.entries[i].0.as_slice(), key) {
                proof {
                    lemma_mempool_last_match(self.entries@, key@, i as int);
                }
                return Some(&self.entries[i].1);
            }
        }
        proof {
            lemma_mempool_absent(self.entries@, key@);
        }
        None
    }

    /// Clones of every held transaction.
    pub fn all_txs(&self) -> (r: Vec<Transaction>)
        requires
            self.wf(),
        ensures
            forall|i: int| 0 <= i < r@.len() ==> wf_tx((#[trigger] r@[i])@),
    {
        let mut r: Vec<Transaction> = Vec::new();
        let mut i: usize = 0;
        while i < self.entries.len()
            invariant
                i <= self.entries@.len(),
                self.wf(),
                forall|j: int| 0 <= j < r@.len() ==> wf_tx((#[trigger] r@[j])@),
            decreases self.entries@.len() - i,
        {
            r.push(crate::blockchain::clone_tx(&self.entries[i].1));
            i = i + 1;
        }
        r
    }
}

/// The map holds exactly the value of the latest entry under a key.
pub proof fn lemma_mempool_last_match(s: Seq<(Vec<u8>, Transaction)>, key: Seq<u8>, i: int)
    requires
        0 <= i < s.len(),
        s[i].0@ == key,
        forall|j: int| i < j < s.len() ==> (#[trigger] s[j]).0@ != key,
    ensures
        mempool_map(s).dom().contains(key),
        mempool_map(s)[key] == s[i].1@,
    decreases s.len(),
{
    if i == s.len() - 1 {
    } else {
        assert(s.drop_last()[i] == s[i]);
        lemma_mempool_last_match(s.drop_last(), key, i);
    }
}

/// A key some entry carries is in the map.
pub proof fn lemma_mempool_present(s: Seq<(Vec<u8>, Transaction)>, key: Seq<u8>)
    requires
        exists|i: int| 0 <= i < s.len() && (#[trigger] s[i]).0@ == key,
    ensures
        mempool_map(s).dom().contains(key),
    decreases s.len(),
{
    let i = choose|i: int| 0 <= i < s.len() && (#[trigger] s[i]).0@ == key;
    if i == s.len() - 1 {
    } else {
        assert(s.drop_last()[i] == s[i]);
        lemma_mempool_present(s.drop_last(), key);
    }
}

/// A key no entry carries is not in the map.
pub proof fn lemma_mempool_absent(s: Seq<(Vec<u8>, Transaction)>, key: Seq<u8>)
    requires
        forall|j: int| 0 <= j < s.len() ==> (#[trigger] s[j]).0@ != key,
    ensures
        !mempool_map(s).dom().contains(key),
    decreases s.len(),
{
    if s.len() > 0 {
        assert(forall|j: int|
            0 <= j < s.drop_last().len() ==> (#[trigger] s.drop_last()[j]).0@ != key);
        lemma_mempool_absent(s.drop_last(), key);
    }
}

/// Law: re-inserting the same transaction under the same key is a
/// no-op; the pool holds the same records afterwards.
pub proof fn lemma_mempool_no_dup(m: Map<Seq<u8>, TxView>, key: Seq<u8>, tx: TxView)
    ensures
        m.insert(key, tx).insert(key, tx) == m.insert(key, tx),
{
    assert(m.insert(key, tx).insert(key, tx) =~= m.insert(key, tx));
}

// ------------------------------------------------------------------
// The node: its addresses, peers, transit queue, mempool and store.
// ------------------------------------------------------------------

pub struct Config {
    pub centeral_node: String,
    pub version: i32,
}

impl Default for Config {
    /// The well-known central node and protocol version 1.
    fn default() -> (r: Config)
        ensures
            r.version == 1,
    {
        Config { centeral_node: String::from_str("localhost:3000"), version: 1 }
    }
}

pub struct NodeState {
    pub node_address: String,
    pub mining_address: String,
    pub known_nodes: Vec<String>,
    pub blocks_in_transit: Vec<Vec<u8>>,
    pub mempool: Mempool,
    pub utxo: UTXOSet,
    pub config: Config,
}

impl NodeState {
    /// A node over the given index, knowing only the central node.
    pub fn new(node_address: String, mining_address: String, utxo: UTXOSet, config: Config) -> (r:
        NodeState)
        ensures
            r.mempool.wf(),
            r.mempool.view_map() == Map::<Seq<u8>, TxView>::empty(),
            r.node_address@ == node_address@,
            r.mining_address@ == mining_address@,
            r.utxo == utxo,
            r.config == config,
            r.known_nodes@.len() == 1 && r.known_nodes@[0]@ == config.centeral_node@,
            r.blocks_in_transit@.len() == 0,
    {
        let mut known_nodes: Vec<String> = Vec::new();
        known_nodes.push(config.centeral_node.clone());
        NodeState {
            node_address,
            mining_address,
            known_nodes,
            blocks_in_transit: Vec::new(),
            mempool: Mempool::empty(),
            utxo,
            config,
        }
    }

    pub fn node_is_known(&self, addr: &str) -> (r: bool)
        ensures
            r == exists|i: int|
                0 <= i < self.known_nodes@.len() && (#[trigger] self.known_nodes@[i])@ == addr@,
    {
        let mut i: usize = 0;
        while i < self.known_nodes.len()
            invariant
                i <= self.known_nodes@.len(),
                forall|j: int| 0 <= j < i ==> (#[trigger] self.known_nodes@[j])@ != addr@,
            decreases self.known_nodes@.len() - i,
        {
            if str_eq(self.known_nodes[i].as_str(), addr) {
                return true;
            }
            i = i + 1;
        }
        false
    }

    /// Learns a peer address if it is new.
    pub fn add_node(&mut self, addr: &str)
        ensures
            exists|i: int|
                0 <= i < final(self).known_nodes@.len()
                    && (#[trigger] final(self).known_nodes@[i])@ == addr@,
            final(self).mempool == old(self).mempool,
            final(self).utxo == old(self).utxo,
    {
        if !self.node_is_known(addr) {
            let owned = String::from_str(addr);
            self.known_nodes.push(owned);
            proof {
                assert(self.known_nodes@.last()@ == addr@);
            }
        }
    }

    /// Forgets a peer that could not be reached.
    pub fn remove_node(&mut self, addr: &str)
        ensures
            forall|i: int|
                0 <= i < final(self).known_nodes@.len()
                    ==> (#[trigger] final(self).known_nodes@[i])@ != addr@,
            final(self).mempool == old(self).mempool,
            final(self).utxo == old(self).utxo,
    {
        let mut kept: Vec<String> = Vec::new();
        let mut i: usize = 0;
        while i < self.known_nodes.len()
            invariant
                i <= self.known_nodes@.len(),
                forall|j: int| 0 <= j < kept@.len() ==> (#[trigger] kept@[j])@ != addr@,
            decreases self.known_nodes@.len() - i,
        {
            if !str_eq(self.known_nodes[i].as_str(), addr) {
                kept.push(self.known_nodes[i].clone());
            }
            i = i + 1;
        }
        self.known_nodes = kept;
    }

    /// The hashes of every block, tip first, for inventory replies.
    pub fn get_block_hashes(&self) -> (r: Result<Vec<Vec<u8>>, Error>)
        ensures
            self.utxo.bc.wf() && self.utxo.bc.tip is Some && r is Ok ==> {
                let v = r.unwrap();
                &&& v@.len() == self.utxo.bc.tip_height + 1
                &&& (forall|i: int|
                    0 <= i < v@.len() ==> (#[trigger] v@[i])@ == self.utxo.bc.chain()[i].hash)
            },
    {
        let blocks = self.utxo.bc.blocks()?;
        let mut r: Vec<Vec<u8>> = Vec::new();
        let mut i: usize = 0;
        while i < blocks.len()
            invariant
                i <= blocks@.len(),
                r@.len() == i,
                forall|j: int| 0 <= j < i ==> (#[trigger] r@[j])@ == blocks@[j]@.hash,
            decreases blocks@.len() - i,
        {
            r.push(clone_bytes(&blocks[i].hash));
            i = i + 1;
        }
        Ok(r)
    }

    /// The messages a node sends on startup: with no chain, a block
    /// request to every peer; else its version to the central node.
    pub fn startup_messages(&self) -> (r: Vec<(String, Message)>)
        ensures
            self.utxo.bc.spec_height() == -1 ==> r@.len() == self.known_nodes@.len() && (forall|
                i: int,
            |
                0 <= i < r@.len() ==> (#[trigger] r@[i]).0@ == self.known_nodes@[i]@
                    && (r@[i].1@ matches MsgView::GetBlocks { addr_from } && addr_from
                    == self.node_address@)),
            self.utxo.bc.spec_height() != -1 ==> r@.len() == 1 && r@[0].0@
                == self.config.centeral_node@ && (r@[0].1@ matches MsgView::Version {
                addr_from,
                version,
                best_height,
            } && addr_from == self.node_address@ && version == self.config.version && best_height
                == self.utxo.bc.spec_height()),
    {
        let height = self.utxo.bc.get_best_height();
        let mut out: Vec<(String, Message)> = Vec::new();
        if height == -1i32 {
            let mut i: usize = 0;
            while i < self.known_nodes.len()
                invariant
                    i <= self.known_nodes@.len(),
                    out@.len() == i,
                    forall|q: int|
                        0 <= q < i ==> (#[trigger] out@[q]).0@ == self.known_nodes@[q]@
                            && (out@[q].1@ matches MsgView::GetBlocks { addr_from } && addr_from
                            == self.node_address@),
                decreases self.known_nodes@.len() - i,
            {
                out.push(
                    (
                        self.known_nodes[i].clone(),
                        Message::GetBlocks { addr_from: self.node_address.clone() },
                    ),
                );
                i = i + 1;
            }
        } else {
            out.push(
                (
                    self.config.centeral_node.clone(),
                    Message::Version {
                        addr_from: self.node_address.clone(),
                        version: self.config.version,
                        best_height: height,
                    },
                ),
            );
        }
        out
    }

    /// Handles one received message and returns the messages to send
    /// in response, each with its destination.
    #[verifier::rlimit(100)]
    pub fn handle(&mut self, msg: &Message) -> (r: Result<Vec<(String, Message)>, Error>)
        requires
            wf_message(msg@),
            old(self).mempool.wf(),
        ensures
            final(self).mempool.wf(),
            msg matches Message::Tx { transaction, .. } ==> (((old(self).node_address@ == old(self).config.centeral_node@ || old(self).mining_address@.len() == 0) && r is Ok)
                ==> final(self).mempool.view_map() == old(self).mempool.view_map().insert(
                crate::transaction::tx_hash_of(transaction@),
                transaction@,
            )),
            msg matches Message::Tx { addr_from, transaction } ==> (r matches Ok(out) ==> {
                &&& (old(self).node_address@ == old(self).config.centeral_node@ ==> (forall|q: int|
                    0 <= q < out@.len() ==> ((#[trigger] out@[q]).1@ matches MsgView::Inv {
                        addr_from: a2,
                        kind,
                        items,
                    } && a2 == old(self).node_address@ && kind == InvKind::Tx && items == seq![
                        crate::transaction::tx_hash_of(transaction@),
                    ])) && (forall|p: int|
                    0 <= p < old(self).known_nodes@.len() && (#[trigger] old(self).known_nodes@[p])@ != old(self).node_address@ && old(self).known_nodes@[p]@
                        != addr_from@ ==> exists|q: int|
                        0 <= q < out@.len() && (#[trigger] out@[q]).0@ == old(self).known_nodes@[p]@))
                &&& (old(self).node_address@ != old(self).config.centeral_node@ && old(self).mining_address@.len() > 0 ==> (forall|q: int|
                    0 <= q < out@.len() ==> ((#[trigger] out@[q]).1@ matches MsgView::Inv {
                        addr_from: a2,
                        kind,
                        items,
                    } && a2 == old(self).node_address@ && kind == InvKind::Block)))
                &&& (old(self).node_address@ != old(self).config.centeral_node@ && old(self).mining_address@.len() == 0 ==> out@.len() == 0)
            }),
            msg matches Message::GetBlocks { addr_from } ==> (r matches Ok(out) ==> out@.len() == 1
                && out@[0].0@ == addr_from@ && (out@[0].1@ matches MsgView::Inv {
                addr_from: a2,
                kind,
                items,
            } && a2 == old(self).node_address@ && kind == InvKind::Block && (old(self).utxo.bc.wf() && old(self).utxo.bc.tip is Some ==> items.len() == old(self).utxo.bc.tip_height + 1 && (forall|i: int|
                0 <= i < items.len() ==> #[trigger] items[i] == old(self).utxo.bc.chain()[i].hash))) && *final(self) == *old(self)),
            msg matches Message::Inv { addr_from, kind, items } ==> (r matches Ok(out) ==> {
                &&& (kind == InvKind::Block && items@.len() > 0 ==> out@.len() == 1 && out@[0].0@
                    == addr_from@ && (out@[0].1@ matches MsgView::GetData {
                    addr_from: a2,
                    kind: k2,
                    id,
                } && a2 == old(self).node_address@ && k2 == InvKind::Block && id == items@[0]@)
                    && final(self).blocks_in_transit@.map_values(|v: Vec<u8>| v@) == drop_matching(
                    items@.map_values(|v: Vec<u8>| v@),
                    items@[0]@,
                ) && final(self).mempool == old(self).mempool && final(self).utxo == old(self).utxo)
                &&& (kind == InvKind::Tx && items@.len() > 0 ==> *final(self) == *old(self) && (old(self).mempool.view_map().dom().contains(items@[0]@) ==> out@.len() == 0) && (!old(self).mempool.view_map().dom().contains(items@[0]@) ==> out@.len() == 1 && out@[0].0@
                    == addr_from@ && (out@[0].1@ matches MsgView::GetData {
                    addr_from: a2,
                    kind: k2,
                    id,
                } && a2 == old(self).node_address@ && k2 == InvKind::Tx && id == items@[0]@)))
                &&& (items@.len() == 0 ==> out@.len() == 0 && *final(self) == *old(self))
            }),
            msg matches Message::Block { addr_from, block } ==> (r matches Ok(out) ==> {
                &&& crate::block::block_pow_ok(block@)
                &&& final(self).utxo.bc.store().dom().contains(block@.hash)
                &&& (old(self).blocks_in_transit@.len() > 0 ==> out@.len() == 1 && out@[0].0@
                    == addr_from@ && (out@[0].1@ matches MsgView::GetData {
                    addr_from: a2,
                    kind: k2,
                    id,
                } && a2 == old(self).node_address@ && k2 == InvKind::Block && id == old(self).blocks_in_transit@[0]@) && final(self).blocks_in_transit@.map_values(
                    |v: Vec<u8>| v@,
                ) == old(self).blocks_in_transit@.map_values(|v: Vec<u8>| v@).drop_first())
                &&& (old(self).blocks_in_transit@.len() == 0 ==> out@.len() == 0 && final(self).blocks_in_transit@.len() == 0)
                &&& final(self).mempool == old(self).mempool
            }),
            msg matches Message::GetData { addr_from, kind, id } ==> (r matches Ok(out) ==> {
                &&& *final(self) == *old(self)
                &&& (kind == InvKind::Block ==> out@.len() == 1 && out@[0].0@ == addr_from@ && (
                out@[0].1@ matches MsgView::Block { addr_from: a2, block } && a2 == old(self).node_address@ && old(self).utxo.bc.store().dom().contains(id@)
                    && crate::blockchain::parse_block(old(self).utxo.bc.store()[id@]) == Some(
                    block,
                )))
                &&& (kind == InvKind::Tx ==> ((old(self).mempool.view_map().dom().contains(id@)
                    ==> out@.len() == 1 && out@[0].0@ == addr_from@ && (out@[0].1@ matches
                    MsgView::Tx { addr_from: a2, transaction } && a2 == old(self).node_address@
                    && transaction == old(self).mempool.view_map()[id@])) && (!old(self).mempool.view_map().dom().contains(id@) ==> out@.len() == 0)))
            }),
            msg matches Message::Version { addr_from, version, best_height } ==> (r matches Ok(out)
                ==> {
                &&& out@.len() >= 1
                &&& out@[out@.len() - 1].0@ == addr_from@
                &&& (out@[out@.len() - 1].1@ matches MsgView::Addr { nodes } && nodes == old(self).known_nodes@.map_values(|x: String| x@))
                &&& (old(self).utxo.bc.spec_height() < *best_height ==> out@.len() == 2
                    && out@[0].0@ == addr_from@ && (out@[0].1@ matches MsgView::GetBlocks {
                    addr_from: a2,
                } && a2 == old(self).node_address@))
                &&& (old(self).utxo.bc.spec_height() > *best_height ==> out@.len() == 2
                    && out@[0].0@ == addr_from@ && (out@[0].1@ matches MsgView::Version {
                    addr_from: a2,
                    version: v2,
                    best_height: h2,
                } && a2 == old(self).node_address@ && v2 == old(self).config.version && h2 == old(self).utxo.bc.spec_height()))
                &&& (old(self).utxo.bc.spec_height() == *best_height ==> out@.len() == 1)
                &&& (exists|i: int|
                    0 <= i < final(self).known_nodes@.len() && (#[trigger] final(self).known_nodes@[i])@ == addr_from@)
                &&& final(self).mempool == old(self).mempool
            }),
            msg matches Message::Addr { nodes } ==> (r matches Ok(out) ==> out@.len() == 0 && final(self).mempool == old(self).mempool),
    {
        let mut out: Vec<(String, Message)> = Vec::new();
        match msg {
            Message::Addr { nodes } => {
                let mut i: usize = 0;
                while i < nodes.len()
                    invariant
                        i <= nodes@.len(),
                        self.mempool == old(self).mempool,
                        self.mempool.wf(),
                        out@.len() == 0,
                    decreases nodes@.len() - i,
                {
                    self.add_node(nodes[i].as_str());
                    i = i + 1;
                }
                Ok(out)
            },
            Message::Block { addr_from, block } => {
                match self.utxo.bc.add_block(block) {
                    Ok(()) => {},
                    Err(e) => {
                        return Err(e);
                    },
                }
                if self.blocks_in_transit.len() > 0 {
                    let ghost tv = old(self).blocks_in_transit@.map_values(|v: Vec<u8>| v@);
                    let next = clone_bytes(&self.blocks_in_transit[0]);
                    let mut rest: Vec<Vec<u8>> = Vec::new();
                    let mut i: usize = 1;
                    while i < self.blocks_in_transit.len()
                        invariant
                            1 <= i <= self.blocks_in_transit@.len(),
                            tv == self.blocks_in_transit@.map_values(|v: Vec<u8>| v@),
                            self.mempool.wf(),
                            rest@.len() == i - 1,
                            forall|q: int| 0 <= q < i - 1 ==> (#[trigger] rest@[q])@ == tv[q + 1],
                        decreases self.blocks_in_transit@.len() - i,
                    {
                        rest.push(clone_bytes(&self.blocks_in_transit[i]));
                        i = i + 1;
                    }
                    proof {
                        assert(rest@.map_values(|v: Vec<u8>| v@) =~= tv.drop_first());
                    }
                    self.blocks_in_transit = rest;
                    out.push(
                        (
                            String::from_str(addr_from.as_str()),
                            Message::GetData {
                                addr_from: self.node_address.clone(),
                                kind: InvKind::Block,
                                id: next,
                            },
                        ),
                    );
                } else {
                    match self.utxo.reindex() {
                        Ok(()) => {},
                        Err(e) => {
                            return Err(e);
                        },
                    }
                }
                Ok(out)
            },
            Message::Inv { addr_from, kind, items } => {
                match kind {
                    InvKind::Block => {
                        if items.len() > 0 {
                            let ghost iv = items@.map_values(|v: Vec<u8>| v@);
                            let first = clone_bytes(&items[0]);
                            let mut rest: Vec<Vec<u8>> = Vec::new();
                            let mut i: usize = 0;
                            while i < items.len()
                                invariant
                                    i <= items@.len(),
                                    iv == items@.map_values(|v: Vec<u8>| v@),
                                    iv.len() > 0,
                                    first@ == iv[0],
                                    self.mempool.wf(),
                                    rest@.map_values(|v: Vec<u8>| v@) == drop_matching(
                                        iv.take(i as int),
                                        iv[0],
                                    ),
                                decreases items@.len() - i,
                            {
                                let ghost rv = rest@.map_values(|v: Vec<u8>| v@);
                                if !bytes_eq(items[i].as_slice(), first.as_slice()) {
                                    rest.push(clone_bytes(&items[i]));
                                    proof {
                                        assert(rest@.map_values(|v: Vec<u8>| v@) =~= rv.push(
                                            iv[i as int],
                                        ));
                                    }
                                }
                                i = i + 1;
                                proof {
                                    assert(iv.take(i as int) =~= iv.take(i - 1) + seq![iv[i - 1]]);
                                    lemma_drop_matching_app(iv.take(i - 1), seq![iv[i - 1]], iv[0]);
                                    assert(seq![iv[i - 1]].drop_first()
                                        =~= Seq::<Seq<u8>>::empty());
                                    assert(drop_matching(Seq::<Seq<u8>>::empty(), iv[0])
                                        =~= Seq::<u8>::empty().map_values(|v: u8| seq![v]).take(0));
                                    assert(drop_matching(Seq::<Seq<u8>>::empty(), iv[0]).len()
                                        == 0);
                                    if iv[i - 1] == iv[0] {
                                        assert(drop_matching(seq![iv[i - 1]], iv[0])
                                            =~= Seq::<Seq<u8>>::empty());
                                    } else {
                                        assert(drop_matching(seq![iv[i - 1]], iv[0]) =~= seq![iv[i
                                            - 1]]);
                                    }
                                    assert(rest@.map_values(|v: Vec<u8>| v@) =~= drop_matching(
                                        iv.take(i as int),
                                        iv[0],
                                    ));
                                }
                            }
                            proof {
                                assert(iv.take(iv.len() as int) =~= iv);
                            }
                            self.blocks_in_transit = rest;
                            out.push(
                                (
                                    String::from_str(addr_from.as_str()),
                                    Message::GetData {
                                        addr_from: self.node_address.clone(),
                                        kind: InvKind::Block,
                                        id: first,
                                    },
                                ),
                            );
                        }
                    },
                    InvKind::Tx => {
                        if items.len() > 0 {
                            let txid = clone_bytes(&items[0]);
                            let already = self.mempool.contains(txid.as_slice());
                            proof {
                                if already {
                                    lemma_mempool_present(self.mempool.entries@, txid@);
                                } else {
                                    lemma_mempool_absent(self.mempool.entries@, txid@);
                                }
                            }
                            if !already {
                                out.push(
                                    (
                                        String::from_str(addr_from.as_str()),
                                        Message::GetData {
                                            addr_from: self.node_address.clone(),
                                            kind: InvKind::Tx,
                                            id: txid,
                                        },
                                    ),
                                );
                            }
                        }
                    },
                }
                Ok(out)
            },
            Message::GetBlocks { addr_from } => {
                let hashes = match self.get_block_hashes() {
                    Ok(h) => h,
                    Err(e) => {
                        return Err(e);
                    },
                };
                out.push(
                    (
                        String::from_str(addr_from.as_str()),
                        Message::Inv {
                            addr_from: self.node_address.clone(),
                            kind: InvKind::Block,
                            items: hashes,
                        },
                    ),
                );
                Ok(out)
            },
            Message::GetData { addr_from, kind, id } => {
                match kind {
                    InvKind::Block => {
                        let block = match self.utxo.bc.get_block(id.as_slice()) {
                            Ok(b) => b,
                            Err(e) => {
                                return Err(e);
                            },
                        };
                        out.push(
                            (
                                String::from_str(addr_from.as_str()),
                                Message::Block { addr_from: self.node_address.clone(), block },
                            ),
                        );
                    },
                    InvKind::Tx => {
                        let found = match self.mempool.get(id.as_slice()) {
                            Some(tx) => Some(crate::blockchain::clone_tx(tx)),
                            None => None,
                        };
                        match found {
                            Some(tx) => {
                                out.push(
                                    (
                                        String::from_str(addr_from.as_str()),
                                        Message::Tx {
                                            addr_from: self.node_address.clone(),
                                            transaction: tx,
                                        },
                                    ),
                                );
                            },
                            None => {},
                        }
                    },
                }
                Ok(out)
            },
            Message::Tx { addr_from, transaction } => {
                let tx = crate::blockchain::clone_tx(transaction);
                let key = tx.hash();
                self.mempool.insert(key, tx);
                if str_eq(self.node_address.as_str(), self.config.centeral_node.as_str()) {
                    let relay = crate::blockchain::clone_tx(transaction);
                    let relay_hash = relay.hash();
                    proof {
                        assert(relay_hash@ == crate::transaction::tx_hash_of(transaction@));
                    }
                    let mut i: usize = 0;
                    while i < self.known_nodes.len()
                        invariant
                            i <= self.known_nodes@.len(),
                            self.mempool.wf(),
                            relay_hash@ == crate::transaction::tx_hash_of(transaction@),
                            self.node_address@ == old(self).node_address@,
                            self.known_nodes@ == old(self).known_nodes@,
                            forall|q: int|
                                0 <= q < out@.len() ==> ((#[trigger] out@[q]).1@ matches
                                    MsgView::Inv { addr_from: a2, kind, items } && a2
                                    == old(self).node_address@ && kind == InvKind::Tx && items
                                    == seq![crate::transaction::tx_hash_of(transaction@)]),
                            forall|p: int|
                                0 <= p < i && (#[trigger] self.known_nodes@[p])@ != old(self).node_address@ && self.known_nodes@[p]@ != addr_from@
                                    ==> exists|q: int|
                                    0 <= q < out@.len() && (#[trigger] out@[q]).0@
                                        == self.known_nodes@[p]@,
                        decreases self.known_nodes@.len() - i,
                    {
                        let node = &self.known_nodes[i];
                        if !str_eq(node.as_str(), self.node_address.as_str()) && !str_eq(
                            node.as_str(),
                            addr_from.as_str(),
                        ) {
                            let mut items: Vec<Vec<u8>> = Vec::new();
                            items.push(clone_bytes(&relay_hash));
                            proof {
                                assert(items@.map_values(|v: Vec<u8>| v@) =~= seq![
                                    crate::transaction::tx_hash_of(transaction@),
                                ]);
                            }
                            let ghost out0 = out@;
                            let ghost outlen = out@.len();
                            out.push(
                                (
                                    node.clone(),
                                    Message::Inv {
                                        addr_from: self.node_address.clone(),
                                        kind: InvKind::Tx,
                                        items,
                                    },
                                ),
                            );
                            proof {
                                assert(out@[outlen as int].0@ == self.known_nodes@[i as int]@);
                                assert forall|p: int|
                                    0 <= p < i + 1 && (#[trigger] self.known_nodes@[p])@ != old(
                                        self,
                                    ).node_address@ && self.known_nodes@[p]@ != addr_from@ implies
                                    exists|q: int|
                                        0 <= q < out@.len() && (#[trigger] out@[q]).0@
                                            == self.known_nodes@[p]@ by {
                                    if p < i {
                                        let q = choose|q: int|
                                            0 <= q < out0.len() && (#[trigger] out0[q]).0@
                                                == self.known_nodes@[p]@;
                                        assert(out@[q] == out0[q]);
                                    } else {
                                        assert(out@[outlen as int].0@
                                            == self.known_nodes@[p]@);
                                    }
                                }
                            }
                        }
                        i = i + 1;
                    }
                    Ok(out)
                } else if self.mining_address.as_str().is_empty() {
                    Ok(out)
                } else {
                    self.mine_pending(&mut out)?;
                    Ok(out)
                }
            },
            Message::Version { addr_from, version, best_height } => {
                let my_best_height = self.utxo.bc.get_best_height();
                if my_best_height < *best_height {
                    out.push(
                        (
                            String::from_str(addr_from.as_str()),
                            Message::GetBlocks { addr_from: self.node_address.clone() },
                        ),
                    );
                } else if my_best_height > *best_height {
                    out.push(
                        (
                            String::from_str(addr_from.as_str()),
                            Message::Version {
                                addr_from: self.node_address.clone(),
                                version: self.config.version,
                                best_height: my_best_height,
                            },
                        ),
                    );
                }
                let mut nodes: Vec<String> = Vec::new();
                let mut i: usize = 0;
                while i < self.known_nodes.len()
                    invariant
                        i <= self.known_nodes@.len(),
                        self.mempool.wf(),
                        nodes@.len() == i,
                        forall|j: int|
                            0 <= j < i ==> (#[trigger] nodes@[j])@ == self.known_nodes@[j]@,
                    decreases self.known_nodes@.len() - i,
                {
                    nodes.push(self.known_nodes[i].clone());
                    i = i + 1;
                }
                proof {
                    assert(nodes@.map_values(|x: String| x@) =~= self.known_nodes@.map_values(
                        |x: String| x@,
                    ));
                }
                out.push((String::from_str(addr_from.as_str()), Message::Addr { nodes }));
                self.add_node(addr_from.as_str());
                Ok(out)
            },
        }
    }

    /// Mines blocks out of the mempool until no verifiable
    /// transaction remains, announcing each new block to every peer.
    fn mine_pending(&mut self, out: &mut Vec<(String, Message)>) -> (r: Result<(), Error>)
        requires
            old(self).mempool.wf(),
        ensures
            final(self).mempool.wf(),
            final(out)@.len() >= old(out)@.len(),
            forall|q: int|
                old(out)@.len() <= q < final(out)@.len() ==> ((#[trigger] final(out)@[q]).1@
                    matches MsgView::Inv { addr_from, kind, items } && addr_from
                    == old(self).node_address@ && kind == InvKind::Block),
    {
        let mut pool = self.mempool.all_txs();
        loop
            invariant
                self.mempool.wf(),
                self.node_address@ == old(self).node_address@,
                out@.len() >= old(out)@.len(),
                forall|q: int|
                    old(out)@.len() <= q < out@.len() ==> ((#[trigger] out@[q]).1@ matches
                        MsgView::Inv { addr_from, kind, items } && addr_from
                        == old(self).node_address@ && kind == InvKind::Block),
                forall|j: int| 0 <= j < pool@.len() ==> wf_tx((#[trigger] pool@[j])@),
            decreases pool@.len(),
        {
            let mut txs: Vec<Transaction> = Vec::new();
            let mut remainder: Vec<Transaction> = Vec::new();
            let mut i: usize = 0;
            while i < pool.len()
                invariant
                    i <= pool@.len(),
                    self.mempool.wf(),
                    self.node_address@ == old(self).node_address@,
                    out@.len() >= old(out)@.len(),
                    forall|q: int|
                        old(out)@.len() <= q < out@.len() ==> ((#[trigger] out@[q]).1@ matches
                            MsgView::Inv { addr_from, kind, items } && addr_from
                            == old(self).node_address@ && kind == InvKind::Block),
                    forall|j: int| 0 <= j < pool@.len() ==> wf_tx((#[trigger] pool@[j])@),
                    forall|j: int| 0 <= j < txs@.len() ==> wf_tx((#[trigger] txs@[j])@),
                    forall|j: int| 0 <= j < remainder@.len() ==> wf_tx((#[trigger] remainder@[j])@),
                    txs@.len() + remainder@.len() == i,
                decreases pool@.len() - i,
            {
                let ok = match self.utxo.bc.verify_transaction(&pool[i]) {
                    Ok(b) => b,
                    Err(_) => false,
                };
                if ok {
                    txs.push(crate::blockchain::clone_tx(&pool[i]));
                } else {
                    remainder.push(crate::blockchain::clone_tx(&pool[i]));
                }
                i = i + 1;
            }
            if txs.len() == 0 {
                // unverifiable transactions stay in the pool
                return Ok(());
            }
            let cbtx = match Transaction::new_coinbase(self.mining_address.as_str(), String::new())
                {
                Ok(t) => t,
                Err(e) => {
                    return Err(e);
                },
            };
            txs.push(cbtx);
            if txs.len() >= 0x7FFF0000usize {
                return Err(Error::Serialization);
            }
            let new_block = match self.utxo.bc.mine_block(txs) {
                Ok(b) => b,
                Err(e) => {
                    return Err(e);
                },
            };
            match self.utxo.reindex() {
                Ok(()) => {},
                Err(e) => {
                    return Err(e);
                },
            }
            let mut k: usize = 0;
            while k < self.known_nodes.len()
                invariant
                    k <= self.known_nodes@.len(),
                    self.mempool.wf(),
                    self.node_address@ == old(self).node_address@,
                    out@.len() >= old(out)@.len(),
                    forall|q: int|
                        old(out)@.len() <= q < out@.len() ==> ((#[trigger] out@[q]).1@ matches
                            MsgView::Inv { addr_from, kind, items } && addr_from
                            == old(self).node_address@ && kind == InvKind::Block),
                decreases self.known_nodes@.len() - k,
            {
                let node = &self.known_nodes[k];
                if !str_eq(node.as_str(), self.node_address.as_str()) {
                    let mut items: Vec<Vec<u8>> = Vec::new();
                    items.push(clone_bytes(&new_block.hash));
                    out.push(
                        (
                            node.clone(),
                            Message::Inv {
                                addr_from: self.node_address.clone(),
                                kind: InvKind::Block,
                                items,
                            },
                        ),
                    );
                }
                k = k + 1;
            }
            proof {
                assert(remainder@.len() < pool@.len());
            }
            pool = remainder;
            if pool.len() == 0 {
                self.mempool.clear();
                return Ok(());
            }
        }
    }
}

} // verus!
