use vstd::prelude::*;

verus! {

// ------------------------------------------------------------------
// Deterministic binary encoding.
//
// Every value the library stores on disk or sends on the wire is
// encoded by the functions of this module.  The encoding is fixed:
// integers become big-endian bytes, byte strings and character
// strings carry a 4-byte length prefix, and lists carry a 4-byte
// count prefix.  The spec functions below define the encoding; the
// exec functions produce and consume it and are proved against the
// spec functions.
// ------------------------------------------------------------------

/// Big-endian 4-byte encoding of a 32-bit value.
pub open spec fn enc_u32(v: u32) -> Seq<u8> {
    seq![
        (v / 0x1000000) as u8,
        ((v / 0x10000) % 0x100) as u8,
        ((v / 0x100) % 0x100) as u8,
        (v % 0x100) as u8,
    ]
}

/// The value read back from the first four bytes of `b`.
pub open spec fn dec_u32_val(b: Seq<u8>) -> u32 {
    ((b[0] as int) * 0x1000000 + (b[1] as int) * 0x10000 + (b[2] as int) * 0x100 + (
    b[3] as int)) as u32
}

pub proof fn lemma_enc_u32_bytes(v: u32)
    ensures
        dec_u32_val(enc_u32(v)) == v,
{
    assert((v / 0x1000000) * 0x1000000 + ((v / 0x10000) % 0x100) * 0x10000 + ((v / 0x100)
        % 0x100) * 0x100 + (v % 0x100) == v) by (nonlinear_arith);
}

/// Big-endian 8-byte encoding of a 64-bit value, as two 32-bit halves.
pub open spec fn enc_u64(v: u64) -> Seq<u8> {
    enc_u32((v / 0x100000000) as u32) + enc_u32((v % 0x100000000) as u32)
}

/// A signed 32-bit value is shifted into the unsigned range before encoding,
/// so that ordering-free byte comparison still works and negative values
/// (the coinbase `v_out` of -1) round-trip exactly.
pub open spec fn enc_i32(v: i32) -> Seq<u8> {
    enc_u32((v + 0x80000000int) as u32)
}

/// A byte string: 4-byte length prefix, then the bytes themselves.
pub open spec fn enc_bytes(b: Seq<u8>) -> Seq<u8> {
    enc_u32(b.len() as u32) + b
}

/// A character string: its UTF-8 bytes as a length-prefixed byte string.
pub open spec fn enc_str(s: Seq<char>) -> Seq<u8> {
    enc_bytes(vstd::utf8::encode_utf8(s))
}

// ------------------------------------------------------------------
// Spec-level parsers.  Each takes the remaining input and returns the
// parsed value together with the bytes it did not consume, or `None`
// when the input is not a valid encoding.
// ------------------------------------------------------------------

pub open spec fn sdec_u32(b: Seq<u8>) -> Option<(u32, Seq<u8>)> {
    if b.len() >= 4 {
        Some((dec_u32_val(b), b.skip(4)))
    } else {
        None
    }
}

pub open spec fn sdec_u64(b: Seq<u8>) -> Option<(u64, Seq<u8>)> {
    match sdec_u32(b) {
        Some((hi, rest1)) => match sdec_u32(rest1) {
            Some((lo, rest2)) => Some((((hi as int) * 0x100000000 + lo as int) as u64, rest2)),
            None => None,
        },
        None => None,
    }
}

pub open spec fn sdec_i32(b: Seq<u8>) -> Option<(i32, Seq<u8>)> {
    match sdec_u32(b) {
        Some((u, rest)) => Some(((u - 0x80000000int) as i32, rest)),
        None => None,
    }
}

pub open spec fn sdec_bytes(b: Seq<u8>) -> Option<(Seq<u8>, Seq<u8>)> {
    match sdec_u32(b) {
        Some((n, rest)) => if rest.len() >= n {
            Some((rest.take(n as int), rest.skip(n as int)))
        } else {
            None
        },
        None => None,
    }
}

pub open spec fn sdec_str(b: Seq<u8>) -> Option<(Seq<char>, Seq<u8>)> {
    match sdec_bytes(b) {
        Some((raw, rest)) => if vstd::utf8::valid_utf8(raw) {
            Some((vstd::utf8::decode_utf8(raw), rest))
        } else {
            None
        },
        None => None,
    }
}

// ------------------------------------------------------------------
// Round-trip lemmas: parsing an encoding followed by anything else
// yields exactly the encoded value and the trailing bytes.
// ------------------------------------------------------------------

pub proof fn lemma_rt_u32(v: u32, rest: Seq<u8>)
    ensures
        sdec_u32(enc_u32(v) + rest) == Some((v, rest)),
{
    let b = enc_u32(v) + rest;
    assert(b[0] == enc_u32(v)[0] && b[1] == enc_u32(v)[1] && b[2] == enc_u32(v)[2] && b[3]
        == enc_u32(v)[3]);
    lemma_enc_u32_bytes(v);
    assert(dec_u32_val(b) == dec_u32_val(enc_u32(v)));
    assert(b.skip(4) =~= rest);
}

pub proof fn lemma_rt_u64(v: u64, rest: Seq<u8>)
    ensures
        sdec_u64(enc_u64(v) + rest) == Some((v, rest)),
{
    let hi = (v / 0x100000000) as u32;
    let lo = (v % 0x100000000) as u32;
    assert(enc_u64(v) + rest =~= enc_u32(hi) + (enc_u32(lo) + rest));
    lemma_rt_u32(hi, enc_u32(lo) + rest);
    lemma_rt_u32(lo, rest);
    assert((hi as int) * 0x100000000 + lo as int == v as int) by (nonlinear_arith)
        requires
            hi == (v / 0x100000000) as u32,
            lo == (v % 0x100000000) as u32,
    ;
}

pub proof fn lemma_rt_i32(v: i32, rest: Seq<u8>)
    ensures
        sdec_i32(enc_i32(v) + rest) == Some((v, rest)),
{
    lemma_rt_u32((v + 0x80000000int) as u32, rest);
}

pub proof fn lemma_rt_bytes(data: Seq<u8>, rest: Seq<u8>)
    requires
        data.len() < 0x100000000,
    ensures
        sdec_bytes(enc_bytes(data) + rest) == Some((data, rest)),
{
    let n = data.len() as u32;
    assert(enc_bytes(data) + rest =~= enc_u32(n) + (data + rest));
    lemma_rt_u32(n, data + rest);
    assert((data + rest).take(n as int) =~= data);
    assert((data + rest).skip(n as int) =~= rest);
}

pub proof fn lemma_rt_str(s: Seq<char>, rest: Seq<u8>)
    requires
        vstd::utf8::encode_utf8(s).len() < 0x100000000,
    ensures
        sdec_str(enc_str(s) + rest) == Some((s, rest)),
{
    let raw = vstd::utf8::encode_utf8(s);
    lemma_rt_bytes(raw, rest);
    broadcast use vstd::utf8::encode_utf8_valid_utf8;
    broadcast use vstd::utf8::encode_utf8_decode_utf8;

    assert(vstd::utf8::decode_utf8(raw) == s);
}

/// The first four bytes of any input re-encode the value they decode
/// to: the 4-byte encoding is canonical.
pub proof fn lemma_canon_u32(b: Seq<u8>)
    requires
        b.len() >= 4,
    ensures
        enc_u32(dec_u32_val(b)) == b.take(4),
{
    let v = dec_u32_val(b);
    assert((b[0] as int) * 0x1000000 + (b[1] as int) * 0x10000 + (b[2] as int) * 0x100 + (
    b[3] as int) < 0x100000000);
    assert(v as int == (b[0] as int) * 0x1000000 + (b[1] as int) * 0x10000 + (b[2] as int) * 0x100
        + (b[3] as int));
    assert(v / 0x1000000 == b[0] as u32 && (v / 0x10000) % 0x100 == b[1] as u32 && (v / 0x100)
        % 0x100 == b[2] as u32 && v % 0x100 == b[3] as u32) by (nonlinear_arith)
        requires
            v as int == (b[0] as int) * 0x1000000 + (b[1] as int) * 0x10000 + (b[2] as int) * 0x100
                + (b[3] as int),
            b[0] < 256 && b[1] < 256 && b[2] < 256 && b[3] < 256,
    ;
    assert(enc_u32(v) =~= b.take(4));
}

/// A parsed byte string splits the input exactly into its own
/// encoding and the rest.
pub proof fn lemma_canon_bytes(b: Seq<u8>)
    requires
        sdec_bytes(b) is Some,
    ensures
        b == enc_bytes(sdec_bytes(b).unwrap().0) + sdec_bytes(b).unwrap().1,
        sdec_bytes(b).unwrap().0.len() < 0x100000000,
{
    let n = dec_u32_val(b);
    lemma_canon_u32(b);
    let rest = b.skip(4);
    assert(b =~= b.take(4) + rest);
    assert(rest =~= rest.take(n as int) + rest.skip(n as int));
    assert(b =~= enc_bytes(rest.take(n as int)) + rest.skip(n as int));
}

// ------------------------------------------------------------------
// Exec encoders.  Each appends the encoding of one value to `out`.
// ------------------------------------------------------------------

pub fn push_bytes(out: &mut Vec<u8>, b: &[u8])
    ensures
        final(out)@ == old(out)@ + b@,
{
    let mut i: usize = 0;
    while i < b.len()
        invariant
            i <= b@.len(),
            out@ == old(out)@ + b@.take(i as int),
        decreases b@.len() - i,
    {
        out.push(b[i]);
        i = i + 1;
        assert(old(out)@ + b@.take(i - 1) + seq![b@[i - 1]] =~= old(out)@ + b@.take(i as int));
    }
    assert(b@.take(b@.len() as int) =~= b@);
}

pub fn put_u32(out: &mut Vec<u8>, v: u32)
    ensures
        final(out)@ == old(out)@ + enc_u32(v),
{
    out.push((v / 0x1000000) as u8);
    out.push(((v / 0x10000) % 0x100) as u8);
    out.push(((v / 0x100) % 0x100) as u8);
    out.push((v % 0x100) as u8);
    assert(out@ =~= old(out)@ + enc_u32(v));
}

pub fn put_u64(out: &mut Vec<u8>, v: u64)
    ensures
        final(out)@ == old(out)@ + enc_u64(v),
{
    put_u32(out, (v / 0x100000000) as u32);
    put_u32(out, (v % 0x100000000) as u32);
    assert(out@ =~= old(out)@ + enc_u64(v));
}

pub fn put_i32(out: &mut Vec<u8>, v: i32)
    ensures
        final(out)@ == old(out)@ + enc_i32(v),
{
    let shifted: i64 = (v as i64) + 0x80000000i64;
    put_u32(out, shifted as u32);
}

pub fn put_byte_string(out: &mut Vec<u8>, b: &[u8])
    requires
        b@.len() < 0x100000000,
    ensures
        final(out)@ == old(out)@ + enc_bytes(b@),
{
    put_u32(out, b.len() as u32);
    push_bytes(out, b);
    assert(out@ =~= old(out)@ + enc_bytes(b@));
}

pub fn put_str(out: &mut Vec<u8>, s: &str)
    requires
        vstd::utf8::encode_utf8(s@).len() < 0x100000000,
    ensures
        final(out)@ == old(out)@ + enc_str(s@),
{
    put_byte_string(out, s.as_bytes());
}

// ------------------------------------------------------------------
// Exec decoders.  Each reads one value at position `pos` of `buf` and
// returns it with the next position, mirroring the spec parser on the
// remaining input.
// ------------------------------------------------------------------

pub fn get_u32(buf: &Vec<u8>, pos: usize) -> (r: Option<(u32, usize)>)
    requires
        pos <= buf@.len(),
    ensures
        match r {
            Some(p) => pos <= p.1 <= buf@.len() && sdec_u32(buf@.skip(pos as int)) == Some(
                (p.0, buf@.skip(p.1 as int)),
            ),
            None => sdec_u32(buf@.skip(pos as int)) is None,
        },
{
    if buf.len() - pos >= 4 {
        let b0 = buf[pos];
        let b1 = buf[pos + 1];
        let b2 = buf[pos + 2];
        let b3 = buf[pos + 3];
        let v: u32 = (b0 as u32) * 0x1000000 + (b1 as u32) * 0x10000 + (b2 as u32) * 0x100 + (
        b3 as u32);
        assert(buf@.skip(pos as int).skip(4) =~= buf@.skip(pos + 4));
        Some((v, pos + 4))
    } else {
        None
    }
}

pub fn get_u64(buf: &Vec<u8>, pos: usize) -> (r: Option<(u64, usize)>)
    requires
        pos <= buf@.len(),
    ensures
        match r {
            Some(p) => pos <= p.1 <= buf@.len() && sdec_u64(buf@.skip(pos as int)) == Some(
                (p.0, buf@.skip(p.1 as int)),
            ),
            None => sdec_u64(buf@.skip(pos as int)) is None,
        },
{
    match get_u32(buf, pos) {
        Some((hi, pos1)) => match get_u32(buf, pos1) {
            Some((lo, pos2)) => {
                let v: u64 = (hi as u64) * 0x100000000 + (lo as u64);
                Some((v, pos2))
            },
            None => None,
        },
        None => None,
    }
}

pub fn get_i32(buf: &Vec<u8>, pos: usize) -> (r: Option<(i32, usize)>)
    requires
        pos <= buf@.len(),
    ensures
        match r {
            Some(p) => pos <= p.1 <= buf@.len() && sdec_i32(buf@.skip(pos as int)) == Some(
                (p.0, buf@.skip(p.1 as int)),
            ),
            None => sdec_i32(buf@.skip(pos as int)) is None,
        },
{
    match get_u32(buf, pos) {
        Some((u, pos1)) => {
            let v: i64 = (u as i64) - 0x80000000i64;
            Some((v as i32, pos1))
        },
        None => None,
    }
}

pub fn get_byte_string(buf: &Vec<u8>, pos: usize) -> (r: Option<(Vec<u8>, usize)>)
    requires
        pos <= buf@.len(),
    ensures
        match r {
            Some(p) => pos <= p.1 <= buf@.len() && sdec_bytes(buf@.skip(pos as int)) == Some(
                (p.0@, buf@.skip(p.1 as int)),
            ),
            None => sdec_bytes(buf@.skip(pos as int)) is None,
        },
{
    match get_u32(buf, pos) {
        Some((n, pos1)) => {
            let n_us = n as usize;
            if buf.len() - pos1 >= n_us {
                let end: usize = pos1 + n_us;
                let mut data: Vec<u8> = Vec::new();
                let mut j: usize = pos1;
                while j < end
                    invariant
                        pos1 <= j <= end,
                        end <= buf@.len(),
                        data@ == buf@.subrange(pos1 as int, j as int),
                    decreases end - j,
                {
                    data.push(buf[j]);
                    j = j + 1;
                    assert(buf@.subrange(pos1 as int, j - 1).push(buf@[j - 1]) =~= buf@.subrange(
                        pos1 as int,
                        j as int,
                    ));
                }
                assert(data@ =~= buf@.skip(pos1 as int).take(n as int));
                assert(buf@.skip(pos1 as int).skip(n as int) =~= buf@.skip(end as int));
                Some((data, end))
            } else {
                None
            }
        },
        None => None,
    }
}

/// Relies on `String::from_utf8`: it succeeds exactly on valid UTF-8
/// input and the returned string holds exactly the given bytes.
#[verifier::external_body]
pub fn bytes_to_string(v: Vec<u8>) -> (r: Option<String>)
    ensures
        r is Some <==> vstd::utf8::valid_utf8(v@),
        r matches Some(s) ==> vstd::utf8::encode_utf8(s@) == v@,
{
    String::from_utf8(v).ok()
}

pub fn get_str(buf: &Vec<u8>, pos: usize) -> (r: Option<(String, usize)>)
    requires
        pos <= buf@.len(),
    ensures
        match r {
            Some(p) => pos <= p.1 <= buf@.len() && sdec_str(buf@.skip(pos as int)) == Some(
                (p.0@, buf@.skip(p.1 as int)),
            ),
            None => sdec_str(buf@.skip(pos as int)) is None,
        },
{
    match get_byte_string(buf, pos) {
        Some((raw, pos1)) => {
            let ghost raw_bytes = raw@;
            match bytes_to_string(raw) {
                Some(s) => {
                    proof {
                        broadcast use vstd::utf8::encode_utf8_decode_utf8;

                        assert(vstd::utf8::decode_utf8(raw_bytes) == s@);
                    }
                    Some((s, pos1))
                },
                None => None,
            }
        },
        None => None,
    }
}

} // verus!
