//! The binary form of messages on the wire.
//!
//! Integers are little-endian; a variant tag is a `u32`, a sequence number
//! or time a `u64`; a string is its UTF-8 length as a `u64` followed by its
//! bytes. A sealed envelope is its 12-byte nonce, then the ciphertext length
//! as a `u64`, then the ciphertext. Decoding is strict: every byte of a
//! datagram must belong to the message.

use vstd::prelude::*;
use vstd::slice::{slice_subrange, slice_to_vec};
use vstd::utf8::{decode_utf8, encode_utf8, valid_utf8, encode_utf8_decode_utf8, encode_utf8_valid_utf8};

use crate::types::{ItemView, MoquClientReq, MoquItem, MoquUpdate, ReqView, UpdateView};

verus! {

/// Length of a nonce.
pub const NONCE_LEN: usize = 12;

// ----- the format, as mathematical functions -----

pub open spec fn u64_le(v: u64) -> Seq<u8> {
    seq![
        (v & 0xff) as u8,
        ((v >> 8u64) & 0xff) as u8,
        ((v >> 16u64) & 0xff) as u8,
        ((v >> 24u64) & 0xff) as u8,
        ((v >> 32u64) & 0xff) as u8,
        ((v >> 40u64) & 0xff) as u8,
        ((v >> 48u64) & 0xff) as u8,
        ((v >> 56u64) & 0xff) as u8,
    ]
}

pub open spec fn u32_le(v: u32) -> Seq<u8> {
    seq![
        (v & 0xff) as u8,
        ((v >> 8u32) & 0xff) as u8,
        ((v >> 16u32) & 0xff) as u8,
        ((v >> 24u32) & 0xff) as u8,
    ]
}

/// The `u64` held little-endian in `b[pos .. pos + 8]`.
#[verifier::opaque]
pub open spec fn u64_at(b: Seq<u8>, pos: int) -> u64 {
    (b[pos] as u64) | ((b[pos + 1] as u64) << 8u64) | ((b[pos + 2] as u64) << 16u64) | ((b[pos
        + 3] as u64) << 24u64) | ((b[pos + 4] as u64) << 32u64) | ((b[pos + 5] as u64) << 40u64)
        | ((b[pos + 6] as u64) << 48u64) | ((b[pos + 7] as u64) << 56u64)
}

/// The `u32` held little-endian in `b[pos .. pos + 4]`.
#[verifier::opaque]
pub open spec fn u32_at(b: Seq<u8>, pos: int) -> u32 {
    (b[pos] as u32) | ((b[pos + 1] as u32) << 8u32) | ((b[pos + 2] as u32) << 16u32) | ((b[pos
        + 3] as u32) << 24u32)
}

pub open spec fn str_bytes(s: Seq<char>) -> Seq<u8> {
    u64_le(encode_utf8(s).len() as u64) + encode_utf8(s)
}

pub open spec fn item_bytes(i: ItemView) -> Seq<u8> {
    str_bytes(i.kind) + str_bytes(i.content)
}

/// The bytes of a server update.
pub open spec fn update_bytes(u: UpdateView) -> Seq<u8> {
    match u {
        UpdateView::Heartbeat(t) => u32_le(0) + u64_le(t),
        UpdateView::Item(s, i) => u32_le(1) + u64_le(s) + item_bytes(i),
    }
}

/// The bytes of a client request.
pub open spec fn req_bytes(r: ReqView) -> Seq<u8> {
    match r {
        ReqView::AddrUpdate => u32_le(0),
        ReqView::Publish(i) => u32_le(1) + item_bytes(i),
        ReqView::Watermark(s) => u32_le(2) + u64_le(s),
    }
}

/// The bytes of a sealed envelope.
pub open spec fn envelope_bytes(nonce: Seq<u8>, ciphertext: Seq<u8>) -> Seq<u8> {
    nonce + u64_le(ciphertext.len() as u64) + ciphertext
}

/// A string starting at `pos`, and the position just past it.
pub open spec fn parse_str(b: Seq<u8>, pos: int) -> Option<(Seq<char>, int)> {
    if pos + 8 > b.len() {
        None
    } else {
        let n = u64_at(b, pos) as int;
        if n > b.len() - (pos + 8) {
            None
        } else {
            let raw = b.subrange(pos + 8, pos + 8 + n);
            if valid_utf8(raw) {
                Some((decode_utf8(raw), pos + 8 + n))
            } else {
                None
            }
        }
    }
}

/// An item starting at `pos`, and the position just past it.
pub open spec fn parse_item(b: Seq<u8>, pos: int) -> Option<(ItemView, int)> {
    match parse_str(b, pos) {
        None => None,
        Some((kind, mid)) => match parse_str(b, mid) {
            None => None,
            Some((content, end)) => Some((ItemView { kind, content }, end)),
        },
    }
}

/// The item that fills `b` from `pos` to its end.
pub open spec fn parse_item_to_end(b: Seq<u8>, pos: int) -> Option<ItemView> {
    match parse_item(b, pos) {
        Some((i, end)) => if end == b.len() {
            Some(i)
        } else {
            None
        },
        None => None,
    }
}

/// The server update that `b` holds, if it holds one.
pub open spec fn parse_update(b: Seq<u8>) -> Option<UpdateView> {
    if b.len() < 4 {
        None
    } else {
        let tag = u32_at(b, 0);
        if tag == 0 {
            if b.len() == 12 {
                Some(UpdateView::Heartbeat(u64_at(b, 4)))
            } else {
                None
            }
        } else if tag == 1 {
            if b.len() < 12 {
                None
            } else {
                match parse_item_to_end(b, 12) {
                    Some(i) => Some(UpdateView::Item(u64_at(b, 4), i)),
                    None => None,
                }
            }
        } else {
            None
        }
    }
}

/// The client request that `b` holds, if it holds one.
pub open spec fn parse_req(b: Seq<u8>) -> Option<ReqView> {
    if b.len() < 4 {
        None
    } else {
        let tag = u32_at(b, 0);
        if tag == 0 {
            if b.len() == 4 {
                Some(ReqView::AddrUpdate)
            } else {
                None
            }
        } else if tag == 1 {
            match parse_item_to_end(b, 4) {
                Some(i) => Some(ReqView::Publish(i)),
                None => None,
            }
        } else if tag == 2 {
            if b.len() == 12 {
                Some(ReqView::Watermark(u64_at(b, 4)))
            } else {
                None
            }
        } else {
            None
        }
    }
}

/// The nonce and ciphertext that `b` holds, if it is an envelope.
pub open spec fn parse_envelope(b: Seq<u8>) -> Option<(Seq<u8>, Seq<u8>)> {
    if b.len() < 20 {
        None
    } else if u64_at(b, 12) as int != b.len() - 20 {
        None
    } else {
        Some((b.subrange(0, 12), b.subrange(20, b.len() as int)))
    }
}

// ----- laws of the format -----

proof fn lemma_u64_le_at(v: u64, pre: Seq<u8>, post: Seq<u8>)
    ensures
        u64_at(pre + u64_le(v) + post, pre.len() as int) == v,
{
    let b = pre + u64_le(v) + post;
    let p = pre.len() as int;
    reveal(u64_at);
    assert(b[p] == (v & 0xff) as u8);
    assert(b[p + 1] == ((v >> 8u64) & 0xff) as u8);
    assert(b[p + 2] == ((v >> 16u64) & 0xff) as u8);
    assert(b[p + 3] == ((v >> 24u64) & 0xff) as u8);
    assert(b[p + 4] == ((v >> 32u64) & 0xff) as u8);
    assert(b[p + 5] == ((v >> 40u64) & 0xff) as u8);
    assert(b[p + 6] == ((v >> 48u64) & 0xff) as u8);
    assert(b[p + 7] == ((v >> 56u64) & 0xff) as u8);
    assert(((((v & 0xff) as u8) as u64) | (((((v >> 8u64) & 0xff) as u8) as u64) << 8u64) | ((((
    (v >> 16u64) & 0xff) as u8) as u64) << 16u64) | (((((v >> 24u64) & 0xff) as u8) as u64)
        << 24u64) | (((((v >> 32u64) & 0xff) as u8) as u64) << 32u64) | (((((v >> 40u64) & 0xff)
        as u8) as u64) << 40u64) | (((((v >> 48u64) & 0xff) as u8) as u64) << 48u64) | (((((v
        >> 56u64) & 0xff) as u8) as u64) << 56u64)) == v) by (bit_vector);
}

proof fn lemma_u32_le_at(v: u32, post: Seq<u8>)
    ensures
        u32_at(u32_le(v) + post, 0) == v,
{
    let b = u32_le(v) + post;
    reveal(u32_at);
    assert(b[0] == (v & 0xff) as u8);
    assert(b[1] == ((v >> 8u32) & 0xff) as u8);
    assert(b[2] == ((v >> 16u32) & 0xff) as u8);
    assert(b[3] == ((v >> 24u32) & 0xff) as u8);
    assert(((((v & 0xff) as u8) as u32) | (((((v >> 8u32) & 0xff) as u8) as u32) << 8u32) | ((((
    (v >> 16u32) & 0xff) as u8) as u32) << 16u32) | (((((v >> 24u32) & 0xff) as u8) as u32)
        << 24u32)) == v) by (bit_vector);
}

proof fn lemma_parse_str(s: Seq<char>, pre: Seq<u8>, post: Seq<u8>)
    requires
        encode_utf8(s).len() <= u64::MAX,
    ensures
        parse_str(pre + str_bytes(s) + post, pre.len() as int) == Some(
            (s, (pre.len() + str_bytes(s).len()) as int),
        ),
{
    let e = encode_utf8(s);
    let b = pre + str_bytes(s) + post;
    let p = pre.len() as int;
    assert(b =~= pre + u64_le(e.len() as u64) + (e + post));
    lemma_u64_le_at(e.len() as u64, pre, e + post);
    assert(b.subrange(p + 8, p + 8 + e.len()) =~= e);
    encode_utf8_valid_utf8(s);
    encode_utf8_decode_utf8(s);
}

proof fn lemma_parse_item(i: ItemView, pre: Seq<u8>, post: Seq<u8>)
    requires
        encode_utf8(i.kind).len() <= u64::MAX,
        encode_utf8(i.content).len() <= u64::MAX,
    ensures
        parse_item(pre + item_bytes(i) + post, pre.len() as int) == Some(
            (i, (pre.len() + item_bytes(i).len()) as int),
        ),
{
    let b = pre + item_bytes(i) + post;
    assert(b =~= pre + str_bytes(i.kind) + (str_bytes(i.content) + post));
    lemma_parse_str(i.kind, pre, str_bytes(i.content) + post);
    assert(b =~= (pre + str_bytes(i.kind)) + str_bytes(i.content) + post);
    lemma_parse_str(i.content, pre + str_bytes(i.kind), post);
}

/// Whether every string in the item fits the `u64` length prefix.
pub open spec fn item_fits(i: ItemView) -> bool {
    &&& encode_utf8(i.kind).len() <= u64::MAX
    &&& encode_utf8(i.content).len() <= u64::MAX
}

pub open spec fn req_fits(r: ReqView) -> bool {
    match r {
        ReqView::Publish(i) => item_fits(i),
        _ => true,
    }
}

pub open spec fn update_fits(u: UpdateView) -> bool {
    match u {
        UpdateView::Item(_, i) => item_fits(i),
        _ => true,
    }
}

/// Decoding the bytes of a request gives the request back.
pub proof fn lemma_req_round_trip(r: ReqView)
    requires
        req_fits(r),
    ensures
        parse_req(req_bytes(r)) == Some(r),
{
    let b = req_bytes(r);
    match r {
        ReqView::AddrUpdate => {
            lemma_u32_le_at(0, Seq::empty());
            assert(b =~= u32_le(0) + Seq::empty());
        },
        ReqView::Publish(i) => {
            assert(b =~= u32_le(1) + (item_bytes(i) + Seq::empty()));
            lemma_u32_le_at(1, item_bytes(i) + Seq::empty());
            assert(b =~= u32_le(1) + item_bytes(i) + Seq::empty());
            lemma_parse_item(i, u32_le(1), Seq::empty());
        },
        ReqView::Watermark(s) => {
            lemma_u32_le_at(2, u64_le(s));
            assert(b =~= u32_le(2) + u64_le(s) + Seq::empty());
            lemma_u64_le_at(s, u32_le(2), Seq::empty());
        },
    }
}

/// Decoding the bytes of an update gives the update back.
pub proof fn lemma_update_round_trip(u: UpdateView)
    requires
        update_fits(u),
    ensures
        parse_update(update_bytes(u)) == Some(u),
{
    let b = update_bytes(u);
    match u {
        UpdateView::Heartbeat(t) => {
            lemma_u32_le_at(0, u64_le(t));
            assert(b =~= u32_le(0) + u64_le(t) + Seq::empty());
            lemma_u64_le_at(t, u32_le(0), Seq::empty());
        },
        UpdateView::Item(s, i) => {
            assert(b =~= u32_le(1) + (u64_le(s) + item_bytes(i)));
            lemma_u32_le_at(1, u64_le(s) + item_bytes(i));
            assert(b =~= u32_le(1) + u64_le(s) + item_bytes(i));
            lemma_u64_le_at(s, u32_le(1), item_bytes(i));
            assert(b =~= (u32_le(1) + u64_le(s)) + item_bytes(i) + Seq::empty());
            lemma_parse_item(i, u32_le(1) + u64_le(s), Seq::empty());
        },
    }
}

/// Decoding the bytes of an envelope gives its nonce and ciphertext back.
pub proof fn lemma_envelope_round_trip(nonce: Seq<u8>, ciphertext: Seq<u8>)
    requires
        nonce.len() == NONCE_LEN,
        ciphertext.len() <= u64::MAX,
    ensures
        parse_envelope(envelope_bytes(nonce, ciphertext)) == Some((nonce, ciphertext)),
{
    let b = envelope_bytes(nonce, ciphertext);
    lemma_u64_le_at(ciphertext.len() as u64, nonce, ciphertext);
    assert(b.subrange(0, 12) =~= nonce);
    assert(b.subrange(20, b.len() as int) =~= ciphertext);
}

// ----- encoding -----

fn push_u64(out: &mut Vec<u8>, v: u64)
    ensures
        final(out)@ == old(out)@ + u64_le(v),
{
    out.push((v & 0xff) as u8);
    out.push(((v >> 8u64) & 0xff) as u8);
    out.push(((v >> 16u64) & 0xff) as u8);
    out.push(((v >> 24u64) & 0xff) as u8);
    out.push(((v >> 32u64) & 0xff) as u8);
    out.push(((v >> 40u64) & 0xff) as u8);
    out.push(((v >> 48u64) & 0xff) as u8);
    out.push(((v >> 56u64) & 0xff) as u8);
    assert(final(out)@ =~= old(out)@ + u64_le(v));
}

fn push_u32(out: &mut Vec<u8>, v: u32)
    ensures
        final(out)@ == old(out)@ + u32_le(v),
{
    out.push((v & 0xff) as u8);
    out.push(((v >> 8u32) & 0xff) as u8);
    out.push(((v >> 16u32) & 0xff) as u8);
    out.push(((v >> 24u32) & 0xff) as u8);
    assert(final(out)@ =~= old(out)@ + u32_le(v));
}

fn push_bytes(out: &mut Vec<u8>, b: &[u8])
    ensures
        final(out)@ == old(out)@ + b@,
{
    let ghost start = out@;
    let mut i: usize = 0;
    while i < b.len()
        invariant
            i <= b@.len(),
            out@ == start + b@.subrange(0, i as int),
        decreases b@.len() - i,
    {
        out.push(b[i]);
        i = i + 1;
        assert(out@ =~= start + b@.subrange(0, i as int));
    }
    assert(b@.subrange(0, i as int) =~= b@);
}

fn push_str(out: &mut Vec<u8>, s: &String)
    ensures
        final(out)@ == old(out)@ + str_bytes(s@),
{
    let b = s.as_str().as_bytes();
    push_u64(out, b.len() as u64);
    push_bytes(out, b);
    assert(final(out)@ =~= old(out)@ + str_bytes(s@));
}

fn push_item(out: &mut Vec<u8>, i: &MoquItem)
    ensures
        final(out)@ == old(out)@ + item_bytes(i@),
{
    push_str(out, &i.kind);
    push_str(out, &i.content);
    assert(final(out)@ =~= old(out)@ + item_bytes(i@));
}

/// The bytes of a server update.
pub fn encode_update(u: &MoquUpdate) -> (r: Vec<u8>)
    ensures
        r@ == update_bytes(u@),
{
    let mut out: Vec<u8> = Vec::new();
    match u {
        MoquUpdate::Heartbeat(t) => {
            push_u32(&mut out, 0);
            push_u64(&mut out, *t);
        },
        MoquUpdate::Item(s, i) => {
            push_u32(&mut out, 1);
            push_u64(&mut out, *s);
            push_item(&mut out, i);
        },
    }
    assert(out@ =~= update_bytes(u@));
    out
}

/// The bytes of a client request.
pub fn encode_req(r: &MoquClientReq) -> (out: Vec<u8>)
    ensures
        out@ == req_bytes(r@),
{
    let mut out: Vec<u8> = Vec::new();
    match r {
        MoquClientReq::AddrUpdate => {
            push_u32(&mut out, 0);
        },
        MoquClientReq::Publish(i) => {
            push_u32(&mut out, 1);
            push_item(&mut out, i);
        },
        MoquClientReq::Watermark(s) => {
            push_u32(&mut out, 2);
            push_u64(&mut out, *s);
        },
    }
    assert(out@ =~= req_bytes(r@));
    out
}

/// The bytes of an envelope holding `nonce` and `ciphertext`.
pub fn encode_envelope(nonce: &[u8; 12], ciphertext: &Vec<u8>) -> (r: Vec<u8>)
    ensures
        r@ == envelope_bytes(nonce@, ciphertext@),
{
    let mut out: Vec<u8> = Vec::new();
    push_bytes(&mut out, nonce.as_slice());
    push_u64(&mut out, ciphertext.len() as u64);
    push_bytes(&mut out, ciphertext.as_slice());
    out
}

// ----- decoding -----

/// Relies on std's `String::from_utf8`: it accepts exactly the well-formed
/// UTF-8 byte strings and keeps their bytes.
#[verifier::external_body]
fn string_from_utf8(v: Vec<u8>) -> (r: Option<String>)
    ensures
        r is Some <==> valid_utf8(v@),
        r matches Some(s) ==> encode_utf8(s@) == v@,
{
    String::from_utf8(v).ok()
}

fn read_u64(b: &[u8], pos: usize) -> (r: u64)
    requires
        pos + 8 <= b@.len(),
    ensures
        r == u64_at(b@, pos as int),
{
    reveal(u64_at);
    (b[pos] as u64) | ((b[pos + 1] as u64) << 8u64) | ((b[pos + 2] as u64) << 16u64) | ((b[pos
        + 3] as u64) << 24u64) | ((b[pos + 4] as u64) << 32u64) | ((b[pos + 5] as u64) << 40u64)
        | ((b[pos + 6] as u64) << 48u64) | ((b[pos + 7] as u64) << 56u64)
}

fn read_u32(b: &[u8], pos: usize) -> (r: u32)
    requires
        pos + 4 <= b@.len(),
    ensures
        r == u32_at(b@, pos as int),
{
    reveal(u32_at);
    (b[pos] as u32) | ((b[pos + 1] as u32) << 8u32) | ((b[pos + 2] as u32) << 16u32) | ((b[pos
        + 3] as u32) << 24u32)
}

fn read_str(b: &[u8], pos: usize) -> (r: Option<(String, usize)>)
    requires
        pos <= b@.len(),
    ensures
        match r {
            Some((s, end)) => parse_str(b@, pos as int) == Some((s@, end as int)),
            None => parse_str(b@, pos as int) is None,
        },
{
    if b.len() - pos < 8 {
        return None;
    }
    let n = read_u64(b, pos);
    if n > (b.len() - pos - 8) as u64 {
        return None;
    }
    let start = pos + 8;
    let end = start + n as usize;
    let raw = slice_to_vec(slice_subrange(b, start, end));
    match string_from_utf8(raw) {
        Some(s) => {
            proof {
                encode_utf8_decode_utf8(s@);
            }
            Some((s, end))
        },
        None => None,
    }
}

fn read_item(b: &[u8], pos: usize) -> (r: Option<(MoquItem, usize)>)
    requires
        pos <= b@.len(),
    ensures
        match r {
            Some((i, end)) => parse_item(b@, pos as int) == Some((i@, end as int)),
            None => parse_item(b@, pos as int) is None,
        },
{
    match read_str(b, pos) {
        None => None,
        Some((kind, mid)) => match read_str(b, mid) {
            None => None,
            Some((content, end)) => Some((MoquItem { kind, content }, end)),
        },
    }
}

fn read_item_to_end(b: &[u8], pos: usize) -> (r: Option<MoquItem>)
    requires
        pos <= b@.len(),
    ensures
        match r {
            Some(i) => parse_item_to_end(b@, pos as int) == Some(i@),
            None => parse_item_to_end(b@, pos as int) is None,
        },
{
    match read_item(b, pos) {
        Some((i, end)) => if end == b.len() {
            Some(i)
        } else {
            None
        },
        None => None,
    }
}

/// The server update that `b` holds; `None` where `b` is not exactly the
/// bytes of one.
pub fn decode_update(b: &[u8]) -> (r: Option<MoquUpdate>)
    ensures
        match r {
            Some(u) => parse_update(b@) == Some(u@),
            None => parse_update(b@) is None,
        },
{
    if b.len() < 4 {
        return None;
    }
    let tag = read_u32(b, 0);
    if tag == 0 {
        if b.len() == 12 {
            Some(MoquUpdate::Heartbeat(read_u64(b, 4)))
        } else {
            None
        }
    } else if tag == 1 {
        if b.len() < 12 {
            None
        } else {
            let seq = read_u64(b, 4);
            match read_item_to_end(b, 12) {
                Some(i) => Some(MoquUpdate::Item(seq, i)),
                None => None,
            }
        }
    } else {
        None
    }
}

/// The client request that `b` holds; `None` where `b` is not exactly the
/// bytes of one.
pub fn decode_req(b: &[u8]) -> (r: Option<MoquClientReq>)
    ensures
        match r {
            Some(m) => parse_req(b@) == Some(m@),
            None => parse_req(b@) is None,
        },
{
    if b.len() < 4 {
        return None;
    }
    let tag = read_u32(b, 0);
    if tag == 0 {
        if b.len() == 4 {
            Some(MoquClientReq::AddrUpdate)
        } else {
            None
        }
    } else if tag == 1 {
        match read_item_to_end(b, 4) {
            Some(i) => Some(MoquClientReq::Publish(i)),
            None => None,
        }
    } else if tag == 2 {
        if b.len() == 12 {
            Some(MoquClientReq::Watermark(read_u64(b, 4)))
        } else {
            None
        }
    } else {
        None
    }
}

/// The nonce and ciphertext of the envelope that `b` holds; `None` where `b`
/// is not exactly the bytes of one.
pub fn decode_envelope(b: &[u8]) -> (r: Option<([u8; 12], Vec<u8>)>)
    ensures
        match r {
            Some((n, c)) => parse_envelope(b@) == Some((n@, c@)),
            None => parse_envelope(b@) is None,
        },
{
    if b.len() < 20 {
        return None;
    }
    let n = read_u64(b, 12);
    if n != (b.len() - 20) as u64 {
        return None;
    }
    let mut nonce: [u8; 12] = [0u8; 12];
    let mut i: usize = 0;
    while i < 12
        invariant
            i <= 12,
            b@.len() >= 20,
            forall|j: int| 0 <= j < i ==> nonce@[j] == b@[j],
        decreases 12 - i,
    {
        nonce[i] = b[i];
        i = i + 1;
    }
    assert(nonce@ =~= b@.subrange(0, 12));
    let c = slice_to_vec(slice_subrange(b, 20, b.len()));
    Some((nonce, c))
}

} // verus!
