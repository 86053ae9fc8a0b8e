//! The client: it decodes updates, tracks how far delivery has come and
//! whether the server is still heard, and decides what to send.

use vstd::prelude::*;

use crate::codec::{
    datagram_of, datagram_plaintext, open_datagram, seal_datagram, seal_datagram_with_nonce,
    DecodeError,
};
use crate::crypto::{CryptoError, Key, Nonce, GCM_MAX_INPUT_LEN};
use crate::types::{ItemView, MoquClientReq, MoquItem, MoquUpdate, ReqView, UpdateView};
use crate::wire::{decode_update, encode_req, parse_update, req_bytes, update_bytes, update_fits, NONCE_LEN};

verus! {

/// How long the server may stay silent, in milliseconds, before the client
/// announces its address again.
pub const STALE_AFTER_MS: u64 = 10000;

/// The update that datagram `b` carries under `key`.
pub open spec fn update_of_datagram(key: Seq<u8>, b: Seq<u8>) -> Result<UpdateView, DecodeError> {
    match datagram_plaintext(key, b) {
        Err(e) => Err(e),
        Ok(p) => match parse_update(p) {
            Some(u) => Ok(u),
            None => Err(DecodeError::MalformedPayload),
        },
    }
}

/// Turns datagrams from the server into updates and requests into datagrams.
pub struct ClientCodec {
    key: Key,
}

impl ClientCodec {
    pub closed spec fn key_bytes(&self) -> Seq<u8> {
        self.key.bytes@
    }

    pub fn new(key: Key) -> (r: ClientCodec)
        ensures
            r.key_bytes() == key.bytes@,
    {
        ClientCodec { key }
    }

    /// The update in `buf`, or why there is none. A datagram that the server
    /// sealed under the same key decodes to the update it sealed.
    pub fn decode(&self, buf: &[u8]) -> (r: Result<MoquUpdate, DecodeError>)
        ensures
            match r {
                Ok(u) => update_of_datagram(self.key_bytes(), buf@) == Ok::<UpdateView, DecodeError>(
                    u@,
                ),
                Err(e) => update_of_datagram(self.key_bytes(), buf@) == Err::<
                    UpdateView,
                    DecodeError,
                >(e),
            },
            forall|n: Seq<u8>, u: UpdateView|
                n.len() == NONCE_LEN && update_fits(u) && update_bytes(u).len() <= GCM_MAX_INPUT_LEN
                    && buf@ == #[trigger] datagram_of(
                    self.key_bytes(),
                    n,
                    update_bytes(u),
                ) ==> (r matches Ok(x) && x@ == u),
    {
        proof {
            assert forall|n: Seq<u8>, u: UpdateView|
                n.len() == NONCE_LEN && update_fits(u) && update_bytes(u).len() <= GCM_MAX_INPUT_LEN
                    && buf@ == #[trigger] datagram_of(
                    self.key_bytes(),
                    n,
                    update_bytes(u),
                ) implies parse_update(update_bytes(u)) == Some(u) by {
                crate::wire::lemma_update_round_trip(u);
            }
        }
        let plain = match open_datagram(&self.key, buf) {
            Ok(p) => p,
            Err(e) => return Err(e),
        };
        match decode_update(plain.as_slice()) {
            Some(u) => Ok(u),
            None => Err(DecodeError::MalformedPayload),
        }
    }

    /// The datagram carrying `req`, sealed under `nonce`.
    pub fn encode_with_nonce(&self, nonce: Nonce, req: &MoquClientReq) -> (r: Result<
        Vec<u8>,
        CryptoError,
    >)
        ensures
            match r {
                Ok(b) => b@ == datagram_of(self.key_bytes(), nonce@, req_bytes(req@)),
                Err(e) => e == CryptoError::SealFailure,
            },
            req_bytes(req@).len() <= GCM_MAX_INPUT_LEN ==> r is Ok,
    {
        let plain = encode_req(req);
        seal_datagram_with_nonce(&self.key, nonce, plain.as_slice())
    }

    /// The datagram carrying `req`, sealed under a fresh random nonce.
    pub fn encode(&self, req: &MoquClientReq) -> (r: Result<Vec<u8>, CryptoError>)
        ensures
            r matches Ok(b) ==> exists|n: Seq<u8>|
                n.len() == NONCE_LEN && b@ == #[trigger] datagram_of(
                    self.key_bytes(),
                    n,
                    req_bytes(req@),
                ),
            r matches Err(e) ==> e == CryptoError::RandomUnavailable || e
                == CryptoError::SealFailure,
            req_bytes(req@).len() <= GCM_MAX_INPUT_LEN ==> (r matches Err(e) ==> e
                == CryptoError::RandomUnavailable),
    {
        let plain = encode_req(req);
        let r = seal_datagram(&self.key, plain.as_slice());
        proof {
            if r is Ok {
                let b = r.unwrap();
                let n = choose|n: Seq<u8>|
                    n.len() == NONCE_LEN && b@ == #[trigger] datagram_of(self.key.bytes@, n, plain@);
                assert(b@ == datagram_of(self.key_bytes(), n, req_bytes(req@)));
            }
        }
        r
    }
}

/// What the client holds: the highest sequence number it has processed,
/// whether it has a baseline yet, and when (in milliseconds on its own
/// clock) it last heard a heartbeat.
#[derive(Debug, Clone, Copy, PartialEq, Eq, Structural)]
pub struct ClientState {
    pub cliseq: u64,
    pub ready: bool,
    pub last_heartbeat_ms: Option<u64>,
}

/// What the client does after an update: an item to hand to the handler, and
/// a request to send to the server.
#[derive(Debug)]
pub struct ClientStep {
    pub deliver: Option<MoquItem>,
    pub reply: Option<MoquClientReq>,
}

/// The state after update `u` arrives at time `now_ms`.
pub open spec fn next_state(s: ClientState, u: UpdateView, now_ms: u64) -> ClientState {
    match u {
        UpdateView::Heartbeat(_) => ClientState { last_heartbeat_ms: Some(now_ms), ..s },
        UpdateView::Item(seq, _) => if seq == s.cliseq + 1 {
            ClientState { cliseq: seq, ready: true, ..s }
        } else if !s.ready {
            ClientState { cliseq: if seq == 0 { 0 } else { (seq - 1) as u64 }, ready: true, ..s }
        } else {
            s
        },
    }
}

/// The item that update `u` hands to the handler in state `s`.
pub open spec fn delivered(s: ClientState, u: UpdateView) -> Option<ItemView> {
    match u {
        UpdateView::Item(seq, i) => if seq == s.cliseq + 1 {
            Some(i)
        } else {
            None
        },
        _ => None,
    }
}

/// The request that update `u` makes the client send in state `s`.
pub open spec fn reply_to(s: ClientState, u: UpdateView) -> Option<ReqView> {
    match u {
        UpdateView::Heartbeat(_) => Some(ReqView::Watermark(s.cliseq)),
        UpdateView::Item(seq, _) => if seq == s.cliseq + 1 {
            Some(ReqView::Watermark(seq))
        } else {
            None
        },
    }
}

/// Whether a heartbeat last heard at `last` is stale at `now_ms`.
pub open spec fn is_stale(last: Option<u64>, now_ms: u64) -> bool {
    match last {
        None => true,
        Some(t) => now_ms > t && now_ms - t > STALE_AFTER_MS,
    }
}

pub open spec fn item_opt_view(o: Option<MoquItem>) -> Option<ItemView> {
    match o {
        Some(i) => Some(i@),
        None => None,
    }
}

pub open spec fn req_opt_view(o: Option<MoquClientReq>) -> Option<ReqView> {
    match o {
        Some(r) => Some(r@),
        None => None,
    }
}

impl ClientState {
    /// A client that has processed nothing and heard no heartbeat.
    pub fn new() -> (r: ClientState)
        ensures
            r == (ClientState { cliseq: 0, ready: false, last_heartbeat_ms: None }),
    {
        ClientState { cliseq: 0, ready: false, last_heartbeat_ms: None }
    }

    /// Handles an update that arrived at `now_ms`.
    ///
    /// A heartbeat is recorded and answered with the current watermark. The
    /// next item in order is handed on and acknowledged. Any other item, to
    /// a client without a baseline, sets the baseline just below it, so that
    /// the next round delivers it in order; to a client with one, it is
    /// dropped.
    pub fn on_update(&mut self, update: MoquUpdate, now_ms: u64) -> (r: ClientStep)
        ensures
            *final(self) == next_state(*old(self), update@, now_ms),
            item_opt_view(r.deliver) == delivered(*old(self), update@),
            req_opt_view(r.reply) == reply_to(*old(self), update@),
    {
        match update {
            MoquUpdate::Heartbeat(_) => {
                self.last_heartbeat_ms = Some(now_ms);
                ClientStep { deliver: None, reply: Some(MoquClientReq::Watermark(self.cliseq)) }
            },
            MoquUpdate::Item(seq, item) => {
                if self.cliseq < u64::MAX && seq == self.cliseq + 1 {
                    self.ready = true;
                    self.cliseq = seq;
                    ClientStep { deliver: Some(item), reply: Some(MoquClientReq::Watermark(seq)) }
                } else if !self.ready {
                    self.ready = true;
                    self.cliseq = if seq == 0 {
                        0
                    } else {
                        seq - 1
                    };
                    ClientStep { deliver: None, reply: None }
                } else {
                    ClientStep { deliver: None, reply: None }
                }
            },
        }
    }

    /// On the liveness timer at `now_ms`: an `AddrUpdate` when no heartbeat
    /// has been heard, or the last one is more than ten seconds old.
    pub fn liveness_tick(&self, now_ms: u64) -> (r: Option<MoquClientReq>)
        ensures
            is_stale(self.last_heartbeat_ms, now_ms) ==> req_opt_view(r) == Some(ReqView::AddrUpdate),
            !is_stale(self.last_heartbeat_ms, now_ms) ==> r is None,
    {
        let stale = match self.last_heartbeat_ms {
            None => true,
            Some(t) => now_ms > t && now_ms - t > STALE_AFTER_MS,
        };
        if stale {
            Some(MoquClientReq::AddrUpdate)
        } else {
            None
        }
    }
}

/// A client without a baseline that receives an item numbered `seq` (at
/// least 2) adopts `seq - 1` as its baseline without handing the item on or
/// answering; when the same item arrives again, it hands it on exactly once,
/// advances to `seq` and acknowledges `seq`.
pub proof fn lemma_fresh_client_resync(
    s: ClientState,
    seq: u64,
    item: ItemView,
    t1: u64,
    t2: u64,
)
    requires
        !s.ready,
        s.cliseq == 0,
        seq >= 2,
    ensures
        ({
            let u = UpdateView::Item(seq, item);
            let s1 = next_state(s, u, t1);
            let s2 = next_state(s1, u, t2);
            &&& s1.ready && s1.cliseq == seq - 1
            &&& delivered(s, u) is None
            &&& reply_to(s, u) is None
            &&& s2.ready && s2.cliseq == seq
            &&& delivered(s1, u) == Some(item)
            &&& reply_to(s1, u) == Some(ReqView::Watermark(seq))
        }),
{
}

/// Once a client has a baseline it keeps one, and its watermark never moves
/// back, whatever arrives.
pub proof fn lemma_progress_monotone(s: ClientState, u: UpdateView, now_ms: u64)
    requires
        s.ready,
    ensures
        next_state(s, u, now_ms).ready,
        next_state(s, u, now_ms).cliseq >= s.cliseq,
{
}

} // verus!
