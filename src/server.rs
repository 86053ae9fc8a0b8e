//! The server: it decodes requests, keeps the delivery queue and the
//! subscriber's address, and decides what to send.

use vstd::prelude::*;

use crate::codec::{
    datagram_of, datagram_plaintext, open_datagram, seal_datagram, seal_datagram_with_nonce,
    DecodeError,
};
use crate::crypto::{CryptoError, Key, Nonce, GCM_MAX_INPUT_LEN};
use crate::queue::{acked_to, MoquQueue};
use crate::types::{MoquClientReq, MoquUpdate, PeerAddr, ReqView, UpdateView};
use crate::wire::{decode_req, encode_update, parse_req, req_bytes, req_fits, update_bytes, NONCE_LEN};

verus! {

/// The request that datagram `b` carries under `key`.
pub open spec fn req_of_datagram(key: Seq<u8>, b: Seq<u8>) -> Result<ReqView, DecodeError> {
    match datagram_plaintext(key, b) {
        Err(e) => Err(e),
        Ok(p) => match parse_req(p) {
            Some(m) => Ok(m),
            None => Err(DecodeError::MalformedPayload),
        },
    }
}

/// Turns datagrams from clients into requests and updates into datagrams.
pub struct ServerCodec {
    key: Key,
}

impl ServerCodec {
    pub closed spec fn key_bytes(&self) -> Seq<u8> {
        self.key.bytes@
    }

    pub fn new(key: Key) -> (r: ServerCodec)
        ensures
            r.key_bytes() == key.bytes@,
    {
        ServerCodec { key }
    }

    /// The request in `buf`, or why there is none. A datagram that a client
    /// sealed under the same key decodes to the request it sealed.
    pub fn maybe_decode(&self, buf: &[u8]) -> (r: Result<MoquClientReq, DecodeError>)
        ensures
            match r {
                Ok(m) => req_of_datagram(self.key_bytes(), buf@) == Ok::<ReqView, DecodeError>(m@),
                Err(e) => req_of_datagram(self.key_bytes(), buf@) == Err::<ReqView, DecodeError>(e),
            },
            forall|n: Seq<u8>, m: ReqView|
                n.len() == NONCE_LEN && req_fits(m) && req_bytes(m).len() <= GCM_MAX_INPUT_LEN
                    && buf@ == #[trigger] datagram_of(
                    self.key_bytes(),
                    n,
                    req_bytes(m),
                ) ==> (r matches Ok(x) && x@ == m),
    {
        proof {
            assert forall|n: Seq<u8>, m: ReqView|
                n.len() == NONCE_LEN && req_fits(m) && req_bytes(m).len() <= GCM_MAX_INPUT_LEN
                    && buf@ == #[trigger] datagram_of(
                    self.key_bytes(),
                    n,
                    req_bytes(m),
                ) implies parse_req(req_bytes(m)) == Some(m) by {
                crate::wire::lemma_req_round_trip(m);
            }
        }
        let plain = match open_datagram(&self.key, buf) {
            Ok(p) => p,
            Err(e) => return Err(e),
        };
        match decode_req(plain.as_slice()) {
            Some(m) => Ok(m),
            None => Err(DecodeError::MalformedPayload),
        }
    }

    /// The datagram carrying `update`, sealed under `nonce`.
    pub fn encode_with_nonce(&self, nonce: Nonce, update: &MoquUpdate) -> (r: Result<
        Vec<u8>,
        CryptoError,
    >)
        ensures
            match r {
                Ok(b) => b@ == datagram_of(self.key_bytes(), nonce@, update_bytes(update@)),
                Err(e) => e == CryptoError::SealFailure,
            },
            update_bytes(update@).len() <= GCM_MAX_INPUT_LEN ==> r is Ok,
    {
        let plain = encode_update(update);
        seal_datagram_with_nonce(&self.key, nonce, plain.as_slice())
    }

    /// The datagram carrying `update`, sealed under a fresh random nonce.
    pub fn encode(&self, update: &MoquUpdate) -> (r: Result<Vec<u8>, CryptoError>)
        ensures
            r matches Ok(b) ==> exists|n: Seq<u8>|
                n.len() == NONCE_LEN && b@ == #[trigger] datagram_of(
                    self.key_bytes(),
                    n,
                    update_bytes(update@),
                ),
            r matches Err(e) ==> e == CryptoError::RandomUnavailable || e
                == CryptoError::SealFailure,
            update_bytes(update@).len() <= GCM_MAX_INPUT_LEN ==> (r matches Err(e) ==> e
                == CryptoError::RandomUnavailable),
    {
        let plain = encode_update(update);
        let r = seal_datagram(&self.key, plain.as_slice());
        proof {
            if r is Ok {
                let b = r.unwrap();
                let n = choose|n: Seq<u8>|
                    n.len() == NONCE_LEN && b@ == #[trigger] datagram_of(self.key.bytes@, n, plain@);
                assert(b@ == datagram_of(self.key_bytes(), n, update_bytes(update@)));
            }
        }
        r
    }
}

/// What the server holds: the queue, and the address that the last
/// `AddrUpdate` came from, to which heartbeats go.
pub struct ServerState {
    pub subscriber: Option<PeerAddr>,
    pub queue: MoquQueue,
}

/// An update and where to send it.
pub open spec fn sends(r: Option<(PeerAddr, MoquUpdate)>, to: PeerAddr, u: UpdateView) -> bool {
    r matches Some((a, m)) && a == to && m@ == u
}

impl ServerState {
    pub open spec fn wf(&self) -> bool {
        self.queue.wf()
    }

    /// No subscriber yet and an empty queue.
    pub fn new() -> (r: ServerState)
        ensures
            r.wf(),
            r.subscriber is None,
            r.queue.spec_sseq() == 0,
            r.queue.spec_cliseq() == 0,
            r.queue.entries().len() == 0,
    {
        ServerState { subscriber: None, queue: MoquQueue::new() }
    }

    /// Handles a request that came from `from`, and returns the update to
    /// send, with its destination, if any.
    ///
    /// `AddrUpdate` makes `from` the subscriber; `Publish` enqueues the item;
    /// `Watermark(seq)` drops what `seq` acknowledges and answers `from` with
    /// the oldest item still held.
    pub fn handle_request(&mut self, from: PeerAddr, req: MoquClientReq) -> (r: Option<
        (PeerAddr, MoquUpdate),
    >)
        requires
            old(self).wf(),
            req is Publish ==> old(self).queue.spec_sseq() < u64::MAX,
        ensures
            final(self).wf(),
            match req@ {
                ReqView::AddrUpdate => {
                    &&& final(self).subscriber == Some(from)
                    &&& final(self).queue.entries() == old(self).queue.entries()
                    &&& final(self).queue.spec_sseq() == old(self).queue.spec_sseq()
                    &&& final(self).queue.spec_cliseq() == old(self).queue.spec_cliseq()
                    &&& r is None
                },
                ReqView::Publish(i) => {
                    &&& final(self).subscriber == old(self).subscriber
                    &&& final(self).queue.spec_sseq() == old(self).queue.spec_sseq() + 1
                    &&& final(self).queue.spec_cliseq() == old(self).queue.spec_cliseq()
                    &&& final(self).queue.entries() == old(self).queue.entries().push(
                        (final(self).queue.spec_sseq(), i),
                    )
                    &&& r is None
                },
                ReqView::Watermark(seq) => {
                    &&& final(self).subscriber == old(self).subscriber
                    &&& final(self).queue.spec_sseq() == old(self).queue.spec_sseq()
                    &&& final(self).queue.spec_cliseq() == acked_to(
                        old(self).queue.spec_cliseq(),
                        old(self).queue.spec_sseq(),
                        seq,
                    )
                    &&& final(self).queue.entries() == old(self).queue.entries().skip(
                        final(self).queue.spec_cliseq() - old(self).queue.spec_cliseq(),
                    )
                    &&& final(self).queue.entries().len() == 0 ==> r is None
                    &&& final(self).queue.entries().len() > 0 ==> sends(
                        r,
                        from,
                        UpdateView::Item(
                            final(self).queue.entries()[0].0,
                            final(self).queue.entries()[0].1,
                        ),
                    )
                },
            },
    {
        match req {
            MoquClientReq::AddrUpdate => {
                self.subscriber = Some(from);
                None
            },
            MoquClientReq::Publish(item) => {
                self.queue.insert(item);
                None
            },
            MoquClientReq::Watermark(seq) => {
                self.queue.pop_until(seq);
                match self.queue.front() {
                    Some(entry) => Some((from, MoquUpdate::Item(entry.0, entry.1.duplicate()))),
                    None => None,
                }
            },
        }
    }

    /// On the heartbeat timer: a heartbeat carrying the uptime, for the
    /// subscriber if one is known.
    pub fn heartbeat_tick(&self, uptime_secs: u64) -> (r: Option<(PeerAddr, MoquUpdate)>)
        ensures
            match self.subscriber {
                None => r is None,
                Some(a) => sends(r, a, UpdateView::Heartbeat(uptime_secs)),
            },
    {
        match self.subscriber {
            Some(a) => Some((a, MoquUpdate::Heartbeat(uptime_secs))),
            None => None,
        }
    }
}

} // verus!
