//! The messages exchanged between client and server.

use vstd::prelude::*;

verus! {

/// A transport address: an IP address as a 128-bit number (an IPv4 address
/// in its low 32 bits) and a port.
#[derive(Debug, Clone, Copy, PartialEq, Eq, Structural)]
pub struct PeerAddr {
    pub ip: u128,
    pub port: u16,
    pub v6: bool,
}

/// What an item is, as a mathematical value.
pub ghost struct ItemView {
    pub kind: Seq<char>,
    pub content: Seq<char>,
}

/// A delivered unit: `kind` names the handler, `content` is its payload.
#[derive(Debug, Clone)]
pub struct MoquItem {
    pub kind: String,
    pub content: String,
}

impl View for MoquItem {
    type V = ItemView;

    open spec fn view(&self) -> ItemView {
        ItemView { kind: self.kind@, content: self.content@ }
    }
}

impl MoquItem {
    /// A copy of the item with the same kind and content.
    pub fn duplicate(&self) -> (r: MoquItem)
        ensures
            r@ == self@,
    {
        MoquItem { kind: self.kind.clone(), content: self.content.clone() }
    }
}

/// Server to client.
#[derive(Debug)]
pub enum MoquUpdate {
    /// Liveness signal carrying the server's uptime in seconds.
    Heartbeat(u64),
    /// The oldest retained item and its sequence number.
    Item(u64, MoquItem),
}

/// Client to server.
#[derive(Debug)]
pub enum MoquClientReq {
    /// Announces the sender's current address.
    AddrUpdate,
    /// Asks the server to enqueue an item.
    Publish(MoquItem),
    /// Everything up to and including this sequence number has been processed.
    Watermark(u64),
}

pub ghost enum UpdateView {
    Heartbeat(u64),
    Item(u64, ItemView),
}

pub ghost enum ReqView {
    AddrUpdate,
    Publish(ItemView),
    Watermark(u64),
}

impl View for MoquUpdate {
    type V = UpdateView;

    open spec fn view(&self) -> UpdateView {
        match self {
            MoquUpdate::Heartbeat(t) => UpdateView::Heartbeat(*t),
            MoquUpdate::Item(s, i) => UpdateView::Item(*s, i@),
        }
    }
}

impl View for MoquClientReq {
    type V = ReqView;

    open spec fn view(&self) -> ReqView {
        match self {
            MoquClientReq::AddrUpdate => ReqView::AddrUpdate,
            MoquClientReq::Publish(i) => ReqView::Publish(i@),
            MoquClientReq::Watermark(s) => ReqView::Watermark(*s),
        }
    }
}

} // verus!
