use moqu::queue::MoquQueue;
use moqu::server::ServerState;
use moqu::types::{MoquClientReq, MoquItem, MoquUpdate, PeerAddr};

fn item(kind: &str, content: &str) -> MoquItem {
    MoquItem { kind: kind.to_string(), content: content.to_string() }
}

fn addr(port: u16) -> PeerAddr {
    PeerAddr { ip: 0x7f000001, port, v6: false }
}

#[test]
fn queue_orders_and_trims() {
    let mut q = MoquQueue::new();
    assert!(q.front().is_none());
    q.insert(item("a", "A"));
    q.insert(item("b", "B"));
    q.insert(item("c", "C"));
    let (s, i) = q.front().unwrap();
    assert_eq!(*s, 1);
    assert_eq!(i.content, "A");
    q.pop_until(1);
    let (s, i) = q.front().unwrap();
    assert_eq!(*s, 2);
    assert_eq!(i.content, "B");
    q.pop_until(100);
    assert!(q.front().is_none());
    assert_eq!(q.cliseq(), 3);
    assert_eq!(q.sseq(), 3);
    assert_eq!(q.len(), 0);
}

#[test]
fn queue_ignores_old_watermarks() {
    let mut q = MoquQueue::new();
    q.insert(item("a", "A"));
    q.insert(item("b", "B"));
    q.pop_until(2);
    q.pop_until(1);
    q.pop_until(0);
    assert_eq!(q.cliseq(), 2);
    q.insert(item("c", "C"));
    assert_eq!(q.front().unwrap().0, 3);
    assert_eq!(q.len(), 1);
}

#[test]
fn pop_on_empty_queue_changes_nothing() {
    let mut q = MoquQueue::new();
    q.pop();
    assert_eq!(q.cliseq(), 0);
    q.insert(item("a", "A"));
    q.pop();
    assert_eq!(q.cliseq(), 1);
    assert_eq!(q.len(), 0);
}

#[test]
fn server_records_subscriber() {
    let mut s = ServerState::new();
    assert!(s.heartbeat_tick(3).is_none());
    assert!(s.handle_request(addr(1), MoquClientReq::AddrUpdate).is_none());
    assert!(s.handle_request(addr(2), MoquClientReq::AddrUpdate).is_none());
    assert_eq!(s.subscriber, Some(addr(2)));
    let (to, u) = s.heartbeat_tick(7).unwrap();
    assert_eq!(to, addr(2));
    assert!(matches!(u, MoquUpdate::Heartbeat(7)));
}

#[test]
fn server_answers_watermark_to_requester() {
    let mut s = ServerState::new();
    s.handle_request(addr(1), MoquClientReq::AddrUpdate);
    assert!(s.handle_request(addr(9), MoquClientReq::Publish(item("note", "hi"))).is_none());
    assert!(s.handle_request(addr(9), MoquClientReq::Publish(item("note", "yo"))).is_none());
    let (to, u) = s.handle_request(addr(5), MoquClientReq::Watermark(0)).unwrap();
    assert_eq!(to, addr(5));
    match u {
        MoquUpdate::Item(seq, i) => {
            assert_eq!(seq, 1);
            assert_eq!(i.content, "hi");
        }
        _ => panic!("expected an item"),
    }
    let (_, u) = s.handle_request(addr(5), MoquClientReq::Watermark(1)).unwrap();
    assert!(matches!(u, MoquUpdate::Item(2, _)));
    assert!(s.handle_request(addr(5), MoquClientReq::Watermark(2)).is_none());
    assert!(s.handle_request(addr(5), MoquClientReq::Watermark(50)).is_none());
    assert_eq!(s.queue.cliseq(), 2);
    assert_eq!(s.subscriber, Some(addr(1)));
}
