use moqu::types::{MoquClientReq, MoquItem, MoquUpdate};
use moqu::wire::{decode_envelope, decode_req, decode_update, encode_envelope, encode_req, encode_update};

fn item(kind: &str, content: &str) -> MoquItem {
    MoquItem { kind: kind.to_string(), content: content.to_string() }
}

#[test]
fn request_bytes_are_exact() {
    assert_eq!(encode_req(&MoquClientReq::AddrUpdate), vec![0, 0, 0, 0]);
    assert_eq!(
        encode_req(&MoquClientReq::Watermark(5)),
        vec![2, 0, 0, 0, 5, 0, 0, 0, 0, 0, 0, 0]
    );
    assert_eq!(
        encode_req(&MoquClientReq::Watermark(0x0102030405060708)),
        vec![2, 0, 0, 0, 8, 7, 6, 5, 4, 3, 2, 1]
    );
    assert_eq!(
        encode_req(&MoquClientReq::Publish(item("note", "hi"))),
        vec![
            1, 0, 0, 0, 4, 0, 0, 0, 0, 0, 0, 0, b'n', b'o', b't', b'e', 2, 0, 0, 0, 0, 0, 0, 0,
            b'h', b'i'
        ]
    );
}

#[test]
fn update_bytes_are_exact() {
    assert_eq!(
        encode_update(&MoquUpdate::Heartbeat(300)),
        vec![0, 0, 0, 0, 44, 1, 0, 0, 0, 0, 0, 0]
    );
    assert_eq!(
        encode_update(&MoquUpdate::Item(1, item("a", ""))),
        vec![1, 0, 0, 0, 1, 0, 0, 0, 0, 0, 0, 0, 1, 0, 0, 0, 0, 0, 0, 0, b'a', 0, 0, 0, 0, 0, 0, 0, 0]
    );
}

#[test]
fn requests_round_trip() {
    for req in [
        MoquClientReq::AddrUpdate,
        MoquClientReq::Watermark(u64::MAX),
        MoquClientReq::Publish(item("kind", "héllo ✓")),
        MoquClientReq::Publish(item("", "")),
    ] {
        let bytes = encode_req(&req);
        let back = decode_req(&bytes).unwrap();
        assert_eq!(format!("{:?}", back), format!("{:?}", req));
    }
}

#[test]
fn updates_round_trip() {
    for u in [MoquUpdate::Heartbeat(0), MoquUpdate::Item(42, item("note", "hi"))] {
        let bytes = encode_update(&u);
        let back = decode_update(&bytes).unwrap();
        assert_eq!(format!("{:?}", back), format!("{:?}", u));
    }
}

#[test]
fn malformed_requests_are_rejected() {
    assert!(decode_req(&[]).is_none());
    assert!(decode_req(&[0, 0, 0]).is_none());
    assert!(decode_req(&[0, 0, 0, 0, 0]).is_none());
    assert!(decode_req(&[3, 0, 0, 0]).is_none());
    assert!(decode_req(&[2, 0, 0, 0, 5, 0, 0, 0, 0, 0, 0]).is_none());
    // a string length past the end
    assert!(decode_req(&[1, 0, 0, 0, 9, 0, 0, 0, 0, 0, 0, 0, b'a']).is_none());
    // invalid UTF-8
    let mut bad = vec![1, 0, 0, 0, 1, 0, 0, 0, 0, 0, 0, 0, 0xff, 0, 0, 0, 0, 0, 0, 0, 0];
    assert!(decode_req(&bad).is_none());
    bad[12] = b'x';
    assert!(decode_req(&bad).is_some());
    bad.push(0);
    assert!(decode_req(&bad).is_none());
}

#[test]
fn malformed_updates_are_rejected() {
    assert!(decode_update(&[0, 0, 0, 0]).is_none());
    assert!(decode_update(&[2, 0, 0, 0, 0, 0, 0, 0, 0, 0, 0, 0]).is_none());
    assert!(decode_update(&[1, 0, 0, 0, 1, 0, 0, 0, 0, 0, 0, 0]).is_none());
}

#[test]
fn envelope_round_trip() {
    let nonce = [5u8; 12];
    let ct = vec![1u8, 2, 3];
    let bytes = encode_envelope(&nonce, &ct);
    assert_eq!(bytes.len(), 23);
    let (n, c) = decode_envelope(&bytes).unwrap();
    assert_eq!(n, nonce);
    assert_eq!(c, ct);
    assert!(decode_envelope(&bytes[..22]).is_none());
    assert!(decode_envelope(&[0u8; 19]).is_none());
    assert_eq!(decode_envelope(&[0u8; 20]).unwrap().1, Vec::<u8>::new());
}

#[test]
fn duplicate_keeps_fields() {
    let i = item("k", "c");
    let d = i.duplicate();
    assert_eq!(d.kind, "k");
    assert_eq!(d.content, "c");
}
