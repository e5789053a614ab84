use maestro::ip::{check_checksum, compute_rfc1071, IPv4Layer, DEFAULT_TTL, PROTO_TCP};
use maestro::net::BufList;

#[test]
fn ip_rfc1071() {
    // The example of RFC 1071, summed as little-endian words
    assert_eq!(compute_rfc1071(&[0x00, 0x01, 0xf2, 0x03, 0xf4, 0xf5, 0xf6, 0xf7]), 0x0d22);
    // Odd length: the last byte is a word on its own
    assert_eq!(compute_rfc1071(&[1, 2, 3]), 0xfdfb);
    assert_eq!(compute_rfc1071(&[]), 0xffff);
    assert_eq!(compute_rfc1071(&[0xff, 0xff]), 0);
    // Carries are folded back
    assert_eq!(compute_rfc1071(&[0xff, 0xff, 0x01, 0x00]), 0xfffe);
}

#[test]
fn ip_header() {
    let layer = IPv4Layer { protocol: PROTO_TCP, dst_addr: [192, 168, 1, 1] };
    let mut hdr = Vec::new();
    layer.write_header(100, &mut hdr);
    assert_eq!(hdr.len(), 20);
    assert_eq!(hdr[0], 0x54);
    assert_eq!(u16::from_le_bytes([hdr[2], hdr[3]]), 120);
    assert_eq!(hdr[8], DEFAULT_TTL);
    assert_eq!(hdr[9], PROTO_TCP);
    assert_eq!(&hdr[12..16], &[0, 0, 0, 0]);
    assert_eq!(&hdr[16..20], &[192, 168, 1, 1]);
    assert!(check_checksum(&hdr));
    let mut bad = hdr.clone();
    bad[9] = 0x11;
    assert!(!check_checksum(&bad));
    let mut zero = hdr.clone();
    zero[10] = 0;
    zero[11] = 0;
    assert_eq!(compute_rfc1071(&zero), u16::from_le_bytes([hdr[10], hdr[11]]));
}

#[test]
fn ip_transmit() {
    let payload = [1u8, 2, 3, 4, 5];
    let layer = IPv4Layer { protocol: 0x11, dst_addr: [10, 0, 0, 1] };
    let mut hdr = Vec::new();
    let list = layer.transmit(BufList::from_slice(&payload), &mut hdr);
    assert_eq!(list.len(), 25);
    assert_eq!(list.data.len(), 20);
    assert_eq!(u16::from_le_bytes([list.data[2], list.data[3]]), 25);
    assert!(check_checksum(list.data));
    assert_eq!(list.next().unwrap().data, &payload[..]);
}

#[test]
fn buf_list_push_front() {
    let a = BufList::from_slice(&b"ab"[..]);
    assert_eq!(a.len(), 2);
    let r = a.push_front(&b"cde"[..]);
    assert_eq!(r.len(), 5);
    assert_eq!(r.data, &b"cde"[..]);
    assert_eq!(r.next().map(|n| n.data), Some(&b"ab"[..]));
    assert!(r.next().unwrap().next().is_none());
}
