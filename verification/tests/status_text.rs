use wgswitch::status::{bytes_human, parse_dump, relative_seconds, IfaceDump};

fn entry<'a>(map: &'a [IfaceDump], name: &str) -> &'a IfaceDump {
    map.iter().find(|e| e.iface == name).unwrap()
}

#[test]
fn parses_interface_and_peer_lines() {
    let dump = "\
work\tprivkey\tpubkey\t51820\toff
work\tpeerpub\t(none)\t1.2.3.4:51820\t10.0.0.0/24\t1714750000\t12345\t6789\toff
home\tprivkey2\tpubkey2\t51821\toff
home\tpeerpub2\t(none)\t(none)\t10.1.0.0/24\t0\t0\t0\toff";
    let map = parse_dump(dump);
    let work = entry(&map, "work");
    let work_iface = work.interface.as_ref().unwrap();
    assert_eq!(work_iface.public_key.as_deref(), Some("pubkey"));
    assert_eq!(work_iface.listen_port, Some(51820));
    assert_eq!(work.peers.len(), 1);
    assert_eq!(work.peers[0].public_key.as_deref(), Some("peerpub"));
    assert_eq!(work.peers[0].endpoint.as_deref(), Some("1.2.3.4:51820"));
    assert_eq!(work.peers[0].last_handshake, Some(1714750000));

    let home = entry(&map, "home");
    assert!(home.peers[0].endpoint.is_none(), "(none) endpoint -> null");
    assert!(home.peers[0].last_handshake.is_none(), "0 handshake -> null");
}

#[test]
fn dump_ignores_other_lines_and_handles_crlf_and_bad_numbers() {
    let dump = "garbage\r\nwg0\tpriv\t(none)\t0\toff\r\nwg0\tp\t(none)\t(none)\t(none)\tx\t+7\t99999999999999999999\toff\n\n";
    let map = parse_dump(dump);
    assert_eq!(map.len(), 1);
    let e = &map[0];
    assert_eq!(e.iface, "wg0");
    let i = e.interface.as_ref().unwrap();
    assert!(i.public_key.is_none());
    assert!(i.listen_port.is_none(), "port 0 -> null");
    let p = &e.peers[0];
    assert!(p.public_key.is_some());
    assert!(p.allowed_ips.is_none());
    assert!(p.last_handshake.is_none());
    assert_eq!(p.rx_bytes, Some(7));
    assert!(p.tx_bytes.is_none(), "overflow -> null");
}

#[test]
fn dump_peer_before_interface_keeps_both() {
    let map = parse_dump("a\tk\t(none)\te\tips\t5\t1\t2\toff\na\tpriv\tpub\t1\toff\n");
    assert_eq!(map.len(), 1);
    assert_eq!(map[0].peers.len(), 1);
    assert_eq!(map[0].interface.as_ref().unwrap().listen_port, Some(1));
    assert!(parse_dump("").is_empty());
}

#[test]
fn bytes_human_formatting() {
    assert_eq!(bytes_human(0), "0 B");
    assert_eq!(bytes_human(512), "512 B");
    assert_eq!(bytes_human(1536), "1.50 KiB");
    assert_eq!(bytes_human(1024 * 1024 * 3), "3.00 MiB");
}

fn float_reference(n: u64) -> String {
    const K: f64 = 1024.0;
    let n = n as f64;
    if n < K {
        return format!("{} B", n as u64);
    }
    if n < K * K {
        return format!("{:.2} KiB", n / K);
    }
    if n < K * K * K {
        return format!("{:.2} MiB", n / K / K);
    }
    if n < K * K * K * K {
        return format!("{:.2} GiB", n / K / K / K);
    }
    format!("{:.2} TiB", n / K / K / K / K)
}

#[test]
fn bytes_human_agrees_with_float_formatting() {
    let mut values: Vec<u64> = vec![
        1023, 1024, 1025, 1152, 1160, 1408, 1664, 1920, 10 * 1024 + 128, 1024 * 1024 - 1,
        1024 * 1024, 1024 * 1024 * 1024 - 1, 1024 * 1024 * 1024, (1u64 << 40) - 1, 1u64 << 40,
        (1u64 << 53) - 1, 1u64 << 53, (1u64 << 53) + 1, (1u64 << 53) + 3, (1u64 << 60) + 12345,
        u64::MAX - 1, u64::MAX,
    ];
    for i in 0..5000u64 {
        values.push(i * 7919 + 1000);
        values.push(i.wrapping_mul(0x9E37_79B9_7F4A_7C15));
        values.push((i * 1024) + 128);
        values.push(i * 1024 * 1024 + 5 * 1024 * 128);
    }
    for v in values {
        assert_eq!(bytes_human(v), float_reference(v), "value {}", v);
    }
}

#[test]
fn relative_seconds_ranges() {
    assert_eq!(relative_seconds(5), "5s ago");
    assert_eq!(relative_seconds(120), "2m ago");
    assert_eq!(relative_seconds(7200), "2h ago");
    assert_eq!(relative_seconds(2 * 86400 + 5), "2d ago");
}

#[test]
fn relative_seconds_boundaries() {
    assert_eq!(relative_seconds(0), "0s ago");
    assert_eq!(relative_seconds(59), "59s ago");
    assert_eq!(relative_seconds(60), "1m ago");
    assert_eq!(relative_seconds(3599), "59m ago");
    assert_eq!(relative_seconds(3600), "1h ago");
    assert_eq!(relative_seconds(86399), "23h ago");
    assert_eq!(relative_seconds(86400), "1d ago");
}
