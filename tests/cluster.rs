use loghell::cluster::{decode_frame, encode_message, peer_addresses, ClusterFrame, Message};
use loghell::daemon::Daemon;
use loghell::log_storage::LogStorage;

#[test]
fn frame_encoding() {
    let f = encode_message(&Message::NewLog(b"{\"a\":1}".to_vec()));
    assert_eq!(f, b"\x01{\"a\":1}\n".to_vec());
    match decode_frame(&f) {
        ClusterFrame::NewLog(d) => assert_eq!(d, b"{\"a\":1}".to_vec()),
        _ => panic!("expected a new entry"),
    }
}

#[test]
fn frame_decoding_edges() {
    assert!(matches!(decode_frame(b""), ClusterFrame::End));
    assert!(matches!(decode_frame(b"\x07abc\n"), ClusterFrame::Unknown(7)));
    match decode_frame(b"\x01abc") {
        ClusterFrame::NewLog(d) => assert_eq!(d, b"abc".to_vec()),
        _ => panic!("expected a new entry"),
    }
}

#[test]
fn peer_address_list() {
    let got = peer_addresses("127.0.0.1:7001,,127.0.0.1:7002,");
    assert_eq!(got, vec![b"127.0.0.1:7001".to_vec(), b"127.0.0.1:7002".to_vec()]);
    assert!(peer_addresses("").is_empty());
    assert!(peer_addresses(",,").is_empty());
}

#[test]
fn cluster_replication_between_two_nodes() {
    let (mut a, a_tx) = LogStorage::new("nonsense", "in_memory").unwrap();
    let (mut b, b_tx) = LogStorage::new("nonsense", "in_memory").unwrap();
    let mut link_from_a = a_tx.subscribe();
    let mut link_from_b = b_tx.subscribe();

    let entry = br#"{"level":"warn","message":"disk"}"#;
    a.store(entry).unwrap();
    let published = link_from_a.try_recv().unwrap();
    let frame = encode_message(&Message::NewLog(published));
    match decode_frame(&frame) {
        ClusterFrame::NewLog(d) => b.replicate(&d).unwrap(),
        _ => panic!("expected a new entry"),
    }
    assert_eq!(b.find("level:warn", 0).unwrap(), vec![entry.to_vec()]);
    assert!(link_from_b.try_recv().is_err());
    assert_eq!(a.find("level:warn", 0).unwrap().len(), 1);
}

#[test]
fn daemon_keeps_address() {
    let d = Daemon::new("127.0.0.1:6669".to_string());
    assert_eq!(d.socket_addr(), "127.0.0.1:6669");
}
