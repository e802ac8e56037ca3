use loghell::bytes::decimal_text;
use loghell::index::IndexError;
use loghell::log_storage::EngineError;
use loghell::storage::StorageError;
use loghell::protocol::{
    classify, dashboard_response, events_batch, events_idle, frame_step, ingest_step, Frame, Step,
};

#[test]
fn classify_dashboard_ignores_rest() {
    let f = classify(b"GET / HTTP/1.1\r\nHost: x\r\n\r\ncluster>{\"a\":1}\n");
    assert!(matches!(f, Frame::Dashboard));
    assert_eq!(frame_step(&f), Step::Close);
}

#[test]
fn classify_requests_and_greeting() {
    assert!(matches!(classify(b"GET /events HTTP/1.1\r\n"), Frame::Events));
    assert!(matches!(classify(b"GET /health HTTP/1.1\r\n"), Frame::Health));
    assert!(matches!(classify(b"cluster>"), Frame::Cluster));
    assert!(matches!(classify(b"cluster>\n"), Frame::Cluster));
    assert!(matches!(classify(b"GET /other HTTP/1.1\r\n"), Frame::Log(_)));
}

#[test]
fn classify_close_frames() {
    assert!(matches!(classify(b""), Frame::Closed));
    assert!(matches!(classify(&[255, 244, 255, 253, 6]), Frame::Interrupted));
    assert!(matches!(classify(&[255, 244, 255, 253, 6, 0]), Frame::NotText));
}

#[test]
fn classify_log_lines() {
    match classify(b"{\"level\":\"info\"}\n") {
        Frame::Log(l) => assert_eq!(l, b"{\"level\":\"info\"}".to_vec()),
        _ => panic!("expected a log line"),
    }
    match classify(b"plain") {
        Frame::Log(l) => assert_eq!(l, b"plain".to_vec()),
        _ => panic!("expected a log line"),
    }
    let f = classify(b"x\n");
    assert_eq!(frame_step(&f), Step::Continue);
    assert_eq!(frame_step(&classify(&[0xff, 10])), Step::Continue);
    assert_eq!(frame_step(&classify(b"")), Step::Close);
    assert_eq!(frame_step(&classify(b"GET /health HTTP/1.1\r\n")), Step::Close);
    assert!(matches!(classify(&[0xc3, 0x28, 10]), Frame::NotText));
}

#[test]
fn dashboard_response_has_length() {
    assert_eq!(
        dashboard_response(b"<p>hi</p>"),
        b"HTTP/1.1 200 OK\r\nContent-Length: 9\r\n\r\n<p>hi</p>".to_vec()
    );
    assert_eq!(dashboard_response(b""), b"HTTP/1.1 200 OK\r\nContent-Length: 0\r\n\r\n".to_vec());
}

#[test]
fn decimal_digits() {
    assert_eq!(decimal_text(0), b"0".to_vec());
    assert_eq!(decimal_text(7), b"7".to_vec());
    assert_eq!(decimal_text(1024), b"1024".to_vec());
    assert_eq!(decimal_text(usize::MAX), usize::MAX.to_string().into_bytes());
}

#[test]
fn events_batches() {
    assert_eq!(events_batch(&vec![]), b"check>\n".to_vec());
    assert_eq!(events_batch(&vec![b"a".to_vec(), b"bc".to_vec()]), b"a\nbc\ncheck>\n".to_vec());
    assert!(events_idle(0));
    assert!(!events_idle(2));
}

#[test]
fn ingest_outcomes() {
    assert_eq!(ingest_step(&Ok(())), Step::Continue);
    let bad = Err(EngineError::Index(IndexError::DecodeData("x".to_string())));
    assert_eq!(ingest_step(&bad), Step::Continue);
    let clock = Err(EngineError::Index(IndexError::Internal("clock".to_string())));
    assert_eq!(ingest_step(&clock), Step::Fail);
    let lost = Err(EngineError::Storage(StorageError::NotFound));
    assert_eq!(ingest_step(&lost), Step::Fail);
}
