use loghell::index::IndexError;
use loghell::log_storage::{should_publish, EngineError, LogStorage};
use loghell::shared;
use loghell::storage::{InMemory, StorageError};

const M1: &str = r#"{"level":"debug","message":"m1"}"#;
const M2: &str = r#"{"level":"info","message":"m2"}"#;
const M3: &str = r#"{"level":"error","message":"m3"}"#;
const M4: &str = r#"{"level":"debug","message":"m4"}"#;

fn engine() -> LogStorage {
    LogStorage::new("nonsense", "in_memory").unwrap().0
}

#[test]
fn engine_scenario_level_debug() {
    let mut s = engine();
    for m in [M1, M2, M3, M4] {
        s.store(m.as_bytes()).unwrap();
    }
    let found = s.find("level:debug", 0).unwrap();
    assert_eq!(found, vec![M1.as_bytes().to_vec(), M4.as_bytes().to_vec()]);
    assert_eq!(s.find("level:unknown", 0).unwrap(), Vec::<Vec<u8>>::new());
    assert_eq!(s.find("message:m3", 0).unwrap(), vec![M3.as_bytes().to_vec()]);
}

#[test]
fn engine_stored_entry_found_by_each_pair() {
    let mut s = engine();
    let e = r#"{"svc":"api","ctx":{"user":"u1","n":3},"ok":false}"#;
    s.store(e.as_bytes()).unwrap();
    for q in ["svc:api", "ctx.user:u1", "ctx.n:3", "ok:false"] {
        assert_eq!(s.find(q, 0).unwrap(), vec![e.as_bytes().to_vec()], "query {}", q);
    }
}

#[test]
fn engine_watermark() {
    let mut s = engine();
    s.store_at(1, M1.as_bytes(), 10).unwrap();
    s.store_at(2, M4.as_bytes(), 20).unwrap();
    assert_eq!(s.find("level:debug", 0).unwrap().len(), 2);
    assert_eq!(s.find("level:debug", 11).unwrap(), vec![M4.as_bytes().to_vec()]);
    assert_eq!(s.find("level:debug", 20).unwrap(), vec![M4.as_bytes().to_vec()]);
    assert_eq!(s.find("level:debug", 21).unwrap(), Vec::<Vec<u8>>::new());
    s.store(M1.as_bytes()).unwrap();
    let later = shared::now_as_nanos_u64().unwrap() + 1;
    assert_eq!(s.find("level:debug", later).unwrap(), Vec::<Vec<u8>>::new());
}

#[test]
fn engine_unknown_field_is_empty_not_error() {
    let mut s = engine();
    assert_eq!(s.find("nothing:here", 0).unwrap(), Vec::<Vec<u8>>::new());
    s.store(M2.as_bytes()).unwrap();
    assert_eq!(s.find("nothing:here", 0).unwrap(), Vec::<Vec<u8>>::new());
    assert_eq!(s.find("level:trace", 0).unwrap(), Vec::<Vec<u8>>::new());
    assert!(matches!(s.find("level", 0), Err(EngineError::Index(IndexError::QuerySyntax))));
}

#[test]
fn engine_restore_from_filled_storage() {
    let mut storage = InMemory::new();
    storage.write(11, M1.as_bytes()).unwrap();
    storage.write(12, M2.as_bytes()).unwrap();
    storage.write(13, M4.as_bytes()).unwrap();
    let (s, _) = LogStorage::with_storage("nonsense", storage).unwrap();
    assert_eq!(
        s.find("level:debug", 0).unwrap(),
        vec![M1.as_bytes().to_vec(), M4.as_bytes().to_vec()]
    );
    assert_eq!(s.find("message:m2", 0).unwrap(), vec![M2.as_bytes().to_vec()]);
}

#[test]
fn engine_restore_fails_on_non_object() {
    let mut storage = InMemory::new();
    storage.write(1, M1.as_bytes()).unwrap();
    storage.write(2, b"0").unwrap();
    assert!(matches!(
        LogStorage::with_storage("nonsense", storage),
        Err(EngineError::Index(IndexError::DecodeData(_)))
    ));
}

#[test]
fn engine_rejects_non_object_entry() {
    let mut s = engine();
    match s.store(b"0") {
        Err(e) => assert_eq!(
            e.message(),
            "failed to decode data: nonsense storage can't work without objects"
        ),
        Ok(()) => panic!("a bare number must be refused"),
    }
    assert!(matches!(s.store(b"{broken"), Err(EngineError::Index(IndexError::DecodeData(_)))));
    assert_eq!(s.find(":0", 0).unwrap(), Vec::<Vec<u8>>::new());
    assert_eq!(s.find("0:", 0).unwrap(), Vec::<Vec<u8>>::new());
}

#[test]
fn engine_backend_names() {
    assert!(matches!(
        LogStorage::new("tantivy", "in_memory"),
        Err(EngineError::Index(IndexError::Unimplemented(_)))
    ));
    assert!(matches!(
        LogStorage::new("nonsense", "file"),
        Err(EngineError::Storage(StorageError::Unimplemented(_)))
    ));
    assert!(matches!(
        LogStorage::new("nonsense", "tape"),
        Err(EngineError::Storage(StorageError::UnknownStorageType(_)))
    ));
}

#[test]
fn engine_publishes_to_subscribers() {
    let (mut s, tx) = LogStorage::new("nonsense", "in_memory").unwrap();
    s.store(M1.as_bytes()).unwrap();
    let mut rx = tx.subscribe();
    s.store(M2.as_bytes()).unwrap();
    assert_eq!(rx.try_recv().unwrap(), M2.as_bytes().to_vec());
    assert!(rx.try_recv().is_err());
    s.replicate(M3.as_bytes()).unwrap();
    assert!(rx.try_recv().is_err());
    assert_eq!(s.find("message:m3", 0).unwrap(), vec![M3.as_bytes().to_vec()]);
}

#[test]
fn publish_only_with_subscribers() {
    assert!(!should_publish(0));
    assert!(should_publish(1));
    assert!(should_publish(7));
}

#[test]
fn clock_reads_nanoseconds() {
    let now = shared::now_as_nanos_u64().unwrap();
    assert!(now > 1_600_000_000_000_000_000);
    assert_eq!(shared::nanos_to_u64(42).unwrap(), 42);
    assert!(shared::nanos_to_u64(u64::MAX as u128 + 1).is_err());
}

#[test]
fn engine_error_texts() {
    let s = engine();
    match s.find("leveldebug", 0) {
        Err(e) => assert_eq!(e.message(), "invalid query syntax"),
        Ok(_) => panic!("a query without a colon must be refused"),
    }
    match LogStorage::new("bogus", "in_memory") {
        Err(e) => assert_eq!(e.message(), "unknown index type: bogus"),
        Ok(_) => panic!("an unknown index must be refused"),
    }
    match LogStorage::new("nonsense", "bogus") {
        Err(e) => assert_eq!(e.message(), "unknown storage type: bogus"),
        Ok(_) => panic!("an unknown storage must be refused"),
    }
    match LogStorage::new("nonsense", "file") {
        Err(e) => assert_eq!(e.message(), "storage type is not implemented: file"),
        Ok(_) => panic!("file storage has no implementation"),
    }
}

#[test]
fn engine_nested_float_value() {
    let mut s = engine();
    let e = br#"{"m":{"x":1.5,"y":-2e3}}"#;
    s.store(e).unwrap();
    assert_eq!(s.find("m.x:1.5", 0).unwrap(), vec![e.to_vec()]);
    assert_eq!(s.find("m.y:-2000.0", 0).unwrap(), vec![e.to_vec()]);
}

#[test]
fn engine_value_with_colon_on_a_replica() {
    let mut a = engine();
    let mut b = engine();
    let e = br#"{"time":"12:30:01","who":{"host":"db:5432"}}"#;
    a.store(e).unwrap();
    b.replicate(e).unwrap();
    for s in [&a, &b] {
        assert_eq!(s.find("time:12:30:01", 0).unwrap(), vec![e.to_vec()]);
        assert_eq!(s.find("who.host:db:5432", 0).unwrap(), vec![e.to_vec()]);
    }
}

#[test]
fn engine_store_without_receivers_is_ok() {
    let (mut s, tx) = LogStorage::new("nonsense", "in_memory").unwrap();
    let rx = tx.subscribe();
    drop(rx);
    s.store(M1.as_bytes()).unwrap();
    assert_eq!(s.find("message:m1", 0).unwrap().len(), 1);
}
