use loghell::storage::{new_storage, Dummy, File, InMemory, StorageError, StorageType};

fn test_storage(mut storage: InMemory) {
    let key1 = 1;
    let data1 = "asd1".as_bytes();
    let key2 = 2;
    let data2 = "asd2".as_bytes();
    let key3 = 3;
    let data3 = "asd3".as_bytes();
    let key4 = 4;
    let data4 = "asd4".as_bytes();

    storage.write(key1, data1).unwrap();
    storage.write(key2, data2).unwrap();
    storage.write(key3, data3).unwrap();
    storage.write(key4, data4).unwrap();

    assert_eq!(storage.read(key1).unwrap(), data1);
    assert_eq!(storage.read(key2).unwrap(), data2);
    assert_eq!(storage.read(key3).unwrap(), data3);
    assert_eq!(storage.read(key4).unwrap(), data4);

    let values = storage.list().unwrap();
    assert_eq!(values.len(), 4);
}

#[test]
fn test_in_memory() {
    let storage = new_storage(StorageType::InMemory.name()).unwrap();
    test_storage(storage)
}

#[test]
fn in_memory_overwrites_and_keeps_order() {
    let mut storage = InMemory::new();
    storage.write(9, b"a").unwrap();
    storage.write(2, b"b").unwrap();
    storage.write(9, b"c").unwrap();
    assert_eq!(storage.list().unwrap(), vec![(9, b"c".to_vec()), (2, b"b".to_vec())]);
    assert!(matches!(storage.read(5), Err(StorageError::NotFound)));
}

#[test]
fn storage_kinds_by_name() {
    assert_eq!(StorageType::from_name("in_memory"), StorageType::InMemory);
    assert_eq!(StorageType::from_name("file"), StorageType::File);
    assert_eq!(StorageType::from_name("disk"), StorageType::Unknown);
    assert_eq!(StorageType::File.name(), "file");
    assert!(matches!(File::new(), Err(StorageError::Unimplemented(_))));
    assert!(matches!(new_storage("file"), Err(StorageError::Unimplemented(_))));
    match new_storage("disk") {
        Err(e) => assert_eq!(e.message(), "unknown storage type: disk"),
        _ => panic!("expected an unknown backend"),
    }
}

#[test]
fn dummy_keeps_text_only() {
    let mut d = Dummy::new();
    d.store("héllo".as_bytes()).unwrap();
    assert_eq!(d.len(), 1);
    assert!(matches!(d.store(&[0xff, 0xfe]), Err(StorageError::InvalidUtf8)));
    assert_eq!(d.len(), 1);
}
