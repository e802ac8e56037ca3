use loghell::index::{entry_pairs_of, new_index, IndexError, IndexType, NonsenseIndex};
use loghell::shared;

const LOG1: &str = r#"{"level":"debug","message":"test-1","vars":{"id":1}}"#;
const LOG2: &str = r#"{"level":"info","message":"test-2","vars":{"id":2}}"#;
const LOG3: &str = r#"{"level":"error","message":"test-3","vars":{"id":3}}"#;
const LOG4: &str = r#"{"level":"debug","message":"test-4","vars":{"id":4}}"#;

fn fill_index(index: &mut NonsenseIndex) {
    index.index(1, LOG1.as_bytes()).unwrap();
    index.index(2, LOG2.as_bytes()).unwrap();
    index.index(3, LOG3.as_bytes()).unwrap();
    index.index(4, LOG4.as_bytes()).unwrap();
}

fn test_index(index: &NonsenseIndex) {
    {
        let find_res = index.find("level:debug", 0);
        assert!(find_res.is_ok());
        let entries = find_res.unwrap();
        assert_eq!(2, entries.len());
        if entries[0] != 1 && entries[0] != 4 {
            unreachable!()
        }
        if entries[1] != 1 && entries[1] != 4 {
            unreachable!()
        }
    }
    {
        let find_res = index.find("level:info", 0);
        assert!(find_res.is_ok());
        let entries = find_res.unwrap();
        assert_eq!(1, entries.len());
        assert_eq!(2, entries[0]);
    }
    {
        let find_res = index.find("level:error", 0);
        assert!(find_res.is_ok());
        let entries = find_res.unwrap();
        assert_eq!(1, entries.len());
        assert_eq!(3, entries[0]);
    }
    {
        let find_res = index.find("level:unknown", 0);
        assert!(find_res.is_err());
    }
}

fn test_nested_objects(index: &NonsenseIndex) {
    let find_res = index.find("vars.id:1", 0);
    assert!(find_res.is_ok());
    let entries = find_res.unwrap();
    assert_eq!(1, entries.len());
    assert_eq!(1, entries[0]);
}

fn test_skip(index: &NonsenseIndex) {
    let entries = index.find("level:debug", 0).unwrap();
    assert_eq!(2, entries.len());
    let entries = index.find("level:debug", shared::now_as_nanos_u64().unwrap()).unwrap();
    assert_eq!(0, entries.len());
}

#[test]
fn test_nonsense() {
    let mut index = new_index(IndexType::Nonsense.name()).unwrap();
    fill_index(&mut index);
    test_index(&index);
    {
        let res = index.index(5, r#"0"#.as_bytes());
        assert!(res.is_err());
        assert_eq!(
            res.unwrap_err().message(),
            "failed to decode data: nonsense storage can't work without objects"
        );
    }
    test_nested_objects(&index);
    test_skip(&index);
}

#[test]
fn index_records_keys_in_order() {
    let mut index = NonsenseIndex::new();
    index.index_at(7, br#"{"a":"x"}"#, 100).unwrap();
    index.index_at(3, br#"{"a":"x"}"#, 200).unwrap();
    index.index_at(9, br#"{"a":"y"}"#, 300).unwrap();
    assert_eq!(index.find("a:x", 0).unwrap(), vec![7, 3]);
    assert_eq!(index.find("a:x", 150).unwrap(), vec![3]);
    assert_eq!(index.find("a:x", 200).unwrap(), vec![3]);
    assert_eq!(index.find("a:x", 201).unwrap(), Vec::<u64>::new());
    assert_eq!(index.find("a:y", 0).unwrap(), vec![9]);
}

#[test]
fn index_unknown_field_or_value_is_not_found() {
    let mut index = NonsenseIndex::new();
    index.index_at(1, br#"{"a":"x"}"#, 5).unwrap();
    assert!(matches!(index.find("b:x", 0), Err(IndexError::NotFound)));
    assert!(matches!(index.find("a:z", 0), Err(IndexError::NotFound)));
    // A known pair whose facts are all older than the watermark is no error.
    assert_eq!(index.find("a:x", 6).unwrap(), Vec::<u64>::new());
}

#[test]
fn index_query_syntax() {
    let index = NonsenseIndex::new();
    assert!(matches!(index.find("level", 0), Err(IndexError::QuerySyntax)));
    assert!(matches!(index.find("a:b:c", 0), Err(IndexError::NotFound)));
    assert!(matches!(index.find("", 0), Err(IndexError::QuerySyntax)));
    assert!(matches!(index.find(":", 0), Err(IndexError::NotFound)));
}

#[test]
fn index_rejects_malformed_json_unchanged() {
    let mut index = NonsenseIndex::new();
    let res = index.index_at(1, b"{not json", 1);
    assert!(matches!(res, Err(IndexError::DecodeData(_))));
    let res = index.index_at(2, b"[1,2]", 1);
    match res {
        Err(IndexError::DecodeData(m)) => {
            assert_eq!(m, "nonsense storage can't work without objects")
        }
        _ => panic!("expected a decode error"),
    }
    assert!(matches!(index.find("0:1", 0), Err(IndexError::NotFound)));
}

#[test]
fn entry_pairs_flatten_one_level() {
    let pairs = entry_pairs_of(br#"{"b":{"d":"y","c":1},"a":"x","n":{"m":{"k":2}},"t":true}"#)
        .unwrap();
    let text: Vec<(String, String)> = pairs
        .into_iter()
        .map(|(f, v)| (String::from_utf8(f).unwrap(), String::from_utf8(v).unwrap()))
        .collect();
    assert_eq!(
        text,
        vec![
            ("a".to_string(), "x".to_string()),
            ("b.c".to_string(), "1".to_string()),
            ("b.d".to_string(), "y".to_string()),
            ("n.m".to_string(), "{k:2}".to_string()),
            ("t".to_string(), "true".to_string()),
        ]
    );
}

#[test]
fn entry_pairs_strip_quotes_of_compact_text() {
    let pairs = entry_pairs_of(br#"{"q":"say \"hi\"","l":[1, "a"],"z":null}"#).unwrap();
    let text: Vec<(String, String)> = pairs
        .into_iter()
        .map(|(f, v)| (String::from_utf8(f).unwrap(), String::from_utf8(v).unwrap()))
        .collect();
    assert_eq!(
        text,
        vec![
            ("l".to_string(), "[1,a]".to_string()),
            ("q".to_string(), "say \\hi\\".to_string()),
            ("z".to_string(), "null".to_string()),
        ]
    );
}

#[test]
fn index_nested_and_top_level_queries() {
    let mut index = NonsenseIndex::new();
    index.index_at(1, br#"{"req":{"path":"/a","code":200},"level":"info"}"#, 1).unwrap();
    assert_eq!(index.find("req.path:/a", 0).unwrap(), vec![1]);
    assert_eq!(index.find("req.code:200", 0).unwrap(), vec![1]);
    assert!(matches!(index.find("req:{}", 0), Err(IndexError::NotFound)));
    assert!(matches!(index.find("req:{code:200,path:/a}", 0), Err(IndexError::NotFound)));
}

#[test]
fn index_kinds_by_name() {
    assert_eq!(IndexType::from_name("nonsense"), IndexType::Nonsense);
    assert_eq!(IndexType::from_name("tantivy"), IndexType::Tantivy);
    assert_eq!(IndexType::from_name("other"), IndexType::Unknown);
    assert_eq!(IndexType::Unknown.name(), "unknown");
    assert_eq!(IndexType::Tantivy.name(), "tantivy");
    match new_index("tantivy") {
        Err(IndexError::Unimplemented(n)) => assert_eq!(n, "tantivy"),
        _ => panic!("expected an unimplemented backend"),
    }
    match new_index("btree") {
        Err(e) => assert_eq!(e.message(), "unknown index type: btree"),
        _ => panic!("expected an unknown backend"),
    }
}

#[test]
fn index_value_with_colons() {
    let mut index = NonsenseIndex::new();
    index.index_at(1, br#"{"at":"12:30","ref":{"url":"http://x:80/a"}}"#, 1).unwrap();
    assert_eq!(index.find("at:12:30", 0).unwrap(), vec![1]);
    assert_eq!(index.find("ref.url:http://x:80/a", 0).unwrap(), vec![1]);
    assert!(matches!(index.find("at:12", 0), Err(IndexError::NotFound)));
}
