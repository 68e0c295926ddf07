use anytls::settings::{StringMap, StringMapExt};

#[test]
fn settings_round_trip() {
    let mut m = StringMap::new();
    m.insert(b"v".to_vec(), b"2".to_vec());
    m.insert(b"client".to_vec(), b"anytls".to_vec());
    m.insert(b"padding-md5".to_vec(), b"0123456789abcdef0123456789abcdef".to_vec());
    let bytes = m.to_bytes();
    let back = StringMap::from_bytes(&bytes);
    assert_eq!(back.len(), 3);
    assert_eq!(back.get(b"v"), Some(b"2".to_vec()));
    assert_eq!(back.get(b"client"), Some(b"anytls".to_vec()));
    assert_eq!(
        back.get(b"padding-md5"),
        Some(b"0123456789abcdef0123456789abcdef".to_vec())
    );
}

#[test]
fn settings_serialize_no_trailing_newline() {
    let mut m = StringMap::new();
    m.insert(b"a".to_vec(), b"1".to_vec());
    m.insert(b"b".to_vec(), b"2".to_vec());
    assert_eq!(m.to_bytes(), b"a=1\nb=2".to_vec());
    let empty = StringMap::new();
    assert_eq!(empty.to_bytes(), Vec::<u8>::new());
}

#[test]
fn settings_parse_skips_bad_lines() {
    let m = StringMap::from_bytes(b"a=1\n\nnoequals\nb=2");
    assert_eq!(m.len(), 2);
    assert_eq!(m.get(b"a"), Some(b"1".to_vec()));
    assert_eq!(m.get(b"b"), Some(b"2".to_vec()));
    assert_eq!(m.get(b"noequals"), None);
}

#[test]
fn settings_parse_duplicate_key_keeps_last() {
    let m = StringMap::from_bytes(b"k=old\nk=new");
    assert_eq!(m.len(), 1);
    assert_eq!(m.get(b"k"), Some(b"new".to_vec()));
}

#[test]
fn settings_insert_replaces_in_place() {
    let mut m = StringMap::new();
    m.insert(b"x".to_vec(), b"1".to_vec());
    m.insert(b"y".to_vec(), b"2".to_vec());
    m.insert(b"x".to_vec(), b"3".to_vec());
    assert_eq!(m.len(), 2);
    assert_eq!(m.to_bytes(), b"x=3\ny=2".to_vec());
}

#[test]
fn settings_parse_empty_body() {
    let m = StringMap::from_bytes(b"");
    assert!(m.is_empty());
}
