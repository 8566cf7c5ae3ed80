use lsm_storage::property::{EdgePropertyKey, PropertyKeyError, VertexPropertyKey};

#[test]
fn test_vertex_property_key_encode_decode() {
    let key = VertexPropertyKey::new(12345, "age".to_string());
    let encoded = key.encode();
    let decoded = VertexPropertyKey::decode(&encoded).unwrap();

    assert_eq!(key, decoded);
    assert_eq!(decoded.property_name, "age");
    assert_eq!(decoded.vertex_id, 12345);
}

#[test]
fn test_edge_property_key_encode_decode() {
    let key = EdgePropertyKey::new(100, 200, "weight".to_string());
    let encoded = key.encode();
    let decoded = EdgePropertyKey::decode(&encoded).unwrap();

    assert_eq!(key, decoded);
    assert_eq!(decoded.property_name, "weight");
    assert_eq!(decoded.source_id, 100);
    assert_eq!(decoded.destination_id, 200);
}

#[test]
fn test_vertex_property_prefix() {
    let prefix = VertexPropertyKey::prefix(12345);

    let key1 = VertexPropertyKey::new(12345, "age".to_string()).encode();
    let key2 = VertexPropertyKey::new(12345, "name".to_string()).encode();
    let key3 = VertexPropertyKey::new(99999, "age".to_string()).encode();

    assert!(key1.starts_with(&prefix));
    assert!(key2.starts_with(&prefix));
    assert!(!key3.starts_with(&prefix));
}

#[test]
fn test_edge_property_prefix() {
    let prefix = EdgePropertyKey::prefix(100, 200);

    let key1 = EdgePropertyKey::new(100, 200, "weight".to_string()).encode();
    let key2 = EdgePropertyKey::new(100, 200, "label".to_string()).encode();
    let key3 = EdgePropertyKey::new(100, 999, "weight".to_string()).encode();

    assert!(key1.starts_with(&prefix));
    assert!(key2.starts_with(&prefix));
    assert!(!key3.starts_with(&prefix));
}

#[test]
fn test_lexicographic_ordering() {
    let key1 = VertexPropertyKey::new(100, "aaa".to_string()).encode();
    let key2 = VertexPropertyKey::new(100, "zzz".to_string()).encode();
    let key3 = VertexPropertyKey::new(200, "aaa".to_string()).encode();

    assert!(key1 < key2);
    assert!(key2 < key3);

    let ekey1 = EdgePropertyKey::new(100, 200, "aaa".to_string()).encode();
    let ekey2 = EdgePropertyKey::new(100, 200, "zzz".to_string()).encode();
    let ekey3 = EdgePropertyKey::new(100, 300, "aaa".to_string()).encode();
    let ekey4 = EdgePropertyKey::new(200, 100, "aaa".to_string()).encode();

    assert!(ekey1 < ekey2);
    assert!(ekey2 < ekey3);
    assert!(ekey3 < ekey4);
}

#[test]
fn test_property_key_bytes() {
    assert_eq!(
        VertexPropertyKey::new(0x01020304, "all".to_string()).encode(),
        vec![1, 2, 3, 4, 0, 3, b'a', b'l', b'l']
    );
    assert_eq!(
        EdgePropertyKey::new(1, 2, "x".to_string()).encode(),
        vec![0, 0, 0, 1, 0, 0, 0, 2, 0, 1, b'x']
    );
}

#[test]
fn test_property_key_errors() {
    assert_eq!(VertexPropertyKey::decode(&[0, 0, 0]).err(), Some(PropertyKeyError::TooShort));
    assert_eq!(VertexPropertyKey::decode(&[0, 0, 0, 1, 0, 2, b'a']).err(), Some(PropertyKeyError::BadLength));
    assert_eq!(VertexPropertyKey::decode(&[0, 0, 0, 1, 0, 1, 0xff]).err(), Some(PropertyKeyError::BadUtf8));
    assert_eq!(EdgePropertyKey::decode(&[0; 9]).err(), Some(PropertyKeyError::TooShort));
}
