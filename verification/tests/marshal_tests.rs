use tikv_bridge::host::{HostEntry, HostValue, MarshalError};
use tikv_bridge::marshal::{
    bytes_from_host, from_py_dict, from_py_dict_with_ttl, pairs_to_host_dict, to_py_bytes,
    to_py_execption, to_py_int, to_py_key_list, to_py_kv_list,
};
use tikv_bridge::store::KvPair;

fn k(s: &[u8]) -> Vec<u8> {
    s.to_vec()
}

#[test]
fn bytes_round_trip_identity() {
    for b in [k(b""), k(b"\x00\xffbinary"), k(b"plain"), vec![0u8; 1024]] {
        let host = to_py_bytes(b.clone());
        assert_eq!(bytes_from_host(host), Ok(b));
    }
}

#[test]
fn bytes_from_non_bytes_is_a_type_mismatch() {
    assert_eq!(bytes_from_host(HostValue::Int(5)), Err(MarshalError::NotBytes));
    assert_eq!(bytes_from_host(HostValue::Nothing), Err(MarshalError::NotBytes));
}

#[test]
fn int_projects_by_value() {
    assert!(matches!(to_py_int(0), HostValue::Int(0)));
    assert!(matches!(to_py_int(u64::MAX), HostValue::Int(u64::MAX)));
}

#[test]
fn exception_carries_text_verbatim() {
    let e = to_py_execption("connection refused: region 7");
    assert_eq!(e.message, "connection refused: region 7");
    let e = to_py_execption("");
    assert_eq!(e.message, "");
}

#[test]
fn key_list_keeps_order() {
    let lst = to_py_key_list(vec![k(b"b"), k(b"a"), k(b"b")]);
    match lst {
        HostValue::List(items) => {
            assert_eq!(items.len(), 3);
            assert!(matches!(&items[0], HostValue::Bytes(b) if b == &k(b"b")));
            assert!(matches!(&items[1], HostValue::Bytes(b) if b == &k(b"a")));
            assert!(matches!(&items[2], HostValue::Bytes(b) if b == &k(b"b")));
        },
        _ => panic!("expected a host list"),
    }
}

#[test]
fn kv_list_keeps_order_and_duplicates() {
    let pairs = vec![
        KvPair { key: k(b"k1"), value: k(b"v1") },
        KvPair { key: k(b"k1"), value: k(b"v2") },
    ];
    match to_py_kv_list(pairs) {
        HostValue::List(items) => {
            assert_eq!(items.len(), 2);
            match &items[1] {
                HostValue::Tuple(t) => {
                    assert_eq!(t.len(), 2);
                    assert!(matches!(&t[0], HostValue::Bytes(b) if b == &k(b"k1")));
                    assert!(matches!(&t[1], HostValue::Bytes(b) if b == &k(b"v2")));
                },
                _ => panic!("expected a host pair"),
            }
        },
        _ => panic!("expected a host list"),
    }
}

#[test]
fn dict_extraction_in_insertion_order() {
    let entries = vec![
        HostEntry { key: HostValue::Bytes(k(b"z")), value: HostValue::Bytes(k(b"1")) },
        HostEntry { key: HostValue::Bytes(k(b"a")), value: HostValue::Bytes(k(b"2")) },
    ];
    let pairs = from_py_dict(entries).unwrap();
    assert_eq!(pairs.len(), 2);
    assert_eq!(pairs[0].key, k(b"z"));
    assert_eq!(pairs[0].value, k(b"1"));
    assert_eq!(pairs[1].key, k(b"a"));
    assert_eq!(pairs[1].value, k(b"2"));
}

#[test]
fn dict_extraction_flags_first_bad_key() {
    let entries = vec![
        HostEntry { key: HostValue::Bytes(k(b"a")), value: HostValue::Bytes(k(b"1")) },
        HostEntry { key: HostValue::Int(3), value: HostValue::Bytes(k(b"2")) },
        HostEntry { key: HostValue::Int(4), value: HostValue::Int(5) },
    ];
    assert_eq!(from_py_dict(entries), Err(MarshalError::KeyNotBytes { index: 1 }));
}

#[test]
fn dict_extraction_flags_first_bad_value() {
    let entries = vec![
        HostEntry { key: HostValue::Bytes(k(b"a")), value: HostValue::Int(1) },
    ];
    assert_eq!(from_py_dict(entries), Err(MarshalError::ValueNotBytes { index: 0 }));
}

#[test]
fn ttl_dict_extraction() {
    let entries = vec![HostEntry {
        key: HostValue::Bytes(k(b"a")),
        value: HostValue::Tuple(vec![HostValue::Bytes(k(b"v")), HostValue::Int(60)]),
    }];
    let pairs = from_py_dict_with_ttl(entries).unwrap();
    assert_eq!(pairs.len(), 1);
    assert_eq!(pairs[0].0.key, k(b"a"));
    assert_eq!(pairs[0].0.value, k(b"v"));
    assert_eq!(pairs[0].1, 60);
}

#[test]
fn ttl_dict_rejects_non_pair_value() {
    let entries = vec![HostEntry {
        key: HostValue::Bytes(k(b"a")),
        value: HostValue::Bytes(k(b"v")),
    }];
    assert_eq!(from_py_dict_with_ttl(entries), Err(MarshalError::ValueNotPair { index: 0 }));
}

#[test]
fn ttl_dict_rejects_wrong_arity() {
    let entries = vec![HostEntry {
        key: HostValue::Bytes(k(b"a")),
        value: HostValue::Tuple(vec![HostValue::Bytes(k(b"v"))]),
    }];
    assert_eq!(from_py_dict_with_ttl(entries), Err(MarshalError::ValueNotPair { index: 0 }));
}

#[test]
fn ttl_dict_rejects_non_integer_ttl() {
    let entries = vec![HostEntry {
        key: HostValue::Bytes(k(b"a")),
        value: HostValue::Tuple(vec![HostValue::Bytes(k(b"v")), HostValue::Bytes(k(b"60"))]),
    }];
    assert_eq!(from_py_dict_with_ttl(entries), Err(MarshalError::TtlNotInt { index: 0 }));
}

#[test]
fn ttl_dict_rejects_non_bytes_first_element() {
    let entries = vec![HostEntry {
        key: HostValue::Bytes(k(b"a")),
        value: HostValue::Tuple(vec![HostValue::Int(9), HostValue::Int(60)]),
    }];
    assert_eq!(from_py_dict_with_ttl(entries), Err(MarshalError::ValueNotBytes { index: 0 }));
}

#[test]
fn marshal_error_messages() {
    assert_eq!(
        MarshalError::KeyNotBytes { index: 0 }.message(),
        "dictionary key is not a byte string"
    );
    assert_eq!(MarshalError::NotBytes.message(), "value is not a byte string");
}

#[test]
fn mapping_round_trip_with_distinct_keys() {
    let pairs = vec![
        KvPair { key: k(b"k2"), value: k(b"v2") },
        KvPair { key: k(b"k1"), value: k(b"v1") },
        KvPair { key: k(b"k3"), value: k(b"v3") },
    ];
    let dict = pairs_to_host_dict(&pairs);
    assert_eq!(dict.len(), 3);
    let back = from_py_dict(dict).unwrap();
    assert_eq!(back.len(), 3);
    for (orig, got) in pairs.iter().zip(back.iter()) {
        assert_eq!(orig.key, got.key);
        assert_eq!(orig.value, got.value);
    }
}

#[test]
fn mapping_insertion_overwrites_in_place() {
    // a later duplicate key overwrites the value but keeps the position
    let pairs = vec![
        KvPair { key: k(b"a"), value: k(b"1") },
        KvPair { key: k(b"b"), value: k(b"2") },
        KvPair { key: k(b"a"), value: k(b"3") },
    ];
    let dict = pairs_to_host_dict(&pairs);
    assert_eq!(dict.len(), 2);
    assert!(matches!(&dict[0].key, HostValue::Bytes(b) if b == &k(b"a")));
    assert!(matches!(&dict[0].value, HostValue::Bytes(b) if b == &k(b"3")));
    assert!(matches!(&dict[1].key, HostValue::Bytes(b) if b == &k(b"b")));
    assert!(matches!(&dict[1].value, HostValue::Bytes(b) if b == &k(b"2")));
}
