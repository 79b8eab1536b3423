use snowpack::{NodeId, MAX_NODE_ID_LEN};


#[test]
fn try_from_bytes_accepts_empty() {
    assert!(NodeId::try_from_bytes(vec![]).is_ok());
}

#[test]
fn try_from_bytes_accepts_max_length() {
    let bytes = vec![0xABu8; MAX_NODE_ID_LEN];
    let id = NodeId::try_from_bytes(bytes.clone()).unwrap();
    assert_eq!(id.as_bytes(), bytes.as_slice());
}

#[test]
fn try_from_bytes_rejects_over_max() {
    let err = NodeId::try_from_bytes(vec![0u8; MAX_NODE_ID_LEN + 1]).unwrap_err();
    assert_eq!(err.0, MAX_NODE_ID_LEN + 1);
}

#[test]
fn as_bytes_returns_original() {
    let bytes = vec![1u8, 2, 3, 4];
    let id = NodeId::try_from_bytes(bytes.clone()).unwrap();
    assert_eq!(id.as_bytes(), bytes.as_slice());
}

#[test]
fn from_u64_is_big_endian() {
    let id = NodeId::from(0x0102030405060708u64);
    assert_eq!(id.as_bytes(), &[0x01, 0x02, 0x03, 0x04, 0x05, 0x06, 0x07, 0x08]);
}

#[test]
fn from_u32_is_big_endian() {
    let id = NodeId::from(0x01020304u32);
    assert_eq!(id.as_bytes(), &[0x01, 0x02, 0x03, 0x04]);
}

#[test]
fn equality_same_bytes() {
    assert_eq!(NodeId::from(42u32), NodeId::from(42u32));
}

#[test]
fn equality_different_bytes() {
    assert_ne!(NodeId::from(1u32), NodeId::from(2u32));
}

#[test]
fn u32_and_u64_with_same_numeric_value_differ() {
    // 1u32 → 4 bytes, 1u64 → 8 bytes — must not be equal
    assert_ne!(NodeId::from(1u32), NodeId::from(1u64));
}

#[test]
fn clone_is_equal() {
    let id = NodeId::try_from_bytes(vec![5, 6]).unwrap();
    assert_eq!(id.clone(), id);
    assert_eq!(id.clone().as_bytes(), &[5, 6]);
}

#[test]
fn integers_of_one_width_give_distinct_ids() {
    assert_ne!(NodeId::from(256u64), NodeId::from(1u64));
    assert_ne!(NodeId::from(u32::MAX), NodeId::from(u32::MAX - 1));
}
