use contracts_query::probe::BlockInfo;
use contracts_query::scale::{decode_storage_version, decode_timestamp_millis};
use contracts_query::QueryError;

fn encode_version(v: u16) -> Vec<u8> {
    vec![(v & 0xff) as u8, (v >> 8) as u8]
}

fn synthetic_hash(n: u32) -> Vec<u8> {
    let mut h = vec![0u8; 32];
    h[0] = (n & 0xff) as u8;
    h[1] = ((n >> 8) & 0xff) as u8;
    h
}

/// Builds the snapshot the probe would assemble for block `n` under a
/// synthetic state function.
fn probe(n: u32, f: impl Fn(u32) -> (u16, bool)) -> BlockInfo {
    let (version, flag) = f(n);
    let migration_slot = if flag { Some(vec![]) } else { None };
    BlockInfo::from_reads(n, synthetic_hash(n), Some(encode_version(version)), migration_slot)
        .unwrap()
}

#[test]
fn version_decoding() {
    assert_eq!(decode_storage_version(&vec![8, 0]), Ok(8));
    assert_eq!(decode_storage_version(&vec![0x34, 0x12]), Ok(0x1234));
    assert_eq!(decode_storage_version(&vec![0xff, 0xff]), Ok(0xffff));
    // Trailing bytes are tolerated.
    assert_eq!(decode_storage_version(&vec![1, 0, 99]), Ok(1));
    assert_eq!(decode_storage_version(&vec![5]), Err(QueryError::DecodeFailure));
    assert_eq!(decode_storage_version(&vec![]), Err(QueryError::DecodeFailure));
}

#[test]
fn timestamp_decoding() {
    let millis: u64 = 1_687_164_912_123;
    let bytes = millis.to_le_bytes().to_vec();
    assert_eq!(decode_timestamp_millis(&bytes), Ok(millis));
    assert_eq!(decode_timestamp_millis(&vec![1, 2, 3]), Err(QueryError::DecodeFailure));
    let mut trailing = bytes.clone();
    trailing.push(0xaa);
    assert_eq!(decode_timestamp_millis(&trailing), Ok(millis));
}

#[test]
fn probe_consistency() {
    // For a fixed synthetic state function, the probe reports exactly its
    // value at every block of the domain.
    let f = |n: u32| -> (u16, bool) {
        if n < 10 {
            (3, false)
        } else if n < 20 {
            (4, true)
        } else {
            (4, false)
        }
    };
    for n in 0..40u32 {
        let info = probe(n, f);
        let (version, flag) = f(n);
        assert_eq!(info.block_number, n);
        assert_eq!(info.version, version);
        assert_eq!(info.migration_in_progress, flag);
        assert_eq!(info.block_hash, synthetic_hash(n));
    }
}

#[test]
fn probe_missing_version_slot() {
    let r = BlockInfo::from_reads(7, synthetic_hash(7), None, None);
    assert!(matches!(r, Err(QueryError::NotFound)));
}

#[test]
fn probe_short_version_slot() {
    let r = BlockInfo::from_reads(7, synthetic_hash(7), Some(vec![9]), None);
    assert!(matches!(r, Err(QueryError::DecodeFailure)));
}

#[test]
fn state_equivalence() {
    let a = probe(100, |_| (8, true));
    let b = probe(250, |_| (8, true));
    let c = probe(100, |_| (8, false));
    let d = probe(100, |_| (9, true));
    assert!(a.matching_migration_info(&b));
    assert!(b.matching_migration_info(&a));
    assert!(!a.matching_migration_info(&c));
    assert!(!a.matching_migration_info(&d));
}

#[test]
fn target_stopping_rule() {
    let resting = probe(5, |_| (8, false));
    let migrating = probe(5, |_| (8, true));
    let newer = probe(5, |_| (9, false));
    assert!(resting.reached_target(8));
    assert!(resting.reached_target(9));
    assert!(!resting.reached_target(7));
    assert!(!migrating.reached_target(8));
    assert!(!newer.reached_target(8));
}

#[test]
fn error_descriptions() {
    assert_eq!(QueryError::NotFound.describe(), "requested item not found");
    assert_eq!(QueryError::RpcFailure.describe(), "chain rpc call failed");
    assert_eq!(QueryError::DecodeFailure.describe(), "failed to decode storage value");
    assert_eq!(QueryError::InvalidRange.describe(), "empty block search window");
}
