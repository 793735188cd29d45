use memgraph::machine_manager::rsm_id_to_serialized_name;
use memgraph::rsm::{index_from_key, log_after_index, LogError, Term};

#[test]
fn key_holds_big_endian_index() {
    assert_eq!(index_from_key(&7u64.to_be_bytes().to_vec()), Some(7));
    assert_eq!(index_from_key(&vec![1, 2, 3, 4, 5, 6, 7, 8]), Some(0x0102_0304_0506_0708));
    assert_eq!(index_from_key(&u64::MAX.to_be_bytes().to_vec()), Some(u64::MAX));
    assert_eq!(index_from_key(&b"__snapshot".to_vec()), None);
    assert_eq!(index_from_key(&vec![]), None);
}

#[test]
fn log_after_index_keeps_entries_in_order() {
    let rows = vec![
        (4u64.to_be_bytes().to_vec(), (Term(1), 'a')),
        (5u64.to_be_bytes().to_vec(), (Term(1), 'b')),
        (6u64.to_be_bytes().to_vec(), (Term(2), 'c')),
    ];
    let log = log_after_index(3, rows).unwrap();
    assert_eq!(log, vec![(Term(1), 'a'), (Term(1), 'b'), (Term(2), 'c')]);
    assert_eq!(log_after_index::<char>(3, vec![]).unwrap(), vec![]);
}

#[test]
fn log_after_index_reports_malformed_key() {
    let rows = vec![
        (1u64.to_be_bytes().to_vec(), (Term(1), 0u8)),
        (b"__snapshot".to_vec(), (Term(1), 1u8)),
    ];
    assert_eq!(log_after_index(0, rows), Err(LogError::MalformedKey { position: 1 }));
}

#[test]
fn log_after_index_reports_gap() {
    let rows = vec![
        (1u64.to_be_bytes().to_vec(), (Term(1), 0u8)),
        (3u64.to_be_bytes().to_vec(), (Term(1), 1u8)),
    ];
    assert_eq!(log_after_index(0, rows), Err(LogError::OutOfOrder { position: 1, key_index: 3 }));
    let rows = vec![(0u64.to_be_bytes().to_vec(), (Term(1), 0u8))];
    assert_eq!(log_after_index(0, rows), Err(LogError::OutOfOrder { position: 0, key_index: 0 }));
}

#[test]
fn rsm_tree_names() {
    assert_eq!(rsm_id_to_serialized_name(42), b"__rsm_42".to_vec());
    assert_eq!(rsm_id_to_serialized_name(0), b"__rsm_0".to_vec());
    assert_eq!(rsm_id_to_serialized_name(u64::MAX), format!("__rsm_{}", u64::MAX).into_bytes());
    assert_eq!(rsm_id_to_serialized_name(1009), b"__rsm_1009".to_vec());
}

#[test]
fn distinct_ids_get_distinct_tree_names() {
    let names: Vec<Vec<u8>> = [0u64, 1, 10, 11, 100, 101, 110].iter().map(|id| rsm_id_to_serialized_name(*id)).collect();
    for (i, a) in names.iter().enumerate() {
        for b in names.iter().skip(i + 1) {
            assert_ne!(a, b);
        }
    }
}

#[test]
fn index_key_round_trip() {
    for n in [0u64, 1, 255, 256, 0x0102_0304, u64::MAX - 1, u64::MAX] {
        assert_eq!(index_from_key(&n.to_be_bytes().to_vec()), Some(n));
    }
}
