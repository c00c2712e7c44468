//! Tests of the engine's pure helpers: height normalization, chunking and
//! the per-group activity maximum.

use wallet_sync::chunks::chunks;
use wallet_sync::details::find_max_index;
use wallet_sync::types::{normalize_height, ELSGetHistoryRes, OutPoint};

#[test]
fn height_normalization() {
    // 0 and -1 both mean "unconfirmed"; a positive height is kept.
    assert_eq!(normalize_height(0), None);
    assert_eq!(normalize_height(-1), None);
    assert_eq!(normalize_height(1), Some(1));
    assert_eq!(normalize_height(654_321), Some(654_321));
    assert_eq!(normalize_height(i32::MAX), Some(i32::MAX as u32));
}

#[test]
fn chunking_splits_into_groups() {
    let v: Vec<u64> = (0..7).collect();
    let groups = chunks(&v, 3);
    assert_eq!(groups.len(), 3);
    assert_eq!(groups[0], vec![0, 1, 2]);
    assert_eq!(groups[1], vec![3, 4, 5]);
    assert_eq!(groups[2], vec![6]);

    let exact: Vec<u64> = (0..6).collect();
    let groups = chunks(&exact, 3);
    assert_eq!(groups.len(), 2);
    assert_eq!(groups[1], vec![3, 4, 5]);

    let empty: Vec<u64> = Vec::new();
    assert_eq!(chunks(&empty, 3).len(), 0);
}

#[test]
fn find_max_index_picks_last_active_position() {
    let entry = ELSGetHistoryRes { height: 1, tx_hash: 9 };
    let rows = vec![vec![entry], vec![], vec![entry], vec![]];
    assert_eq!(find_max_index(&rows), Some(2));
    let none: Vec<Vec<ELSGetHistoryRes>> = vec![vec![], vec![]];
    assert_eq!(find_max_index(&none), None);
    let empty: Vec<Vec<ELSGetHistoryRes>> = Vec::new();
    assert_eq!(find_max_index(&empty), None);
}

#[test]
fn null_outpoint_marks_coinbase() {
    assert!(OutPoint { txid: 0, vout: u32::MAX }.is_null());
    assert!(!OutPoint { txid: 0, vout: 0 }.is_null());
    assert!(!OutPoint { txid: 5, vout: u32::MAX }.is_null());
    assert_eq!(OutPoint::new(7, 1), OutPoint { txid: 7, vout: 1 });
}
