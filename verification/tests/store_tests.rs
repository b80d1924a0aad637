use swap_ingest::amount::Amount;
use swap_ingest::models::{ChainflipSwapDetailed, SwapTransactionFromatted};
use swap_ingest::store::{ChainflipTable, ConflictPolicy, SwapTable};

fn record(tx_id: &str, date: &str, timestamp: i64) -> SwapTransactionFromatted {
    SwapTransactionFromatted {
        timestamp,
        date: date.to_string(),
        time: "10:13pm".to_string(),
        in_asset: "BTC.BTC".to_string(),
        in_amount: Amount { base: 100000000, decimals: 8 },
        in_amount_usd: None,
        out_asset_1: "THOR.RUNE".to_string(),
        out_amount_1: Amount { base: 5000000000, decimals: 8 },
        out_amount_1_usd: None,
        in_address: "addr-in".to_string(),
        out_address_1: "addr-out".to_string(),
        tx_id: tx_id.to_string(),
        out_asset_2: None,
        out_amount_2: None,
        out_amount_2_usd: None,
        out_address_2: None,
        status: "success".to_string(),
    }
}

fn cf_record(swap_id: &str, timestamp: i64, output: Amount) -> ChainflipSwapDetailed {
    ChainflipSwapDetailed {
        timestamp,
        date: "2023-11-14".to_string(),
        swap_id: swap_id.to_string(),
        source_asset: "BTC".to_string(),
        dest_asset: "ETH".to_string(),
        base_asset_leg1: None,
        base_asset_leg2: None,
        ingress_amount: Amount { base: 1, decimals: 0 },
        ingress_value_usd: Amount { base: 0, decimals: 0 },
        input_amount: Amount { base: 1, decimals: 0 },
        input_value_usd: Amount { base: 0, decimals: 0 },
        output_amount: output,
        output_value_usd: Amount { base: 0, decimals: 0 },
        started_block_date: None,
        started_block_id: Some(7),
        started_block_timestamp: None,
        destination_address: "dest".to_string(),
        refund_address: None,
        status: "SUCCESS".to_string(),
        broker: None,
    }
}

#[test]
fn insert_twice_keeps_one_row_append_only() {
    let mut table = SwapTable::new(ConflictPolicy::Ignore);
    table.insert_new_record(record("TX1", "14-11-2023", 100)).unwrap();
    table.insert_new_record(record("TX1", "14-11-2023", 100)).unwrap();
    assert_eq!(table.len(), 1);
    assert_eq!(table.count_rows_for("TX1"), 1);
}

#[test]
fn ignore_policy_keeps_first_values() {
    let mut table = SwapTable::new(ConflictPolicy::Ignore);
    table.insert_new_record(record("TX1", "14-11-2023", 100)).unwrap();
    table.insert_new_record(record("TX1", "15-11-2023", 999)).unwrap();
    assert_eq!(table.count_rows_for("TX1"), 1);
    assert_eq!(table.row(0).timestamp, 100);
    assert_eq!(table.row(0).date, "2023-11-14");
}

#[test]
fn overwrite_policy_keeps_latest_values() {
    let mut table = SwapTable::new(ConflictPolicy::Overwrite);
    table.insert_new_record(record("TX1", "14-11-2023", 100)).unwrap();
    table.insert_new_record(record("TX1", "15-11-2023", 999)).unwrap();
    assert_eq!(table.count_rows_for("TX1"), 1);
    assert_eq!(table.len(), 1);
    assert_eq!(table.row(0).timestamp, 999);
    assert_eq!(table.row(0).date, "2023-11-15");
}

#[test]
fn single_insert_rejects_malformed_date() {
    let mut table = SwapTable::new(ConflictPolicy::Ignore);
    assert!(table.insert_new_record(record("TX1", "nonsense", 1)).is_err());
    assert_eq!(table.len(), 0);
}

#[test]
fn bulk_partial_failure_reports_nine_of_ten() {
    let mut table = SwapTable::new(ConflictPolicy::Ignore);
    let mut batch = Vec::new();
    for i in 0..10 {
        let id = format!("TX{}", i);
        if i == 3 {
            batch.push(record(&id, "invalid-date", i));
        } else {
            batch.push(record(&id, "14-11-2023", i));
        }
    }
    let (successful, failed) = table.insert_bulk(&batch);
    assert_eq!(successful, 9);
    assert_eq!(failed, vec![3usize]);
    assert_eq!(table.len(), 9);
    assert_eq!(table.count_rows_for("TX3"), 0);
    assert_eq!(table.count_rows_for("TX4"), 1);
}

#[test]
fn bulk_empty_batch_is_noop_success() {
    let mut table = SwapTable::new(ConflictPolicy::Ignore);
    let (successful, failed) = table.insert_bulk(&Vec::new());
    assert_eq!(successful, 0);
    assert!(failed.is_empty());
    assert_eq!(table.len(), 0);
}

#[test]
fn bulk_sanitizes_text_fields() {
    let mut table = SwapTable::new(ConflictPolicy::Ignore);
    let mut rec = record("TX1", "14-11-2023", 1);
    rec.in_address = "ad\u{2192}dr".to_string();
    let (successful, _) = table.insert_bulk(&vec![rec]);
    assert_eq!(successful, 1);
    assert_eq!(table.row(0).in_address, "addr");
    assert_eq!(table.row(0).date, "2023-11-14");
}

#[test]
fn bulk_replay_is_idempotent() {
    let mut table = SwapTable::new(ConflictPolicy::Ignore);
    let batch = vec![
        record("TX1", "14-11-2023", 1),
        record("TX2", "14-11-2023", 2),
    ];
    table.insert_bulk(&batch);
    let mut revised = vec![record("TX1", "25-12-2023", 77), record("TX2", "14-11-2023", 2)];
    revised[0].in_address = "other".to_string();
    let (successful, failed) = table.insert_bulk(&revised);
    // replayed records still execute successfully, rows stay unique,
    // and the append-only table keeps the originally stored values
    assert_eq!(successful, 2);
    assert!(failed.is_empty());
    assert_eq!(table.len(), 2);
    assert_eq!(table.count_rows_for("TX1"), 1);
    assert_eq!(table.count_rows_for("TX2"), 1);
    assert_eq!(table.row(0).timestamp, 1);
    assert_eq!(table.row(0).date, "2023-11-14");
    assert_eq!(table.row(0).in_address, "addr-in");
}

#[test]
fn bulk_leaves_untouched_rows_unchanged() {
    let mut table = SwapTable::new(ConflictPolicy::Overwrite);
    table.insert_new_record(record("TX1", "14-11-2023", 100)).unwrap();
    table.insert_new_record(record("TX2", "14-11-2023", 200)).unwrap();
    // a later batch revises TX2 only; TX1's row is untouched
    let batch = vec![record("TX2", "15-11-2023", 999)];
    let (successful, failed) = table.insert_bulk(&batch);
    assert_eq!(successful, 1);
    assert!(failed.is_empty());
    assert_eq!(table.len(), 2);
    assert_eq!(table.row(0).timestamp, 100);
    assert_eq!(table.row(0).date, "2023-11-14");
    assert_eq!(table.count_rows_for("TX2"), 1);
}

#[test]
fn overwrite_bulk_stores_last_occurrence() {
    let mut table = SwapTable::new(ConflictPolicy::Overwrite);
    let batch = vec![
        record("TX1", "14-11-2023", 1),
        record("TX1", "15-11-2023", 2),
    ];
    let (successful, _) = table.insert_bulk(&batch);
    assert_eq!(successful, 2);
    assert_eq!(table.len(), 1);
    assert_eq!(table.row(0).timestamp, 2);
    assert_eq!(table.row(0).date, "2023-11-15");
}

#[test]
fn latest_timestamp_is_max() {
    let mut table = SwapTable::new(ConflictPolicy::Ignore);
    assert_eq!(table.fetch_latest_timestamp_i64(), None);
    table.insert_new_record(record("TX1", "14-11-2023", 100)).unwrap();
    table.insert_new_record(record("TX2", "14-11-2023", 50)).unwrap();
    table.insert_new_record(record("TX3", "14-11-2023", 70)).unwrap();
    assert_eq!(table.fetch_latest_timestamp_i64(), Some(100));
}

#[test]
fn chainflip_insert_twice_overwrites_in_place() {
    let mut table = ChainflipTable::new();
    table
        .insert_chainflip_swap_detailed(cf_record("S1", 10, Amount { base: 1, decimals: 0 }))
        .unwrap();
    table
        .insert_chainflip_swap_detailed(cf_record("S1", 12, Amount { base: 2, decimals: 0 }))
        .unwrap();
    assert_eq!(table.len(), 1);
    assert_eq!(table.count_rows_for("S1"), 1);
    assert_eq!(table.row(0).timestamp, 12);
    assert_eq!(table.row(0).output_amount, Amount { base: 2, decimals: 0 });
}

#[test]
fn chainflip_latest_timestamp_is_max() {
    let mut table = ChainflipTable::new();
    assert_eq!(table.fetch_latest_timestamp(), None);
    table
        .insert_chainflip_swap_detailed(cf_record("S1", 10, Amount { base: 1, decimals: 0 }))
        .unwrap();
    table
        .insert_chainflip_swap_detailed(cf_record("S2", 30, Amount { base: 1, decimals: 0 }))
        .unwrap();
    table
        .insert_chainflip_swap_detailed(cf_record("S3", 20, Amount { base: 1, decimals: 0 }))
        .unwrap();
    assert_eq!(table.fetch_latest_timestamp(), Some(30));
}
