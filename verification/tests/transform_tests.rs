use swap_ingest::errors::TransactionError;
use swap_ingest::models::{
    SwapCoin, SwapTransaction, TransactionData, TransactionMetaData, TransactionMetaSwap,
};
use swap_ingest::pending::PendingTracker;
use swap_ingest::store::{ConflictPolicy, SwapTable};
use swap_ingest::transform::TransactionHandler;
use swap_ingest::SwapType;

fn leg(address: &str, amount: &str, asset: &str, tx_id: Option<&str>) -> TransactionData {
    TransactionData {
        address: address.to_string(),
        coins: vec![SwapCoin { amount: amount.to_string(), asset: asset.to_string() }],
        txID: tx_id.map(|t| t.to_string()),
    }
}

fn event(
    date: &str,
    in_leg: TransactionData,
    out_legs: Vec<TransactionData>,
    status: &str,
) -> SwapTransaction {
    SwapTransaction {
        date: date.to_string(),
        in_data: vec![in_leg],
        out_data: out_legs,
        metadata: TransactionMetaData {
            swap: TransactionMetaSwap {
                inPriceUSD: "0".to_string(),
                outPriceUSD: "0".to_string(),
            },
        },
        pools: vec![],
        status: status.to_string(),
    }
}

fn amount_f64(a: swap_ingest::amount::Amount) -> f64 {
    a.base as f64 / 10f64.powi(a.decimals as i32)
}

#[test]
fn end_to_end_single_leg() {
    let handler = TransactionHandler;
    let swap = event(
        "1700000000000000000",
        leg("addr-in", "100000000", "BTC.BTC", Some("TX1")),
        vec![leg("addr-out", "5000000000", "THOR.RUNE", None)],
        "success",
    );
    let rec = handler.parse_transaction(&swap).unwrap();
    assert_eq!(rec.in_asset, "BTC.BTC");
    assert_eq!(amount_f64(rec.in_amount), 1.0);
    assert_eq!(rec.out_asset_1, "THOR.RUNE");
    assert_eq!(amount_f64(rec.out_amount_1), 50.0);
    assert_eq!(rec.in_amount.display(), "1.0");
    assert_eq!(rec.out_amount_1.display(), "50.0");
    assert_eq!(rec.timestamp, 1700000000);
    assert_eq!(rec.date, "14-11-2023");
    assert_eq!(rec.time, "10:13pm");
    assert_eq!(rec.tx_id, "TX1");
    assert_eq!(rec.in_address, "addr-in");
    assert_eq!(rec.out_address_1, "addr-out");
    assert_eq!(rec.status, "success");
}

#[test]
fn single_out_leg_has_no_second_slot() {
    let handler = TransactionHandler;
    let swap = event(
        "1700000000000000000",
        leg("a", "100000000", "BTC.BTC", Some("TX2")),
        vec![leg("b", "5000000000", "THOR.RUNE", None)],
        "success",
    );
    let rec = handler.parse_transaction(&swap).unwrap();
    assert!(rec.out_asset_2.is_none());
    assert!(rec.out_amount_2.is_none());
    assert!(rec.out_address_2.is_none());
}

#[test]
fn native_leg_relegated_when_listed_last() {
    let handler = TransactionHandler;
    // after the documented reversal, the RUNE leg is indexed first
    let swap = event(
        "1700000000000000000",
        leg("a", "100000000", "ETH.ETH", Some("TX3")),
        vec![
            leg("btc-addr", "200000000", "BTC.BTC", None),
            leg("rune-addr", "5000000000", "THOR.RUNE", None),
        ],
        "success",
    );
    let rec = handler.parse_transaction(&swap).unwrap();
    assert_eq!(rec.out_asset_1, "BTC.BTC");
    assert_eq!(rec.out_address_1, "btc-addr");
    assert_eq!(rec.out_asset_2.as_deref(), Some("THOR.RUNE"));
    assert_eq!(rec.out_address_2.as_deref(), Some("rune-addr"));
}

#[test]
fn native_leg_relegated_when_listed_first() {
    let handler = TransactionHandler;
    let swap = event(
        "1700000000000000000",
        leg("a", "100000000", "ETH.ETH", Some("TX4")),
        vec![
            leg("rune-addr", "5000000000", "THOR.RUNE", None),
            leg("btc-addr", "200000000", "BTC.BTC", None),
        ],
        "success",
    );
    let rec = handler.parse_transaction(&swap).unwrap();
    assert_eq!(rec.out_asset_1, "BTC.BTC");
    assert_eq!(rec.out_asset_2.as_deref(), Some("THOR.RUNE"));
    assert_eq!(amount_f64(rec.out_amount_2.unwrap()), 50.0);
}

#[test]
fn two_native_legs_keep_reversed_order() {
    let handler = TransactionHandler;
    let swap = event(
        "1700000000000000000",
        leg("a", "100000000", "ETH.ETH", Some("TX9")),
        vec![
            leg("rune-addr-a", "100000000", "THOR.RUNE", None),
            leg("rune-addr-b", "5000000000", "THOR.RUNE", None),
        ],
        "success",
    );
    let rec = handler.parse_transaction(&swap).unwrap();
    // both legs native: post-reversal order is preserved, no swap
    assert_eq!(rec.out_address_1, "rune-addr-b");
    assert_eq!(rec.out_address_2.as_deref(), Some("rune-addr-a"));
}

#[test]
fn skipped_events_are_reported_with_reasons() {
    let handler = TransactionHandler;
    let actions = vec![
        event(
            "not-a-timestamp",
            leg("a", "100000000", "BTC.BTC", Some("BADTS")),
            vec![leg("b", "5000000000", "THOR.RUNE", None)],
            "success",
        ),
        event(
            "1700000000000000000",
            leg("a", "100000000", "BTC.BTC", Some("GOOD")),
            vec![leg("b", "5000000000", "THOR.RUNE", None)],
            "success",
        ),
        event(
            "1700000000000000000",
            leg("a", "100000000", "BTC.BTC", None),
            vec![leg("b", "5000000000", "THOR.RUNE", None)],
            "success",
        ),
    ];
    let reports = handler.skip_reports(&actions);
    assert_eq!(reports.len(), 2);
    assert_eq!(reports[0].0, 0);
    assert!(matches!(reports[0].1, TransactionError::ProcessingError(_)));
    assert_eq!(reports[0].1.message(), "Processing error: malformed raw event");
    assert_eq!(reports[1].0, 2);
    assert!(matches!(reports[1].1, TransactionError::MissingTxId));
}

#[test]
fn two_foreign_legs_keep_reversed_order() {
    let handler = TransactionHandler;
    let swap = event(
        "1700000000000000000",
        leg("a", "100000000", "ETH.ETH", Some("TX5")),
        vec![
            leg("usdc-addr", "200000000", "ETH.USDC", None),
            leg("btc-addr", "300000000", "BTC.BTC", None),
        ],
        "success",
    );
    let rec = handler.parse_transaction(&swap).unwrap();
    assert_eq!(rec.out_asset_1, "BTC.BTC");
    assert_eq!(rec.out_asset_2.as_deref(), Some("ETH.USDC"));
}

#[test]
fn pending_event_tracked_never_recorded() {
    let handler = TransactionHandler;
    let mut tracker = PendingTracker::new();
    let actions = vec![
        event(
            "1700000000000000000",
            leg("a", "100000000", "BTC.BTC", Some("DONE")),
            vec![leg("b", "5000000000", "THOR.RUNE", None)],
            "success",
        ),
        event(
            "1700000000000000000",
            leg("a", "100000000", "BTC.BTC", Some("PEND")),
            vec![leg("b", "5000000000", "THOR.RUNE", None)],
            "pending",
        ),
    ];
    let recs = handler
        .process_transactions(&actions, &mut tracker, SwapType::NATIVE)
        .unwrap();
    assert_eq!(recs.len(), 1);
    assert_eq!(recs[0].tx_id, "DONE");
    assert!(recs.iter().all(|r| r.status == "success"));
    let snapshot = tracker.snapshot_and_clear(SwapType::NATIVE);
    assert_eq!(snapshot, vec!["PEND".to_string()]);
}

#[test]
fn malformed_event_skipped_without_aborting_batch() {
    let handler = TransactionHandler;
    let mut tracker = PendingTracker::new();
    let actions = vec![
        event(
            "not-a-timestamp",
            leg("a", "100000000", "BTC.BTC", Some("BAD")),
            vec![leg("b", "5000000000", "THOR.RUNE", None)],
            "success",
        ),
        event(
            "1700000000000000000",
            leg("a", "100000000", "BTC.BTC", Some("GOOD")),
            vec![leg("b", "5000000000", "THOR.RUNE", None)],
            "success",
        ),
    ];
    let recs = handler
        .process_transactions(&actions, &mut tracker, SwapType::TRADE)
        .unwrap();
    assert_eq!(recs.len(), 1);
    assert_eq!(recs[0].tx_id, "GOOD");
    assert!(tracker.snapshot_and_clear(SwapType::TRADE).is_empty());
}

#[test]
fn parse_errors_name_the_missing_field() {
    let handler = TransactionHandler;
    let no_tx = event(
        "1700000000000000000",
        leg("a", "100000000", "BTC.BTC", None),
        vec![leg("b", "5000000000", "THOR.RUNE", None)],
        "success",
    );
    assert!(matches!(
        handler.parse_transaction(&no_tx),
        Err(TransactionError::MissingTxId)
    ));

    let mut no_coin_leg = leg("a", "100000000", "BTC.BTC", Some("T"));
    no_coin_leg.coins.clear();
    no_coin_leg.txID = Some("T".to_string());
    let no_coin = event(
        "1700000000000000000",
        no_coin_leg,
        vec![leg("b", "5000000000", "THOR.RUNE", None)],
        "success",
    );
    assert!(matches!(
        handler.parse_transaction(&no_coin),
        Err(TransactionError::MissingInCoin)
    ));

    let bad_asset = event(
        "1700000000000000000",
        leg("a", "100000000", "NODELIM", Some("T")),
        vec![leg("b", "5000000000", "THOR.RUNE", None)],
        "success",
    );
    assert!(matches!(
        handler.parse_transaction(&bad_asset),
        Err(TransactionError::MissingAssetName)
    ));

    let no_out = event(
        "1700000000000000000",
        leg("a", "100000000", "BTC.BTC", Some("T")),
        vec![],
        "success",
    );
    assert!(matches!(
        handler.parse_transaction(&no_out),
        Err(TransactionError::MissingOutData)
    ));
}

#[test]
fn error_messages_render() {
    assert_eq!(TransactionError::MissingTxId.message(), "Missing or invalid TxId");
    assert_eq!(TransactionError::MissingInCoin.message(), "Missing in_coin");
    assert_eq!(
        TransactionError::ApiError("down".to_string()).message(),
        "API error: down"
    );
    assert_eq!(
        TransactionError::CoinNotFound("bitcoin".to_string()).message(),
        "Coin not found: bitcoin"
    );
}

#[test]
fn process_and_insert_loads_final_events() {
    let handler = TransactionHandler;
    let mut tracker = PendingTracker::new();
    let mut table = SwapTable::new(ConflictPolicy::Ignore);
    let actions = vec![
        event(
            "1700000000000000000",
            leg("a", "100000000", "BTC.BTC", Some("T1")),
            vec![leg("b", "5000000000", "THOR.RUNE", None)],
            "success",
        ),
        event(
            "1700000000000000000",
            leg("a", "100000000", "BTC.BTC", Some("T2")),
            vec![leg("b", "5000000000", "THOR.RUNE", None)],
            "pending",
        ),
    ];
    handler
        .process_and_insert_transaction(&mut table, &actions, &mut tracker, SwapType::NATIVE)
        .unwrap();
    assert_eq!(table.len(), 1);
    assert_eq!(table.count_rows_for("T1"), 1);
    assert_eq!(table.count_rows_for("T2"), 0);
    assert_eq!(table.row(0).date, "2023-11-14");
    assert_eq!(
        tracker.snapshot_and_clear(SwapType::NATIVE),
        vec!["T2".to_string()]
    );
}

#[test]
fn tracker_partitions_are_independent() {
    let mut tracker = PendingTracker::new();
    let handler = TransactionHandler;
    handler.track_pending_transaction(&mut tracker, "A".to_string(), SwapType::NATIVE);
    handler.track_pending_transaction(&mut tracker, "A".to_string(), SwapType::NATIVE);
    handler.track_pending_transaction(&mut tracker, "B".to_string(), SwapType::TRADE);
    let native = tracker.snapshot_and_clear(SwapType::NATIVE);
    assert_eq!(native, vec!["A".to_string()]);
    let trade = tracker.snapshot_and_clear(SwapType::TRADE);
    assert_eq!(trade, vec!["B".to_string()]);
    assert!(tracker.snapshot_and_clear(SwapType::NATIVE).is_empty());
    assert!(tracker.snapshot_and_clear(SwapType::TRADE).is_empty());
}
