use swap_ingest::amount::Amount;
use swap_ingest::chainflip::{load_chainflip_records, process_page, ChainFlip};
use swap_ingest::coingecko::{first_coin_id, CoinIdCache};
use swap_ingest::cron::{day_start, next_daily_run, next_twice_daily_run};
use swap_ingest::midgard::MidGard;
use swap_ingest::models::{
    ActionsFetchMeta, ActionsFetchResponse, Broker, CoinSearchData, CoinSearchResponse, Edge,
    SwapNode, SwapTransactionFromatted,
};
use swap_ingest::passes::{
    live_tail_start, page_has_more, reverse_actions, BackfillState, RetryState,
};
use swap_ingest::models::OrderType;
use swap_ingest::query::{order_type_of, page_offset};
use swap_ingest::store::{ChainflipTable, ConflictPolicy, SwapTable};

fn record(tx_id: &str, timestamp: i64) -> SwapTransactionFromatted {
    SwapTransactionFromatted {
        timestamp,
        date: "14-11-2023".to_string(),
        time: "10:13pm".to_string(),
        in_asset: "BTC.BTC".to_string(),
        in_amount: Amount { base: 100000000, decimals: 8 },
        in_amount_usd: None,
        out_asset_1: "THOR.RUNE".to_string(),
        out_amount_1: Amount { base: 5000000000, decimals: 8 },
        out_amount_1_usd: None,
        in_address: "in".to_string(),
        out_address_1: "out".to_string(),
        tx_id: tx_id.to_string(),
        out_asset_2: None,
        out_amount_2: None,
        out_amount_2_usd: None,
        out_address_2: None,
        status: "success".to_string(),
    }
}

#[test]
fn backfill_flushes_every_threshold_pages() {
    let mut state = BackfillState::resume("".to_string(), 2);
    assert_eq!(state.next_request_token(), "");
    let none = state.on_page(vec![record("A", 1), record("B", 2)], "tok1".to_string());
    assert!(none.is_none());
    assert_eq!(state.next_request_token(), "tok1");
    let flushed = state.on_page(vec![record("C", 3)], "tok2".to_string());
    let batch = flushed.unwrap();
    assert_eq!(batch.len(), 3);
    assert_eq!(batch[0].tx_id, "A");
    assert_eq!(batch[2].tx_id, "C");
    assert_eq!(state.next_request_token(), "tok2");
    // the next page starts a fresh batch
    let none2 = state.on_page(vec![record("D", 4)], "tok3".to_string());
    assert!(none2.is_none());
    let rest = state.take_remainder();
    assert_eq!(rest.len(), 1);
    assert_eq!(rest[0].tx_id, "D");
}

#[test]
fn crash_recovery_resumes_at_checkpoint_without_duplicates() {
    let mut table = SwapTable::new(ConflictPolicy::Ignore);
    let mut checkpoint = "".to_string();

    // first run: two pages processed and checkpointed, batch flushed
    let mut state = BackfillState::resume(checkpoint.clone(), 2);
    let page1 = vec![record("TX1", 1), record("TX2", 2)];
    if let Some(batch) = state.on_page(page1, "page2tok".to_string()) {
        table.insert_bulk(&batch);
    }
    checkpoint = state.next_request_token().clone();
    let page2 = vec![record("TX3", 3)];
    if let Some(batch) = state.on_page(page2.clone(), "page3tok".to_string()) {
        table.insert_bulk(&batch);
    }
    checkpoint = state.next_request_token().clone();
    assert_eq!(table.len(), 3);

    // crash; restart resumes at the checkpointed cursor, not page 1
    let state2 = BackfillState::resume(checkpoint.clone(), 2);
    assert_eq!(state2.next_request_token(), "page3tok");

    // an overlapping replay of already-seen records adds no rows
    table.insert_bulk(&page2);
    table.insert_bulk(&vec![record("TX1", 1)]);
    assert_eq!(table.len(), 3);
    assert_eq!(table.count_rows_for("TX1"), 1);
    assert_eq!(table.count_rows_for("TX3"), 1);
}

#[test]
fn live_tail_start_falls_back_to_now() {
    assert_eq!(live_tail_start(Some(123), 999), 123);
    assert_eq!(live_tail_start(None, 999), 999);
}

#[test]
fn page_walk_stops_on_empty_page() {
    let full = ActionsFetchResponse {
        actions: vec![],
        meta: ActionsFetchMeta {
            nextPageToken: "n".to_string(),
            prevPageToken: "p".to_string(),
        },
    };
    assert!(!page_has_more(&full));
}

#[test]
fn first_page_is_reversed() {
    let a = swap_ingest::models::SwapTransaction {
        date: "1".to_string(),
        in_data: vec![],
        out_data: vec![],
        metadata: swap_ingest::models::TransactionMetaData {
            swap: swap_ingest::models::TransactionMetaSwap {
                inPriceUSD: "0".to_string(),
                outPriceUSD: "0".to_string(),
            },
        },
        pools: vec![],
        status: "a".to_string(),
    };
    let mut b = a.clone();
    b.status = "b".to_string();
    let r = reverse_actions(vec![a, b]);
    assert_eq!(r[0].status, "b");
    assert_eq!(r[1].status, "a");
}

#[test]
fn retry_budget_is_bounded() {
    let mut retry = RetryState::new(3);
    assert!(!retry.exhausted());
    retry.begin_attempt();
    retry.begin_attempt();
    assert!(!retry.exhausted());
    retry.begin_attempt();
    assert!(retry.exhausted());
}

#[test]
fn feed_urls_are_built_exactly() {
    assert_eq!(MidGard::next_page_url("http://base?x=1", ""), "http://base?x=1");
    assert_eq!(
        MidGard::next_page_url("http://base?x=1", "T9"),
        "http://base?x=1&nextPageToken=T9"
    );
    assert_eq!(
        MidGard::prev_page_url("http://base?x=1", "P4"),
        "http://base?x=1&prevPageToken=P4"
    );
    assert_eq!(
        MidGard::timestamp_url("http://base?x=1", "1700000000"),
        "http://base?x=1&fromTimestamp=1700000000"
    );
    assert_eq!(
        MidGard::transaction_url("http://base", "TXID"),
        "http://base?txid=TXID"
    );
}

#[test]
fn daily_schedule_arithmetic() {
    // 1700000000 is 22:13:20 UTC; today's 00:05 already passed
    let target = 5 * 60;
    let next = next_daily_run(1700000000, target as u32);
    assert_eq!(next, 1700000000 - 80000 + 86400 + target);
    // day starts at midnight
    assert_eq!(day_start(1700000000), 1700000000 - 80000);
    // twice-daily picks the evening slot before 23:55
    let morning = (11 * 60 + 55) * 60;
    let evening = (23 * 60 + 55) * 60;
    let next2 = next_twice_daily_run(1700000000, morning as u32, evening as u32);
    assert_eq!(next2, 1700000000 - 80000 + evening);
}

fn node(id: &str, status: &str, completed: Option<&str>) -> SwapNode {
    SwapNode {
        id: 1,
        swapRequestNativeId: id.to_string(),
        sourceAsset: "btc".to_string(),
        destAsset: "eth".to_string(),
        baseAssetLeg1: Some("usdc".to_string()),
        baseAssetLeg2: None,
        ingressAmount: Some("12.5".to_string()),
        ingressValueUsd: Some("100".to_string()),
        egressAmount: None,
        egressValueUsd: None,
        inputAmount: Some("12.5".to_string()),
        inputValueUsd: None,
        intermediateAmount: None,
        intermediateValueUsd: None,
        outputAmount: Some("0.4".to_string()),
        outputValueUsd: Some("bogus".to_string()),
        refundAmount: None,
        refundValueUsd: None,
        networkFeeValueUsd: None,
        totalChunks: None,
        executedChunks: None,
        isDca: None,
        isBoosted: None,
        isOnChain: false,
        isInternal: false,
        isCcm: None,
        isVaultSwap: None,
        completedBlockId: None,
        completedBlockTimestamp: completed.map(|s| s.to_string()),
        completedBlockDate: None,
        mainBrokerAccountSs58Id: None,
        mainBrokerFeeValueUsd: None,
        startedBlockDate: None,
        startedBlockId: Some(9),
        startedBlockTimestamp: None,
        destinationAddress: "dest".to_string(),
        outputAndIntermediateValueUsd: None,
        refundAddress: None,
        status: status.to_string(),
        isInProgress: false,
        broker: Some(Broker { alias: Some("brkr".to_string()) }),
    }
}

#[test]
fn swap_node_maps_to_record() {
    let n = node("S7", "SUCCESS", Some("2023-11-14T22:13:20Z"));
    let rec = ChainFlip::map_swap_node(&n);
    assert_eq!(rec.timestamp, 1700000000);
    assert_eq!(rec.date, "2023-11-14");
    assert_eq!(rec.swap_id, "S7");
    assert_eq!(rec.source_asset, "BTC");
    assert_eq!(rec.dest_asset, "ETH");
    assert_eq!(rec.base_asset_leg1.as_deref(), Some("USDC"));
    assert_eq!(rec.ingress_amount, Amount { base: 125, decimals: 1 });
    assert_eq!(rec.ingress_value_usd, Amount { base: 100, decimals: 0 });
    assert_eq!(rec.output_amount, Amount { base: 4, decimals: 1 });
    // an unparseable amount string falls back to zero
    assert_eq!(rec.output_value_usd, Amount { base: 0, decimals: 0 });
    assert_eq!(rec.broker.as_deref(), Some("brkr"));
    assert_eq!(rec.status, "SUCCESS");
}

#[test]
fn swap_node_without_timestamps_dates_to_epoch() {
    let n = node("S8", "SUCCESS", None);
    let rec = ChainFlip::map_swap_node(&n);
    assert_eq!(rec.timestamp, 0);
    assert_eq!(rec.date, "1970-01-01");
}

#[test]
fn incremental_page_stops_at_known_records() {
    let edges = vec![
        Edge { node: node("NEW", "SUCCESS", Some("2023-11-14T22:13:20Z")) },
        Edge { node: node("SKIP", "PENDING", Some("2023-11-14T22:13:20Z")) },
        Edge { node: node("OLD", "SUCCESS", Some("2020-01-01T00:00:00Z")) },
        Edge { node: node("NEVER", "SUCCESS", Some("2023-11-14T22:13:20Z")) },
    ];
    let latest = 1600000000;
    let (records, found_existing) = process_page(&edges, latest);
    assert!(found_existing);
    assert_eq!(records.len(), 1);
    assert_eq!(records[0].swap_id, "NEW");

    let mut table = ChainflipTable::new();
    let inserted = load_chainflip_records(&mut table, records);
    assert_eq!(inserted, 1);
    assert_eq!(table.count_rows_for("NEW"), 1);
}

#[test]
fn incremental_page_without_old_records_continues() {
    let edges = vec![
        Edge { node: node("A", "SUCCESS", Some("2023-11-14T22:13:20Z")) },
        Edge { node: node("B", "SUCCESS", Some("2023-11-14T22:13:21Z")) },
    ];
    let (records, found_existing) = process_page(&edges, 0);
    assert!(!found_existing);
    assert_eq!(records.len(), 2);
    assert_eq!(ChainFlip::next_offset(0, 30), 30);
}

#[test]
fn coin_id_cache_overwrites_known_names() {
    let mut cache = CoinIdCache::new();
    assert!(cache.get_coin_id("BTC").is_none());
    cache.add_coin_id("BTC", "bitcoin");
    cache.add_coin_id("ETH", "ethereum");
    assert_eq!(cache.get_coin_id("BTC").as_deref(), Some("bitcoin"));
    cache.add_coin_id("BTC", "bitcoin2");
    assert_eq!(cache.get_coin_id("BTC").as_deref(), Some("bitcoin2"));
    assert_eq!(cache.get_coin_id("ETH").as_deref(), Some("ethereum"));
}

#[test]
fn search_response_first_hit() {
    let resp = CoinSearchResponse {
        coins: vec![CoinSearchData {
            id: "bitcoin".to_string(),
            name: "Bitcoin".to_string(),
            symbol: "BTC".to_string(),
            api_symbol: "bitcoin".to_string(),
        }],
    };
    assert_eq!(first_coin_id(&resp).as_deref(), Some("bitcoin"));
    assert!(first_coin_id(&CoinSearchResponse { coins: vec![] }).is_none());
}

#[test]
fn query_helpers() {
    assert!(matches!(order_type_of(&"ASC".to_string()), OrderType::ASC));
    assert!(matches!(order_type_of(&"DESC".to_string()), OrderType::DESC));
    assert!(matches!(order_type_of(&"other".to_string()), OrderType::DESC));
    assert_eq!(page_offset(1, 50), 0);
    assert_eq!(page_offset(3, 50), 100);
}
