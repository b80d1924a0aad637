//! The data shapes of the pipeline: raw upstream payloads and the
//! canonical persisted record.
//!
//! Field names follow the upstream JSON wire shapes; the unverified
//! shell around the library carries twin types with the serialization
//! derives and converts to and from these.
#![allow(non_snake_case)]

use vstd::prelude::*;

use crate::amount::Amount;

verus! {

/// One coin of a swap leg: a raw integer-scaled amount string and a
/// pool/asset identifier in delimited notation.
#[derive(Debug, Clone, PartialEq, Eq)]
pub struct SwapCoin {
    pub amount: String,
    pub asset: String,
}

/// One leg (inbound or outbound) of a raw swap event.
#[derive(Debug, Clone, PartialEq, Eq)]
pub struct TransactionData {
    pub address: String,
    pub coins: Vec<SwapCoin>,
    pub txID: Option<String>,
}

#[derive(Debug, Clone, PartialEq, Eq)]
pub struct TransactionMetaSwap {
    pub inPriceUSD: String,
    pub outPriceUSD: String,
}

#[derive(Debug, Clone, PartialEq, Eq)]
pub struct TransactionMetaData {
    pub swap: TransactionMetaSwap,
}

/// A raw swap event as the primary upstream feed delivers it: a
/// nanosecond timestamp string, one-or-more inbound legs, zero-or-more
/// outbound legs, and a status that is `"success"` once final.
#[derive(Debug, Clone, PartialEq, Eq)]
pub struct SwapTransaction {
    pub date: String,
    pub in_data: Vec<TransactionData>,
    pub out_data: Vec<TransactionData>,
    pub metadata: TransactionMetaData,
    pub pools: Vec<String>,
    pub status: String,
}

/// Pagination tokens of a raw feed page.
#[derive(Debug, Clone, PartialEq, Eq)]
pub struct ActionsFetchMeta {
    pub nextPageToken: String,
    pub prevPageToken: String,
}

/// One page of raw swap events.
#[derive(Debug, Clone, PartialEq, Eq)]
pub struct ActionsFetchResponse {
    pub actions: Vec<SwapTransaction>,
    pub meta: ActionsFetchMeta,
}

/// The canonical, source-independent persisted swap record.  Amounts
/// are in standard (decimal) units, never raw integer-scaled units.
#[derive(Debug, Clone, PartialEq, Eq)]
pub struct SwapTransactionFromatted {
    pub timestamp: i64,
    pub date: String,
    pub time: String,
    pub in_asset: String,
    pub in_amount: Amount,
    pub in_amount_usd: Option<Amount>,
    pub out_asset_1: String,
    pub out_amount_1: Amount,
    pub out_amount_1_usd: Option<Amount>,
    pub in_address: String,
    pub out_address_1: String,
    pub tx_id: String,
    pub out_asset_2: Option<String>,
    pub out_amount_2: Option<Amount>,
    pub out_amount_2_usd: Option<Amount>,
    pub out_address_2: Option<String>,
    pub status: String,
}

/// Sort directions of the stored-history read path.
#[derive(Debug, Clone, Copy, PartialEq, Eq, Structural)]
pub enum OrderType {
    ASC,
    DESC,
}

/// A read-path query: pagination, sorting, and optional filters.
#[derive(Debug, Clone, PartialEq, Eq)]
pub struct RequestBody {
    pub sort_by: String,
    pub page: String,
    pub limit: String,
    pub order: String,
    pub search: Option<String>,
    pub date: Option<String>,
}

/// Page metadata of the secondary (GraphQL) feed.
#[derive(Debug, Clone, PartialEq, Eq)]
pub struct PageInfo {
    pub hasPreviousPage: bool,
    pub startCursor: String,
    pub hasNextPage: bool,
    pub endCursor: String,
}

#[derive(Debug, Clone, PartialEq, Eq)]
pub struct Broker {
    pub alias: Option<String>,
}

/// One swap request of the secondary feed; amounts stay the decimal
/// strings the feed delivered until mapping.
#[derive(Debug, Clone, PartialEq, Eq)]
pub struct SwapNode {
    pub id: i64,
    pub swapRequestNativeId: String,
    pub sourceAsset: String,
    pub destAsset: String,
    pub baseAssetLeg1: Option<String>,
    pub baseAssetLeg2: Option<String>,
    pub ingressAmount: Option<String>,
    pub ingressValueUsd: Option<String>,
    pub egressAmount: Option<String>,
    pub egressValueUsd: Option<String>,
    pub inputAmount: Option<String>,
    pub inputValueUsd: Option<String>,
    pub intermediateAmount: Option<String>,
    pub intermediateValueUsd: Option<String>,
    pub outputAmount: Option<String>,
    pub outputValueUsd: Option<String>,
    pub refundAmount: Option<String>,
    pub refundValueUsd: Option<String>,
    pub networkFeeValueUsd: Option<String>,
    pub totalChunks: Option<i32>,
    pub executedChunks: Option<i32>,
    pub isDca: Option<bool>,
    pub isBoosted: Option<bool>,
    pub isOnChain: bool,
    pub isInternal: bool,
    pub isCcm: Option<bool>,
    pub isVaultSwap: Option<bool>,
    pub completedBlockId: Option<i64>,
    pub completedBlockTimestamp: Option<String>,
    pub completedBlockDate: Option<String>,
    pub mainBrokerAccountSs58Id: Option<String>,
    pub mainBrokerFeeValueUsd: Option<String>,
    pub startedBlockDate: Option<String>,
    pub startedBlockId: Option<i64>,
    pub startedBlockTimestamp: Option<String>,
    pub destinationAddress: String,
    pub outputAndIntermediateValueUsd: Option<String>,
    pub refundAddress: Option<String>,
    pub status: String,
    pub isInProgress: bool,
    pub broker: Option<Broker>,
}

#[derive(Debug, Clone, PartialEq, Eq)]
pub struct Edge {
    pub node: SwapNode,
}

#[derive(Debug, Clone, PartialEq, Eq)]
pub struct SwapRequests {
    pub pageInfo: PageInfo,
    pub edges: Vec<Edge>,
    pub totalCount: i64,
}

#[derive(Debug, Clone, PartialEq, Eq)]
pub struct SwapData {
    pub allSwapRequests: SwapRequests,
}

/// The secondary feed's whole response.
#[derive(Debug, Clone, PartialEq, Eq)]
pub struct SwapResponse {
    pub data: SwapData,
}

/// The normalized record of one secondary-feed swap.
#[derive(Debug, Clone, PartialEq, Eq)]
pub struct ChainflipSwapDetailed {
    pub timestamp: i64,
    pub date: String,
    pub swap_id: String,
    pub source_asset: String,
    pub dest_asset: String,
    pub base_asset_leg1: Option<String>,
    pub base_asset_leg2: Option<String>,
    pub ingress_amount: Amount,
    pub ingress_value_usd: Amount,
    pub input_amount: Amount,
    pub input_value_usd: Amount,
    pub output_amount: Amount,
    pub output_value_usd: Amount,
    pub started_block_date: Option<String>,
    pub started_block_id: Option<i64>,
    pub started_block_timestamp: Option<String>,
    pub destination_address: String,
    pub refund_address: Option<String>,
    pub status: String,
    pub broker: Option<String>,
}

/// A daily closing price, keyed by date.
#[derive(Debug, Clone, PartialEq, Eq)]
pub struct ClosingPriceInterval {
    pub date: String,
    pub closing_price_usd: Amount,
}

/// One coin of a market-data search response.
#[derive(Debug, Clone, PartialEq, Eq)]
pub struct CoinSearchData {
    pub id: String,
    pub name: String,
    pub symbol: String,
    pub api_symbol: String,
}

/// A market-data coin search response.
#[derive(Debug, Clone, PartialEq, Eq)]
pub struct CoinSearchResponse {
    pub coins: Vec<CoinSearchData>,
}

} // verus!
