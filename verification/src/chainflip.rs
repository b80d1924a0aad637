//! The secondary (GraphQL) feed: mapping swap nodes to normalized
//! records and the incremental-walk decisions.
//!
//! The feed is paged by offset; only swaps with terminal `"SUCCESS"`
//! status are processed, each mapped to a [`ChainflipSwapDetailed`]
//! record.  The walk stops at the first successful swap at or before
//! the latest stored timestamp: everything older is already stored.

use vstd::prelude::*;

use crate::amount::{parse_decimal_amount, spec_parse_decimal, valid_decimal, Amount};
use crate::models::{Broker, ChainflipSwapDetailed, Edge, SwapNode};
use crate::store::opt_str_eq;

verus! {

/// The epoch second and `yyyy-mm-dd` rendering that parsing an
/// RFC 3339 timestamp yields, or nothing when the text does not
/// parse; both depend on the text alone.
pub uninterp spec fn rfc3339_parts_of(s: Seq<char>) -> Option<(i64, Seq<char>)>;

/// Relies on chrono's `DateTime::parse_from_rfc3339`, with
/// `.timestamp()` and `"%Y-%m-%d"` formatting of the parsed value:
/// epoch second and rendered date are functions of the text alone.
#[verifier::external_body]
fn parse_rfc3339(s: &str) -> (r: Option<(i64, String)>)
    ensures
        r is Some <==> rfc3339_parts_of(s@) is Some,
        r matches Some(p) ==> (rfc3339_parts_of(s@) matches Some(q) && p.0 == q.0 && p.1@ == q.1),
{
    match chrono::DateTime::parse_from_rfc3339(s) {
        Ok(dt) => Some((dt.timestamp(), dt.format("%Y-%m-%d").to_string())),
        Err(_) => None,
    }
}

/// The Unicode uppercase form of a string; only the tables compiled
/// into std decide it.
pub uninterp spec fn upper_of(s: Seq<char>) -> Seq<char>;

/// Relies on str::to_uppercase: the result depends on the characters
/// alone, by the Unicode tables compiled into std.
#[verifier::external_body]
fn to_uppercase(s: &str) -> (r: String)
    ensures
        r@ == upper_of(s@),
{
    s.to_uppercase()
}

/// The terminal status of the secondary feed.
pub open spec fn cf_success_status() -> Seq<char> {
    "SUCCESS"@
}

pub open spec fn cf_success(n: SwapNode) -> bool {
    n.status@ == cf_success_status()
}

/// Successful swaps of a page.
pub open spec fn cf_success_pred() -> spec_fn(Edge) -> bool {
    |e: Edge| cf_success(e.node)
}

/// The timestamp text a node is dated by: completion first, then
/// start, then the epoch.
pub open spec fn chosen_ts_str(n: SwapNode) -> Seq<char> {
    if n.completedBlockTimestamp is Some {
        n.completedBlockTimestamp->0@
    } else if n.startedBlockTimestamp is Some {
        n.startedBlockTimestamp->0@
    } else {
        "1970-01-01T00:00:00Z"@
    }
}

/// The epoch second a node is dated by; unparseable text falls back
/// to the epoch.
pub open spec fn node_ts(n: SwapNode) -> int {
    match rfc3339_parts_of(chosen_ts_str(n)) {
        Option::Some(p) => p.0 as int,
        Option::None => 0,
    }
}

/// The `yyyy-mm-dd` date a node's record carries.
pub open spec fn node_date(n: SwapNode) -> Seq<char> {
    match rfc3339_parts_of(chosen_ts_str(n)) {
        Option::Some(p) => p.1,
        Option::None => "1970-01-01"@,
    }
}

/// The amount a feed string denotes, or zero when absent or not a
/// decimal numeral.
pub open spec fn amount_or_zero(o: Option<String>) -> Amount {
    match o {
        Option::None => Amount { base: 0, decimals: 0 },
        Option::Some(s) => if valid_decimal(s@) {
            spec_parse_decimal(s@)
        } else {
            Amount { base: 0, decimals: 0 }
        },
    }
}

/// An optional text field uppercased; absent stays absent.
pub open spec fn opt_upper(r: Option<String>, orig: Option<String>) -> bool {
    match (r, orig) {
        (Option::None, Option::None) => true,
        (Option::Some(a), Option::Some(b)) => a@ == upper_of(b@),
        _ => false,
    }
}

/// The broker alias of a node, when the node names a broker with an
/// alias.
pub open spec fn broker_alias_of(n: SwapNode) -> Option<String> {
    match n.broker {
        Option::Some(b) => b.alias,
        Option::None => Option::None,
    }
}

/// How a normalized record relates to its node: assets uppercased,
/// amount strings parsed with a zero fallback, the timestamp and date
/// taken from the completion-then-start timestamp text.
pub open spec fn node_matches_record(n: SwapNode, rec: ChainflipSwapDetailed) -> bool {
    &&& rec.timestamp == node_ts(n)
    &&& rec.date@ == node_date(n)
    &&& rec.swap_id@ == n.swapRequestNativeId@
    &&& rec.source_asset@ == upper_of(n.sourceAsset@)
    &&& rec.dest_asset@ == upper_of(n.destAsset@)
    &&& opt_upper(rec.base_asset_leg1, n.baseAssetLeg1)
    &&& opt_upper(rec.base_asset_leg2, n.baseAssetLeg2)
    &&& rec.ingress_amount == amount_or_zero(n.ingressAmount)
    &&& rec.ingress_value_usd == amount_or_zero(n.ingressValueUsd)
    &&& rec.input_amount == amount_or_zero(n.inputAmount)
    &&& rec.input_value_usd == amount_or_zero(n.inputValueUsd)
    &&& rec.output_amount == amount_or_zero(n.outputAmount)
    &&& rec.output_value_usd == amount_or_zero(n.outputValueUsd)
    &&& opt_str_eq(rec.started_block_date, n.startedBlockDate)
    &&& rec.started_block_id == n.startedBlockId
    &&& opt_str_eq(rec.started_block_timestamp, n.startedBlockTimestamp)
    &&& rec.destination_address@ == n.destinationAddress@
    &&& opt_str_eq(rec.refund_address, n.refundAddress)
    &&& rec.status@ == n.status@
    &&& opt_str_eq(rec.broker, broker_alias_of(n))
}

fn amount_of(o: &Option<String>) -> (r: Amount)
    ensures
        r == amount_or_zero(*o),
{
    match o {
        Option::None => Amount::zero(),
        Option::Some(s) => match parse_decimal_amount(s.as_str()) {
            Option::Some(a) => a,
            Option::None => Amount::zero(),
        },
    }
}

fn upper_opt(o: &Option<String>) -> (r: Option<String>)
    ensures
        opt_upper(r, *o),
{
    match o {
        Option::None => None,
        Option::Some(s) => Some(to_uppercase(s.as_str())),
    }
}

fn clone_opt(o: &Option<String>) -> (r: Option<String>)
    ensures
        opt_str_eq(r, *o),
{
    match o {
        Option::None => None,
        Option::Some(s) => Some(s.clone()),
    }
}

/// The secondary feed client.
pub struct ChainFlip;

impl ChainFlip {
    /// Maps one feed node to its normalized record.
    pub fn map_swap_node(node: &SwapNode) -> (rec: ChainflipSwapDetailed)
        ensures
            node_matches_record(*node, rec),
    {
        let ts_string: String = match &node.completedBlockTimestamp {
            Some(c) => c.clone(),
            None => match &node.startedBlockTimestamp {
                Some(s) => s.clone(),
                None => String::from_str("1970-01-01T00:00:00Z"),
            },
        };
        let (record_timestamp, date) = match parse_rfc3339(ts_string.as_str()) {
            Some(p) => p,
            None => (0i64, String::from_str("1970-01-01")),
        };
        let broker_name = match &node.broker {
            Some(b) => clone_opt(&b.alias),
            None => None,
        };
        ChainflipSwapDetailed {
            timestamp: record_timestamp,
            date,
            swap_id: node.swapRequestNativeId.clone(),
            source_asset: to_uppercase(node.sourceAsset.as_str()),
            dest_asset: to_uppercase(node.destAsset.as_str()),
            base_asset_leg1: upper_opt(&node.baseAssetLeg1),
            base_asset_leg2: upper_opt(&node.baseAssetLeg2),
            ingress_amount: amount_of(&node.ingressAmount),
            ingress_value_usd: amount_of(&node.ingressValueUsd),
            input_amount: amount_of(&node.inputAmount),
            input_value_usd: amount_of(&node.inputValueUsd),
            output_amount: amount_of(&node.outputAmount),
            output_value_usd: amount_of(&node.outputValueUsd),
            started_block_date: clone_opt(&node.startedBlockDate),
            started_block_id: node.startedBlockId,
            started_block_timestamp: clone_opt(&node.startedBlockTimestamp),
            destination_address: node.destinationAddress.clone(),
            refund_address: clone_opt(&node.refundAddress),
            status: node.status.clone(),
            broker: broker_name,
        }
    }

    /// The offset of the next page.
    pub fn next_offset(offset: u64, limit: u64) -> (r: u64)
        requires
            offset + limit <= u64::MAX,
        ensures
            r == offset + limit,
    {
        offset + limit
    }
}

/// Where the incremental walk stops in a page: the first successful
/// node dated at or before the latest stored timestamp, or the page
/// length when none is.
pub open spec fn stop_index(edges: Seq<Edge>, latest: int) -> int
    decreases edges.len(),
{
    if edges.len() == 0 {
        0
    } else if cf_success(edges[0].node) && node_ts(edges[0].node) <= latest {
        0
    } else {
        1 + stop_index(edges.drop_first(), latest)
    }
}

pub proof fn lemma_stop_index(edges: Seq<Edge>, latest: int)
    ensures
        0 <= stop_index(edges, latest) <= edges.len(),
        stop_index(edges, latest) < edges.len() ==> {
            let s = stop_index(edges, latest);
            cf_success(edges[s].node) && node_ts(edges[s].node) <= latest
        },
        forall|k: int|
            0 <= k < stop_index(edges, latest) ==> !(cf_success((#[trigger] edges[k]).node)
                && node_ts(edges[k].node) <= latest),
    decreases edges.len(),
{
    if edges.len() > 0 && !(cf_success(edges[0].node) && node_ts(edges[0].node) <= latest) {
        lemma_stop_index(edges.drop_first(), latest);
        assert(forall|k: int| 1 <= k < edges.len() ==> edges.drop_first()[k - 1] == #[trigger] edges[k]);
    }
}

/// Processes one page of the incremental walk: maps every successful
/// node before the stop point, and reports whether an already-stored
/// record was reached (which ends the whole walk).
pub fn process_page(edges: &Vec<Edge>, latest_timestamp: i64) -> (r: (
    Vec<ChainflipSwapDetailed>,
    bool,
))
    ensures
        r.1 == (stop_index(edges@, latest_timestamp as int) < edges@.len()),
        ({
            let succ = edges@.take(stop_index(edges@, latest_timestamp as int)).filter(
                cf_success_pred(),
            );
            &&& r.0@.len() == succ.len()
            &&& forall|i: int|
                0 <= i < succ.len() ==> node_matches_record(
                    (#[trigger] succ[i]).node,
                    r.0@[i],
                )
        }),
{
    let n = edges.len();
    let mut records: Vec<ChainflipSwapDetailed> = Vec::new();
    let mut i: usize = 0;
    let mut found = false;
    let success = String::from_str("SUCCESS");
    proof {
        reveal(Seq::filter);
        assert(edges@.take(0) =~= Seq::<Edge>::empty());
    }
    while i < n && !found
        invariant
            n == edges@.len(),
            0 <= i <= n,
            success@ == cf_success_status(),
            forall|k: int|
                0 <= k < i ==> !(cf_success((#[trigger] edges@[k]).node) && node_ts(edges@[k].node)
                    <= latest_timestamp),
            found ==> i < n && cf_success(edges@[i as int].node) && node_ts(edges@[i as int].node)
                <= latest_timestamp,
            records@.len() == edges@.take(i as int).filter(cf_success_pred()).len(),
            forall|k: int|
                0 <= k < records@.len() ==> node_matches_record(
                    (#[trigger] edges@.take(i as int).filter(cf_success_pred())[k]).node,
                    records@[k],
                ),
        decreases n - i + (if found {
            0int
        } else {
            1int
        }),
    {
        let node = &edges[i].node;
        let ghost prefix = edges@.take(i as int);
        let ghost prefix1 = edges@.take(i as int + 1);
        proof {
            reveal(Seq::filter);
            assert(prefix1.drop_last() =~= prefix);
            assert(prefix1.last() == edges@[i as int]);
        }
        if node.status.eq(&success) {
            let rec = ChainFlip::map_swap_node(node);
            if rec.timestamp <= latest_timestamp {
                found = true;
            } else {
                records.push(rec);
                proof {
                    assert(cf_success_pred()(edges@[i as int]));
                    assert(prefix1.filter(cf_success_pred()) =~= prefix.filter(
                        cf_success_pred(),
                    ).push(edges@[i as int]));
                }
                i = i + 1;
            }
        } else {
            proof {
                assert(!cf_success_pred()(edges@[i as int]));
                assert(prefix1.filter(cf_success_pred()) =~= prefix.filter(cf_success_pred()));
            }
            i = i + 1;
        }
    }
    proof {
        lemma_stop_index(edges@, latest_timestamp as int);
        if found {
            assert(stop_index(edges@, latest_timestamp as int) == i as int) by {
                if stop_index(edges@, latest_timestamp as int) < i as int {
                    assert(false);
                }
                if stop_index(edges@, latest_timestamp as int) > i as int {
                    assert(false);
                }
            }
        } else {
            assert(i == n);
            assert(stop_index(edges@, latest_timestamp as int) == n as int) by {
                if stop_index(edges@, latest_timestamp as int) < n as int {
                    assert(false);
                }
            }
        }
    }
    (records, found)
}

/// Whether some row of `rows` holds exactly this record value.
pub open spec fn row_present(rows: Seq<ChainflipSwapDetailed>, rec: ChainflipSwapDetailed) -> bool {
    exists|j: int| 0 <= j < rows.len() && rows[j] == rec
}

/// Loads mapped records into the secondary table, one conflict-
/// tolerant upsert each; every loaded id is present afterwards and
/// no stored id is ever lost.
pub fn load_chainflip_records(
    table: &mut crate::store::ChainflipTable,
    records: Vec<ChainflipSwapDetailed>,
) -> (inserted: usize)
    requires
        old(table).wf(),
    ensures
        final(table).wf(),
        inserted == records@.len(),
        forall|i: int|
            0 <= i < records@.len() ==> crate::store::contains_key(
                final(table)@,
                crate::store::cf_key(),
                (#[trigger] records@[i]).swap_id@,
            ),
        forall|k: Seq<char>|
            #[trigger] crate::store::contains_key(old(table)@, crate::store::cf_key(), k)
                ==> crate::store::contains_key(final(table)@, crate::store::cf_key(), k),
        (forall|a: int, b: int|
            0 <= a < b < records@.len() ==> (#[trigger] records@[a]).swap_id@
                != (#[trigger] records@[b]).swap_id@) ==> forall|m: int|
            0 <= m < records@.len() ==> row_present(final(table)@, #[trigger] records@[m]),
{
    let total = records.len();
    let ghost orig = records@;
    let mut queue = records;
    let mut i: usize = 0;
    let ghost distinct = forall|a: int, b: int|
        0 <= a < b < orig.len() ==> (#[trigger] orig[a]).swap_id@ != (#[trigger] orig[b]).swap_id@;
    while i < total
        invariant
            total == orig.len(),
            0 <= i <= total,
            queue@ =~= orig.skip(i as int),
            table.wf(),
            distinct == (forall|a: int, b: int|
                0 <= a < b < orig.len() ==> (#[trigger] orig[a]).swap_id@
                    != (#[trigger] orig[b]).swap_id@),
            forall|m: int|
                0 <= m < i ==> crate::store::contains_key(
                    table@,
                    crate::store::cf_key(),
                    (#[trigger] orig[m]).swap_id@,
                ),
            forall|k: Seq<char>|
                #[trigger] crate::store::contains_key(old(table)@, crate::store::cf_key(), k)
                    ==> crate::store::contains_key(table@, crate::store::cf_key(), k),
            distinct ==> forall|m: int| 0 <= m < i ==> row_present(table@, #[trigger] orig[m]),
        decreases total - i,
    {
        let ghost before = table@;
        let rec = queue.remove(0);
        let ghost grec = rec;
        proof {
            assert(grec == orig[i as int]);
        }
        let _ = table.insert_chainflip_swap_detailed(rec);
        proof {
            crate::store::lemma_upsert_preserves(
                before,
                table@,
                grec,
                crate::store::cf_key(),
                true,
            );
            assert(queue@ =~= orig.skip(i + 1));
            if distinct {
                crate::store::lemma_upsert_stores_value(
                    before,
                    table@,
                    grec,
                    crate::store::cf_key(),
                );
                assert forall|m: int| 0 <= m < i + 1 implies row_present(
                    table@,
                    #[trigger] orig[m],
                ) by {
                    if m < i {
                        let j = choose|j: int|
                            0 <= j < before.len() && #[trigger] before[j] == orig[m];
                        if !crate::store::contains_key(
                            before,
                            crate::store::cf_key(),
                            grec.swap_id@,
                        ) {
                            assert(table@[j] == before[j]);
                            assert(row_present(table@, orig[m]));
                        } else {
                            crate::store::lemma_first_with_key(
                                before,
                                crate::store::cf_key(),
                                grec.swap_id@,
                            );
                            let idx = crate::store::first_with_key(
                                before,
                                crate::store::cf_key(),
                                grec.swap_id@,
                            );
                            assert(crate::store::cf_key()(before[idx]) == grec.swap_id@);
                            assert(crate::store::cf_key()(before[j]) == orig[m].swap_id@);
                            assert(orig[m].swap_id@ != grec.swap_id@);
                            assert(j != idx);
                            assert(table@[j] == before[j]);
                            assert(row_present(table@, orig[m]));
                        }
                    } else {
                        let j = choose|j: int|
                            0 <= j < table@.len() && #[trigger] table@[j] == grec;
                        assert(row_present(table@, orig[m]));
                    }
                }
            }
        }
        i = i + 1;
    }
    proof {
        if forall|a: int, b: int|
            0 <= a < b < records@.len() ==> (#[trigger] records@[a]).swap_id@
                != (#[trigger] records@[b]).swap_id@ {
            assert forall|a: int, b: int| 0 <= a < b < orig.len() implies (
            #[trigger] orig[a]).swap_id@ != (#[trigger] orig[b]).swap_id@ by {
                assert(records@[a] == orig[a]);
                assert(records@[b] == orig[b]);
            }
            assert(distinct);
            assert forall|m: int| 0 <= m < records@.len() implies row_present(
                table@,
                #[trigger] records@[m],
            ) by {
                assert(records@[m] == orig[m]);
                assert(row_present(table@, orig[m]));
            }
        }
    }
    total
}

} // verus!
