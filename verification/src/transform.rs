//! The raw-to-canonical transaction transformer.
//!
//! One raw swap event becomes at most one canonical record.  A
//! non-final event contributes its transaction id to the pending
//! tracker instead; a malformed event is skipped without aborting the
//! surrounding batch.  When two outbound legs exist and the first
//! parsed leg is the chain-native settlement asset, that leg is
//! relegated to the optional second slot.

use vstd::prelude::*;

use crate::amount::{convert_to_standard_unit, Amount};
use crate::asset::{asset_name_from_trade_pool, spec_asset_from_trade_pool};
use crate::errors::TransactionError;
use crate::models::{SwapTransaction, SwapTransactionFromatted, TransactionData};
use crate::num::{all_digits, parse_u64, str_to_nat};
use crate::pending::PendingTracker;
use crate::timefmt::{
    date_display_of, epoch_secs_of, format_epoch_timestamp, time_display_of, valid_epoch_nanos,
};
use crate::SwapType;

verus! {

/// The chain-native fee-settlement asset.
pub open spec fn rune_asset() -> Seq<char> {
    "THOR.RUNE"@
}

/// The status value of a finalized swap.
pub open spec fn success_status() -> Seq<char> {
    "success"@
}

/// A raw amount string: a non-empty digit run that fits a `u64`.
pub open spec fn valid_amount_str(s: Seq<char>) -> bool {
    s.len() > 0 && all_digits(s) && str_to_nat(s) <= u64::MAX as nat
}

/// Whether the first coin of a leg (if any) carries a parseable raw
/// amount; a leg with anything else in its amount field is not
/// transformable and is screened out up front.
pub open spec fn leg_amount_ok(info: TransactionData) -> bool {
    info.coins@.len() > 0 ==> valid_amount_str(info.coins@[0].amount@)
}

/// A leg parses when it has a coin whose pool notation decodes.
pub open spec fn leg_parse_ok(info: TransactionData) -> bool {
    info.coins@.len() > 0 && spec_asset_from_trade_pool(info.coins@[0].asset@) is Some
}

/// Which record-level error a failing leg reports.
pub open spec fn leg_err(info: TransactionData) -> TransactionError {
    if info.coins@.len() == 0 {
        TransactionError::MissingInCoin
    } else {
        TransactionError::MissingAssetName
    }
}

pub open spec fn leg_asset(info: TransactionData) -> Seq<char> {
    spec_asset_from_trade_pool(info.coins@[0].asset@)->0
}

/// The leg's raw amount converted to standard units at the fixed
/// per-source scale of 8 decimals.
pub open spec fn leg_amount(info: TransactionData) -> Amount {
    Amount { base: str_to_nat(info.coins@[0].amount@) as u64, decimals: 8 }
}

pub open spec fn leg_address(info: TransactionData) -> Seq<char> {
    info.address@
}

/// The outbound leg the canonical form indexes first: upstream orders
/// the fee/settlement leg first, so indexing starts from the back.
pub open spec fn out1(swap: SwapTransaction) -> TransactionData {
    swap.out_data@[swap.out_data@.len() - 1]
}

/// The second outbound leg in canonical order.
pub open spec fn out2(swap: SwapTransaction) -> TransactionData {
    swap.out_data@[swap.out_data@.len() - 2]
}

/// The inputs on which transformation is defined at all: the
/// timestamp and the amounts of the legs that will be read are well
/// formed.
pub open spec fn swap_inputs_ok(swap: SwapTransaction) -> bool {
    &&& valid_epoch_nanos(swap.date@)
    &&& (swap.in_data@.len() > 0 ==> leg_amount_ok(swap.in_data@[0]))
    &&& (swap.out_data@.len() > 0 ==> leg_amount_ok(out1(swap)))
    &&& (swap.out_data@.len() >= 2 ==> leg_amount_ok(out2(swap)))
}

pub open spec fn has_tx_id(swap: SwapTransaction) -> bool {
    swap.in_data@.len() > 0 && swap.in_data@[0].txID is Some
}

/// The natural identity of a raw event: the id of its first inbound
/// leg.
pub open spec fn tx_id_of(swap: SwapTransaction) -> Seq<char> {
    swap.in_data@[0].txID->0@
}

/// Whether a raw event transforms into a canonical record.
pub open spec fn parse_ok(swap: SwapTransaction) -> bool {
    &&& has_tx_id(swap)
    &&& leg_parse_ok(swap.in_data@[0])
    &&& swap.out_data@.len() > 0
    &&& leg_parse_ok(out1(swap))
    &&& (swap.out_data@.len() >= 2 ==> leg_parse_ok(out2(swap)))
}

/// The record-level error of an event that does not transform, in the
/// order the checks run.
pub open spec fn parse_err(swap: SwapTransaction) -> TransactionError {
    if !has_tx_id(swap) {
        TransactionError::MissingTxId
    } else if !leg_parse_ok(swap.in_data@[0]) {
        leg_err(swap.in_data@[0])
    } else if swap.out_data@.len() == 0 {
        TransactionError::MissingOutData
    } else if !leg_parse_ok(out1(swap)) {
        leg_err(out1(swap))
    } else {
        leg_err(out2(swap))
    }
}

/// How a canonical record relates to the raw event it came from.
/// Amounts are in standard units; the timestamp is in whole epoch
/// seconds; when two outbound legs exist and exactly the first parsed
/// one is the native settlement asset, the legs swap slots, so that
/// the native leg lands in the optional second slot.  When neither or
/// both legs are native, post-reversal order is preserved.
pub open spec fn record_matches(swap: SwapTransaction, rec: SwapTransactionFromatted) -> bool {
    let in0 = swap.in_data@[0];
    let secs = epoch_secs_of(swap.date@);
    &&& rec.timestamp == secs
    &&& rec.date@ == date_display_of(secs)
    &&& rec.time@ == time_display_of(secs)
    &&& rec.tx_id@ == tx_id_of(swap)
    &&& rec.in_asset@ == leg_asset(in0)
    &&& rec.in_amount == leg_amount(in0)
    &&& rec.in_address@ == leg_address(in0)
    &&& rec.in_amount_usd is None
    &&& rec.out_amount_1_usd is None
    &&& rec.out_amount_2_usd is None
    &&& rec.status@ == swap.status@
    &&& if swap.out_data@.len() < 2 {
        &&& rec.out_asset_1@ == leg_asset(out1(swap))
        &&& rec.out_amount_1 == leg_amount(out1(swap))
        &&& rec.out_address_1@ == leg_address(out1(swap))
        &&& rec.out_asset_2 is None
        &&& rec.out_amount_2 is None
        &&& rec.out_address_2 is None
    } else {
        let relegate = leg_asset(out1(swap)) == rune_asset() && leg_asset(out2(swap))
            != rune_asset();
        let p = if relegate {
            out2(swap)
        } else {
            out1(swap)
        };
        let q = if relegate {
            out1(swap)
        } else {
            out2(swap)
        };
        &&& rec.out_asset_1@ == leg_asset(p)
        &&& rec.out_amount_1 == leg_amount(p)
        &&& rec.out_address_1@ == leg_address(p)
        &&& (rec.out_asset_2 matches Some(a) && a@ == leg_asset(q))
        &&& rec.out_amount_2 == Some(leg_amount(q))
        &&& (rec.out_address_2 matches Some(a) && a@ == leg_address(q))
    }
}

/// Events that become canonical records in a batch.
pub open spec fn success_pred() -> spec_fn(SwapTransaction) -> bool {
    |s: SwapTransaction| swap_inputs_ok(s) && parse_ok(s) && s.status@ == success_status()
}

/// Events whose ids go to the pending tracker in a batch.
pub open spec fn pending_pred() -> spec_fn(SwapTransaction) -> bool {
    |s: SwapTransaction| swap_inputs_ok(s) && parse_ok(s) && s.status@ != success_status()
}

/// The ids a batch adds to the pending tracker.
pub open spec fn pending_ids(actions: Seq<SwapTransaction>) -> Set<Seq<char>>
    decreases actions.len(),
{
    if actions.len() == 0 {
        Set::empty()
    } else {
        let rest = pending_ids(actions.drop_last());
        if pending_pred()(actions.last()) {
            rest.insert(tx_id_of(actions.last()))
        } else {
            rest
        }
    }
}

/// Events a batch skips: malformed fields or a failed parse.
pub open spec fn skipped_pred() -> spec_fn(SwapTransaction) -> bool {
    |s: SwapTransaction| !(swap_inputs_ok(s) && parse_ok(s))
}

/// The reason a skipped event is logged with: the record-level parse
/// error, or a fixed text for an event whose raw fields are
/// malformed beyond parsing.
pub open spec fn skip_reason_matches(swap: SwapTransaction, e: TransactionError) -> bool {
    if !swap_inputs_ok(swap) {
        e matches TransactionError::ProcessingError(s) && s@ == "malformed raw event"@
    } else {
        e == parse_err(swap)
    }
}

/// The transformer.
pub struct TransactionHandler;

fn valid_amount_exec(s: &str) -> (b: bool)
    ensures
        b == valid_amount_str(s@),
{
    match parse_u64(s) {
        Ok(_) => true,
        Err(_) => false,
    }
}

fn leg_amount_ok_exec(info: &TransactionData) -> (b: bool)
    ensures
        b == leg_amount_ok(*info),
{
    if info.coins.len() == 0 {
        true
    } else {
        valid_amount_exec(info.coins[0].amount.as_str())
    }
}

/// Decides whether an event's raw fields are well formed enough to
/// transform; anything else is skipped as a per-record failure.
pub fn validate_swap_inputs(swap: &SwapTransaction) -> (b: bool)
    ensures
        b == swap_inputs_ok(*swap),
{
    let date_ok = match parse_u64(swap.date.as_str()) {
        Ok(v) => v <= 0x7fff_ffff_ffff_ffff,
        Err(_) => false,
    };
    if !date_ok {
        return false;
    }
    if swap.in_data.len() > 0 {
        if !leg_amount_ok_exec(&swap.in_data[0]) {
            return false;
        }
    }
    let n_out = swap.out_data.len();
    if n_out > 0 {
        if !leg_amount_ok_exec(&swap.out_data[n_out - 1]) {
            return false;
        }
    }
    if n_out >= 2 {
        if !leg_amount_ok_exec(&swap.out_data[n_out - 2]) {
            return false;
        }
    }
    true
}

impl TransactionHandler {
    /// Parses one leg: the asset name decoded from trade-pool
    /// notation, the raw amount converted to standard units, and the
    /// counterparty address.
    pub fn parse_data(&self, info: &TransactionData) -> (r: Result<
        (String, Amount, String),
        TransactionError,
    >)
        requires
            leg_amount_ok(*info),
        ensures
            r is Ok <==> leg_parse_ok(*info),
            r matches Err(e) ==> e == leg_err(*info),
            r matches Ok(t) ==> t.0@ == leg_asset(*info) && t.1 == leg_amount(*info) && t.2@
                == leg_address(*info),
    {
        if info.coins.len() == 0 {
            return Err(TransactionError::MissingInCoin);
        }
        let coin = &info.coins[0];
        let token_amount = match parse_u64(coin.amount.as_str()) {
            Ok(v) => v,
            Err(_) => {
                proof {
                    assert(false);
                }
                return Err(TransactionError::MissingInCoin);
            },
        };
        let standard_amount = convert_to_standard_unit(token_amount, 8);
        let asset_name = match asset_name_from_trade_pool(coin.asset.as_str()) {
            Some(a) => a,
            None => {
                return Err(TransactionError::MissingAssetName);
            },
        };
        Ok((asset_name, standard_amount, info.address.clone()))
    }

    /// Transforms one raw event into a canonical record, classifying
    /// outbound legs and deriving display date and time.
    pub fn parse_transaction(&self, swap: &SwapTransaction) -> (r: Result<
        SwapTransactionFromatted,
        TransactionError,
    >)
        requires
            swap_inputs_ok(*swap),
        ensures
            r is Ok <==> parse_ok(*swap),
            r matches Ok(rec) ==> record_matches(*swap, rec),
            r matches Err(e) ==> e == parse_err(*swap),
    {
        let (swap_date, swap_time) = match format_epoch_timestamp(swap.date.as_str()) {
            Ok(p) => p,
            Err(_) => {
                proof {
                    assert(false);
                }
                return Err(TransactionError::MissingTxId);
            },
        };
        let nanos = match parse_u64(swap.date.as_str()) {
            Ok(v) => v,
            Err(_) => {
                proof {
                    assert(false);
                }
                return Err(TransactionError::MissingTxId);
            },
        };
        let epoc_timestamp = (nanos / 1_000_000_000) as i64;
        if swap.in_data.len() == 0 {
            return Err(TransactionError::MissingTxId);
        }
        let tx_id = match &swap.in_data[0].txID {
            Some(t) => t.clone(),
            None => {
                return Err(TransactionError::MissingTxId);
            },
        };
        let in0 = &swap.in_data[0];
        let (in_asset, in_amount, in_address) = match self.parse_data(in0) {
            Ok(t) => t,
            Err(e) => {
                return Err(e);
            },
        };
        let n_out = swap.out_data.len();
        if n_out == 0 {
            return Err(TransactionError::MissingOutData);
        }
        let od1 = &swap.out_data[n_out - 1];
        let (asset_1, amount_1, address_1) = match self.parse_data(od1) {
            Ok(t) => t,
            Err(e) => {
                return Err(e);
            },
        };
        if n_out >= 2 {
            let od2 = &swap.out_data[n_out - 2];
            let (asset_2, amount_2, address_2) = match self.parse_data(od2) {
                Ok(t) => t,
                Err(e) => {
                    return Err(e);
                },
            };
            let rune = String::from_str("THOR.RUNE");
            if asset_1.eq(&rune) && !asset_2.eq(&rune) {
                Ok(
                    SwapTransactionFromatted {
                        timestamp: epoc_timestamp,
                        date: swap_date,
                        time: swap_time,
                        in_asset,
                        in_amount,
                        in_amount_usd: None,
                        out_asset_1: asset_2,
                        out_amount_1: amount_2,
                        out_amount_1_usd: None,
                        in_address,
                        out_address_1: address_2,
                        tx_id,
                        out_asset_2: Some(asset_1),
                        out_amount_2: Some(amount_1),
                        out_amount_2_usd: None,
                        out_address_2: Some(address_1),
                        status: swap.status.clone(),
                    },
                )
            } else {
                Ok(
                    SwapTransactionFromatted {
                        timestamp: epoc_timestamp,
                        date: swap_date,
                        time: swap_time,
                        in_asset,
                        in_amount,
                        in_amount_usd: None,
                        out_asset_1: asset_1,
                        out_amount_1: amount_1,
                        out_amount_1_usd: None,
                        in_address,
                        out_address_1: address_1,
                        tx_id,
                        out_asset_2: Some(asset_2),
                        out_amount_2: Some(amount_2),
                        out_amount_2_usd: None,
                        out_address_2: Some(address_2),
                        status: swap.status.clone(),
                    },
                )
            }
        } else {
            Ok(
                SwapTransactionFromatted {
                    timestamp: epoc_timestamp,
                    date: swap_date,
                    time: swap_time,
                    in_asset,
                    in_amount,
                    in_amount_usd: None,
                    out_asset_1: asset_1,
                    out_amount_1: amount_1,
                    out_amount_1_usd: None,
                    in_address,
                    out_address_1: address_1,
                    tx_id,
                    out_asset_2: None,
                    out_amount_2: None,
                    out_amount_2_usd: None,
                    out_address_2: None,
                    status: swap.status.clone(),
                },
            )
        }
    }

    /// Reports every event a batch skips, with its reason, for the
    /// caller to log: a skipped record never aborts the batch, but it
    /// is never silently dropped either.  The indices are strictly
    /// increasing and exactly the skipped ones.
    pub fn skip_reports(&self, actions: &Vec<SwapTransaction>) -> (r: Vec<(
        usize,
        TransactionError,
    )>)
        ensures
            forall|k: int|
                0 <= k < r@.len() ==> {
                    let (idx, e) = #[trigger] r@[k];
                    &&& 0 <= idx < actions@.len()
                    &&& skipped_pred()(actions@[idx as int])
                    &&& skip_reason_matches(actions@[idx as int], e)
                },
            forall|k1: int, k2: int| 0 <= k1 < k2 < r@.len() ==> (#[trigger] r@[k1]).0 < (#[trigger] r@[k2]).0,
            forall|i: int|
                0 <= i < actions@.len() && skipped_pred()(#[trigger] actions@[i]) ==> exists|
                    k: int,
                |
                    0 <= k < r@.len() && (#[trigger] r@[k]).0 == i,
    {
        let n = actions.len();
        let mut r: Vec<(usize, TransactionError)> = Vec::new();
        let mut i: usize = 0;
        while i < n
            invariant
                n == actions@.len(),
                0 <= i <= n,
                forall|k: int|
                    0 <= k < r@.len() ==> {
                        let (idx, e) = #[trigger] r@[k];
                        &&& 0 <= idx < i
                        &&& skipped_pred()(actions@[idx as int])
                        &&& skip_reason_matches(actions@[idx as int], e)
                    },
                forall|k1: int, k2: int|
                    0 <= k1 < k2 < r@.len() ==> (#[trigger] r@[k1]).0 < (#[trigger] r@[k2]).0,
                forall|m: int|
                    0 <= m < i && skipped_pred()(#[trigger] actions@[m]) ==> exists|k: int|
                        0 <= k < r@.len() && (#[trigger] r@[k]).0 == m,
            decreases n - i,
        {
            let swap = &actions[i];
            let ghost oldr = r@;
            if !validate_swap_inputs(swap) {
                r.push((i, TransactionError::ProcessingError(String::from_str(
                    "malformed raw event",
                ))));
            } else {
                match self.parse_transaction(swap) {
                    Ok(_) => {
                        proof {
                            assert(!skipped_pred()(actions@[i as int]));
                        }
                    },
                    Err(e) => {
                        r.push((i, e));
                    },
                }
            }
            proof {
                assert forall|m: int|
                    0 <= m < i + 1 && skipped_pred()(#[trigger] actions@[m]) implies exists|
                    k: int,
                |
                    0 <= k < r@.len() && (#[trigger] r@[k]).0 == m by {
                    if m < i {
                        let k = choose|k: int| 0 <= k < oldr.len() && (#[trigger] oldr[k]).0 == m;
                        assert(r@[k].0 == m);
                    } else {
                        assert(r@[r@.len() - 1].0 == m);
                    }
                }
            }
            i = i + 1;
        }
        r
    }

    /// Tracks a pending transaction id in the partition of its
    /// source.
    pub fn track_pending_transaction(
        &self,
        tracker: &mut PendingTracker,
        transaction_id: String,
        swap_type: SwapType,
    )
        requires
            old(tracker).wf(),
        ensures
            final(tracker).wf(),
            final(tracker).partition(swap_type) == old(tracker).partition(swap_type).insert(
                transaction_id@,
            ),
            forall|t: SwapType|
                t != swap_type ==> final(tracker).partition(t) == old(tracker).partition(t),
    {
        tracker.track(transaction_id, swap_type);
    }

    /// Transforms a whole batch.  Every final, well-formed event
    /// becomes a record, in order; every non-final parsed event is
    /// tracked as pending; malformed events are skipped.  The batch
    /// itself never fails.
    pub fn process_transactions(
        &self,
        actions: &Vec<SwapTransaction>,
        tracker: &mut PendingTracker,
        swap_type: SwapType,
    ) -> (r: Result<Vec<SwapTransactionFromatted>, TransactionError>)
        requires
            old(tracker).wf(),
        ensures
            final(tracker).wf(),
            r is Ok,
            r matches Ok(recs) ==> {
                let succ = actions@.filter(success_pred());
                &&& recs@.len() == succ.len()
                &&& forall|i: int|
                    0 <= i < succ.len() ==> record_matches(succ[i], #[trigger] recs@[i])
            },
            final(tracker).partition(swap_type) == old(tracker).partition(swap_type).union(
                pending_ids(actions@),
            ),
            forall|t: SwapType|
                t != swap_type ==> final(tracker).partition(t) == old(tracker).partition(t),
    {
        let mut result: Vec<SwapTransactionFromatted> = Vec::new();
        let n = actions.len();
        let mut idx: usize = 0;
        proof {
            reveal(Seq::filter);
            assert(actions@.take(0) =~= Seq::<SwapTransaction>::empty());
            assert(result@.len() == actions@.take(0).filter(success_pred()).len());
            assert(tracker.partition(swap_type) =~= old(tracker).partition(swap_type).union(
                pending_ids(actions@.take(0)),
            ));
        }
        while idx < n
            invariant
                n == actions@.len(),
                0 <= idx <= n,
                tracker.wf(),
                result@.len() == actions@.take(idx as int).filter(success_pred()).len(),
                forall|i: int|
                    0 <= i < result@.len() ==> record_matches(
                        actions@.take(idx as int).filter(success_pred())[i],
                        #[trigger] result@[i],
                    ),
                tracker.partition(swap_type) == old(tracker).partition(swap_type).union(
                    pending_ids(actions@.take(idx as int)),
                ),
                forall|t: SwapType|
                    t != swap_type ==> tracker.partition(t) == old(tracker).partition(t),
            decreases n - idx,
        {
            let swap = &actions[idx];
            let ghost prefix = actions@.take(idx as int);
            let ghost prefix1 = actions@.take(idx as int + 1);
            proof {
                reveal(Seq::filter);
                assert(prefix1.drop_last() =~= prefix);
                assert(prefix1.last() == actions@[idx as int]);
            }
            if validate_swap_inputs(swap) {
                match self.parse_transaction(swap) {
                    Ok(transaction_info) => {
                        let success = String::from_str("success");
                        if !transaction_info.status.eq(&success) {
                            let ghost part_before = tracker.partition(swap_type);
                            self.track_pending_transaction(
                                tracker,
                                transaction_info.tx_id,
                                swap_type,
                            );
                            proof {
                                assert(pending_pred()(actions@[idx as int]));
                                assert(pending_ids(prefix1) == pending_ids(prefix).insert(
                                    tx_id_of(actions@[idx as int]),
                                ));
                                assert(tracker.partition(swap_type) =~= old(
                                    tracker,
                                ).partition(swap_type).union(pending_ids(prefix1)));
                                assert(!success_pred()(actions@[idx as int]));
                                assert(prefix1.filter(success_pred()) =~= prefix.filter(
                                    success_pred(),
                                ));
                            }
                        } else {
                            result.push(transaction_info);
                            proof {
                                assert(success_pred()(actions@[idx as int]));
                                assert(prefix1.filter(success_pred()) =~= prefix.filter(
                                    success_pred(),
                                ).push(actions@[idx as int]));
                                assert(!pending_pred()(actions@[idx as int]));
                                assert(pending_ids(prefix1) == pending_ids(prefix));
                            }
                        }
                    },
                    Err(_) => {
                        proof {
                            assert(!parse_ok(actions@[idx as int]));
                            assert(!success_pred()(actions@[idx as int]));
                            assert(!pending_pred()(actions@[idx as int]));
                            assert(prefix1.filter(success_pred()) =~= prefix.filter(
                                success_pred(),
                            ));
                            assert(pending_ids(prefix1) == pending_ids(prefix));
                        }
                    },
                }
            } else {
                proof {
                    assert(!swap_inputs_ok(actions@[idx as int]));
                    assert(!success_pred()(actions@[idx as int]));
                    assert(!pending_pred()(actions@[idx as int]));
                    assert(prefix1.filter(success_pred()) =~= prefix.filter(success_pred()));
                    assert(pending_ids(prefix1) == pending_ids(prefix));
                }
            }
            idx = idx + 1;
        }
        proof {
            assert(actions@.take(n as int) =~= actions@);
        }
        Ok(result)
    }
}

impl TransactionHandler {
    /// Transforms a batch and loads it immediately, with per-record
    /// fallback in both stages: neither a malformed event nor a
    /// malformed record aborts the batch, so the call always
    /// succeeds.  Ids already stored are never lost, and only ids of
    /// storable transformed records can appear.
    pub fn process_and_insert_transaction(
        &self,
        table: &mut crate::store::SwapTable,
        actions: &Vec<SwapTransaction>,
        tracker: &mut PendingTracker,
        swap_type: SwapType,
    ) -> (r: Result<(), TransactionError>)
        requires
            old(table).wf(),
            old(tracker).wf(),
        ensures
            r is Ok,
            final(table).wf(),
            final(tracker).wf(),
            final(table).spec_policy() == old(table).spec_policy(),
            final(tracker).partition(swap_type) == old(tracker).partition(swap_type).union(
                pending_ids(actions@),
            ),
            forall|t: SwapType|
                t != swap_type ==> final(tracker).partition(t) == old(tracker).partition(t),
            forall|k: Seq<char>|
                #[trigger] crate::store::contains_key(old(table)@, crate::store::rec_key(), k)
                    ==> crate::store::contains_key(final(table)@, crate::store::rec_key(), k),
            // a non-final event is never written: every id the store
            // gained belongs to an event that parsed with final status
            forall|k: Seq<char>|
                #[trigger] crate::store::contains_key(final(table)@, crate::store::rec_key(), k)
                    ==> crate::store::contains_key(old(table)@, crate::store::rec_key(), k)
                    || exists|j: int|
                    {
                        &&& 0 <= j < actions@.filter(success_pred()).len()
                        &&& success_pred()(#[trigger] actions@.filter(success_pred())[j])
                        &&& tx_id_of(actions@.filter(success_pred())[j]) == k
                    },
            // the loading is owed: every final, well-formed event whose
            // derived display date is storable has its id in the table
            forall|j: int|
                0 <= j < actions@.filter(success_pred()).len()
                    && crate::timefmt::spec_format_date_for_sql(
                    date_display_of(
                        epoch_secs_of((#[trigger] actions@.filter(success_pred())[j]).date@),
                    ),
                ) is Some ==> crate::store::contains_key(
                    final(table)@,
                    crate::store::rec_key(),
                    tx_id_of(actions@.filter(success_pred())[j]),
                ),
            // loading never disturbs what is already stored
            final(table)@.len() >= old(table)@.len(),
            old(table).spec_policy() is Ignore ==> final(table)@.take(old(table)@.len() as int)
                == old(table)@,
    {
        let processed_transactions = match self.process_transactions(actions, tracker, swap_type) {
            Ok(v) => v,
            Err(_) => {
                proof {
                    assert(false);
                }
                return Ok(());
            },
        };
        let _report = table.insert_bulk(&processed_transactions);
        proof {
            let succ = actions@.filter(success_pred());
            let recs = processed_transactions@;
            assert forall|k: Seq<char>| #[trigger]
                crate::store::contains_key(table@, crate::store::rec_key(), k) implies
                crate::store::contains_key(old(table)@, crate::store::rec_key(), k) || exists|
                j: int,
            |
                {
                    &&& 0 <= j < actions@.filter(success_pred()).len()
                    &&& success_pred()(#[trigger] actions@.filter(success_pred())[j])
                    &&& tx_id_of(actions@.filter(success_pred())[j]) == k
                } by {
                if !crate::store::contains_key(old(table)@, crate::store::rec_key(), k) {
                    let i = choose|i: int|
                        0 <= i < recs.len() && crate::store::storable(#[trigger] recs[i])
                            && recs[i].tx_id@ == k;
                    assert(record_matches(succ[i], recs[i]));
                    actions@.lemma_filter_pred(success_pred(), i);
                    assert(success_pred()(succ[i]) && tx_id_of(succ[i]) == k);
                }
            }
            assert forall|j: int|
                0 <= j < succ.len() && crate::timefmt::spec_format_date_for_sql(
                    date_display_of(epoch_secs_of((#[trigger] succ[j]).date@)),
                ) is Some implies crate::store::contains_key(
                table@,
                crate::store::rec_key(),
                tx_id_of(succ[j]),
            ) by {
                assert(record_matches(succ[j], recs[j]));
                assert(recs[j].date@ == date_display_of(epoch_secs_of(succ[j].date@)));
                assert(crate::store::storable(recs[j]));
                assert(crate::store::contains_key(
                    table@,
                    crate::store::rec_key(),
                    recs[j].tx_id@,
                ));
            }
        }
        Ok(())
    }
}

/// An event with pending status contributes its id to the batch's
/// pending set.
proof fn lemma_pending_ids_contains(actions: Seq<SwapTransaction>, i: int)
    requires
        0 <= i < actions.len(),
        pending_pred()(actions[i]),
    ensures
        pending_ids(actions).contains(tx_id_of(actions[i])),
    decreases actions.len(),
{
    if i == actions.len() - 1 {
    } else {
        lemma_pending_ids_contains(actions.drop_last(), i);
    }
}

/// A non-final raw event is tracked as a pending id and never appears
/// among the canonical records of its batch: every produced record
/// carries final status.
pub proof fn lemma_pending_tracked_not_recorded(
    actions: Seq<SwapTransaction>,
    recs: Seq<SwapTransactionFromatted>,
    i: int,
)
    requires
        0 <= i < actions.len(),
        swap_inputs_ok(actions[i]),
        parse_ok(actions[i]),
        actions[i].status@ != success_status(),
        recs.len() == actions.filter(success_pred()).len(),
        forall|k: int|
            0 <= k < recs.len() ==> record_matches(
                actions.filter(success_pred())[k],
                #[trigger] recs[k],
            ),
    ensures
        pending_ids(actions).contains(tx_id_of(actions[i])),
        forall|k: int| 0 <= k < recs.len() ==> (#[trigger] recs[k]).status@ == success_status(),
{
    assert(pending_pred()(actions[i]));
    lemma_pending_ids_contains(actions, i);
    assert forall|k: int| 0 <= k < recs.len() implies (#[trigger] recs[k]).status@
        == success_status() by {
        actions.lemma_filter_pred(success_pred(), k);
        assert(success_pred()(actions.filter(success_pred())[k]));
    }
}

/// A raw event with exactly one outbound leg leaves the optional
/// second-leg slot entirely absent in its canonical record.
pub proof fn lemma_single_out_leg_no_second(swap: SwapTransaction, rec: SwapTransactionFromatted)
    requires
        swap.out_data@.len() == 1,
        record_matches(swap, rec),
    ensures
        rec.out_asset_2 is None,
        rec.out_amount_2 is None,
        rec.out_address_2 is None,
{
}

/// With two outbound legs of which exactly one is the native
/// settlement asset, that leg always lands in slot 2 and the other in
/// slot 1, regardless of their order in the source payload.
pub proof fn lemma_native_leg_relegated(swap: SwapTransaction, rec: SwapTransactionFromatted)
    requires
        swap.out_data@.len() == 2,
        parse_ok(swap),
        record_matches(swap, rec),
        (leg_asset(out1(swap)) == rune_asset()) != (leg_asset(out2(swap)) == rune_asset()),
    ensures
        rec.out_asset_2 matches Some(a) && a@ == rune_asset(),
        rec.out_asset_1@ != rune_asset(),
{
}

} // verus!
