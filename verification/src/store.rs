//! The idempotent bulk loader and its storage model.
//!
//! One logical table per (source, record shape), with a uniqueness
//! constraint on the natural transaction identity.  Writes use an
//! upsert-or-ignore strategy: a record whose id already exists is
//! either silently skipped (append-only sources) or has all fields
//! overwritten (sources that may revise records).  A malformed record
//! never fails its batch; the loader reports per-record failures
//! against the batch size.

use vstd::prelude::*;

use crate::asset::{keep_pred, sanitize_string};
use crate::errors::TransactionError;
use crate::models::{ChainflipSwapDetailed, SwapTransactionFromatted};
use crate::timefmt::{format_date_for_sql, spec_format_date_for_sql};

verus! {

/// What a table does when an incoming record's id already exists.
#[derive(Debug, PartialEq, Eq, Structural, Clone, Copy)]
pub enum ConflictPolicy {
    Ignore,
    Overwrite,
}

/// Whether some row of `rows` carries key `k`.
pub open spec fn contains_key<V>(rows: Seq<V>, keyf: spec_fn(V) -> Seq<char>, k: Seq<char>) -> bool {
    exists|i: int| 0 <= i < rows.len() && keyf(#[trigger] rows[i]) == k
}

/// The first row index carrying key `k`, or -1.
pub open spec fn first_with_key<V>(rows: Seq<V>, keyf: spec_fn(V) -> Seq<char>, k: Seq<char>) -> int
    decreases rows.len(),
{
    if rows.len() == 0 {
        -1
    } else if keyf(rows[0]) == k {
        0
    } else {
        let r = first_with_key(rows.drop_first(), keyf, k);
        if r == -1 {
            -1
        } else {
            r + 1
        }
    }
}

/// How many rows carry key `k`.
pub open spec fn count_with_key<V>(rows: Seq<V>, keyf: spec_fn(V) -> Seq<char>, k: Seq<char>) -> nat
    decreases rows.len(),
{
    if rows.len() == 0 {
        0
    } else {
        count_with_key(rows.drop_last(), keyf, k) + if keyf(rows.last()) == k {
            1nat
        } else {
            0nat
        }
    }
}

/// The table invariant: no two rows share a key.
pub open spec fn unique_keys<V>(rows: Seq<V>, keyf: spec_fn(V) -> Seq<char>) -> bool {
    forall|i: int, j: int|
        0 <= i < j < rows.len() ==> keyf(#[trigger] rows[i]) != keyf(#[trigger] rows[j])
}

/// What one conflict-tolerant upsert does to a table: append a fresh
/// key, and on conflict either leave the table alone or overwrite the
/// conflicting row in place.
pub open spec fn upsert_effect<V>(
    old_rows: Seq<V>,
    new_rows: Seq<V>,
    v: V,
    keyf: spec_fn(V) -> Seq<char>,
    overwrite: bool,
) -> bool {
    if !contains_key(old_rows, keyf, keyf(v)) {
        new_rows == old_rows.push(v)
    } else if overwrite {
        new_rows == old_rows.update(first_with_key(old_rows, keyf, keyf(v)), v)
    } else {
        new_rows == old_rows
    }
}

pub proof fn lemma_first_with_key<V>(rows: Seq<V>, keyf: spec_fn(V) -> Seq<char>, k: Seq<char>)
    ensures
        first_with_key(rows, keyf, k) == -1 ==> !contains_key(rows, keyf, k),
        first_with_key(rows, keyf, k) != -1 ==> {
            let r = first_with_key(rows, keyf, k);
            &&& 0 <= r < rows.len()
            &&& keyf(rows[r]) == k
            &&& forall|i: int| 0 <= i < r ==> keyf(#[trigger] rows[i]) != k
        },
    decreases rows.len(),
{
    if rows.len() > 0 && keyf(rows[0]) != k {
        lemma_first_with_key(rows.drop_first(), keyf, k);
        assert(forall|i: int| 1 <= i < rows.len() ==> rows.drop_first()[i - 1] == #[trigger] rows[i]);
        if first_with_key(rows.drop_first(), keyf, k) == -1 {
            assert forall|i: int| 0 <= i < rows.len() implies keyf(#[trigger] rows[i]) != k by {
                if i >= 1 {
                    assert(rows[i] == rows.drop_first()[i - 1]);
                }
            }
        }
    }
}

/// A witness at `i`, with no earlier row carrying `k`, pins the first
/// index.
pub proof fn lemma_first_with_key_is<V>(
    rows: Seq<V>,
    keyf: spec_fn(V) -> Seq<char>,
    k: Seq<char>,
    i: int,
)
    requires
        0 <= i < rows.len(),
        keyf(rows[i]) == k,
        forall|j: int| 0 <= j < i ==> keyf(#[trigger] rows[j]) != k,
    ensures
        first_with_key(rows, keyf, k) == i,
{
    lemma_first_with_key(rows, keyf, k);
}

/// Under unique keys, a key is carried by exactly one row or none.
pub proof fn lemma_count_unique<V>(rows: Seq<V>, keyf: spec_fn(V) -> Seq<char>, k: Seq<char>)
    requires
        unique_keys(rows, keyf),
    ensures
        count_with_key(rows, keyf, k) == if contains_key(rows, keyf, k) {
            1nat
        } else {
            0nat
        },
    decreases rows.len(),
{
    if rows.len() > 0 {
        let prefix = rows.drop_last();
        lemma_count_unique(prefix, keyf, k);
        if keyf(rows.last()) == k {
            assert(!contains_key(prefix, keyf, k));
            assert(contains_key(rows, keyf, k)) by {
                assert(keyf(rows[rows.len() - 1]) == k);
            }
        } else {
            if contains_key(prefix, keyf, k) {
                let i = choose|i: int| 0 <= i < prefix.len() && keyf(#[trigger] prefix[i]) == k;
                assert(keyf(rows[i]) == k);
            }
            if contains_key(rows, keyf, k) {
                let i = choose|i: int| 0 <= i < rows.len() && keyf(#[trigger] rows[i]) == k;
                assert(i < rows.len() - 1);
                assert(keyf(prefix[i]) == k);
            }
        }
    }
}

/// An upsert keeps keys unique, establishes the new key, and leaves
/// exactly one row carrying it.
pub proof fn lemma_upsert_preserves<V>(
    old_rows: Seq<V>,
    new_rows: Seq<V>,
    v: V,
    keyf: spec_fn(V) -> Seq<char>,
    overwrite: bool,
)
    requires
        unique_keys(old_rows, keyf),
        upsert_effect(old_rows, new_rows, v, keyf, overwrite),
    ensures
        unique_keys(new_rows, keyf),
        contains_key(new_rows, keyf, keyf(v)),
        count_with_key(new_rows, keyf, keyf(v)) == 1,
        forall|k: Seq<char>|
            #[trigger] contains_key(new_rows, keyf, k) <==> contains_key(old_rows, keyf, k) || k
                == keyf(v),
{
    let k = keyf(v);
    if !contains_key(old_rows, keyf, k) {
        assert(new_rows == old_rows.push(v));
        assert(keyf(new_rows[new_rows.len() - 1]) == k);
        assert forall|i: int, j: int| 0 <= i < j < new_rows.len() implies keyf(
            #[trigger] new_rows[i],
        ) != keyf(#[trigger] new_rows[j]) by {
            if j < new_rows.len() - 1 {
                assert(new_rows[i] == old_rows[i] && new_rows[j] == old_rows[j]);
            } else {
                assert(new_rows[i] == old_rows[i]);
                if keyf(old_rows[i]) == k {
                    assert(contains_key(old_rows, keyf, k));
                }
            }
        }
        assert forall|kk: Seq<char>| #[trigger]
            contains_key(new_rows, keyf, kk) implies contains_key(old_rows, keyf, kk) || kk
            == k by {
            let i = choose|i: int| 0 <= i < new_rows.len() && keyf(#[trigger] new_rows[i]) == kk;
            if i < new_rows.len() - 1 {
                assert(keyf(old_rows[i]) == kk);
            }
        }
        assert forall|kk: Seq<char>|
            contains_key(old_rows, keyf, kk) || kk == k implies #[trigger] contains_key(
            new_rows,
            keyf,
            kk,
        ) by {
            if contains_key(old_rows, keyf, kk) {
                let i = choose|i: int| 0 <= i < old_rows.len() && keyf(#[trigger] old_rows[i])
                    == kk;
                assert(keyf(new_rows[i]) == kk);
            } else {
                assert(keyf(new_rows[new_rows.len() - 1]) == kk);
            }
        }
    } else if overwrite {
        lemma_first_with_key(old_rows, keyf, k);
        let idx = first_with_key(old_rows, keyf, k);
        assert(keyf(old_rows[idx]) == k);
        assert(new_rows == old_rows.update(idx, v));
        assert forall|i: int, j: int| 0 <= i < j < new_rows.len() implies keyf(
            #[trigger] new_rows[i],
        ) != keyf(#[trigger] new_rows[j]) by {
            assert(keyf(new_rows[i]) == keyf(old_rows[i]) || i == idx);
            assert(keyf(new_rows[j]) == keyf(old_rows[j]) || j == idx);
        }
        assert(keyf(new_rows[idx]) == k);
        assert forall|kk: Seq<char>| #[trigger]
            contains_key(new_rows, keyf, kk) implies contains_key(old_rows, keyf, kk) || kk
            == k by {
            let i = choose|i: int| 0 <= i < new_rows.len() && keyf(#[trigger] new_rows[i]) == kk;
            if i != idx {
                assert(keyf(old_rows[i]) == kk);
            }
        }
        assert forall|kk: Seq<char>|
            contains_key(old_rows, keyf, kk) || kk == k implies #[trigger] contains_key(
            new_rows,
            keyf,
            kk,
        ) by {
            if kk == k {
                assert(keyf(new_rows[idx]) == kk);
            } else {
                let i = choose|i: int| 0 <= i < old_rows.len() && keyf(#[trigger] old_rows[i])
                    == kk;
                assert(i != idx);
                assert(keyf(new_rows[i]) == kk);
            }
        }
    } else {
        assert(new_rows == old_rows);
    }
    lemma_count_unique(new_rows, keyf, k);
}

/// An overwriting upsert leaves a row holding exactly the record's
/// latest field values.
pub proof fn lemma_upsert_stores_value<V>(
    old_rows: Seq<V>,
    new_rows: Seq<V>,
    v: V,
    keyf: spec_fn(V) -> Seq<char>,
)
    requires
        upsert_effect(old_rows, new_rows, v, keyf, true),
    ensures
        exists|j: int| 0 <= j < new_rows.len() && #[trigger] new_rows[j] == v,
{
    let k = keyf(v);
    if !contains_key(old_rows, keyf, k) {
        assert(new_rows[new_rows.len() - 1] == v);
    } else {
        lemma_first_with_key(old_rows, keyf, k);
        let idx = first_with_key(old_rows, keyf, k);
        assert(new_rows[idx] == v);
    }
}

/// Loading the same record value twice is idempotent: the second
/// upsert changes nothing, and exactly one row carries the key.
pub proof fn lemma_upsert_idempotent<V>(
    t0: Seq<V>,
    t1: Seq<V>,
    t2: Seq<V>,
    v: V,
    keyf: spec_fn(V) -> Seq<char>,
    overwrite: bool,
)
    requires
        unique_keys(t0, keyf),
        upsert_effect(t0, t1, v, keyf, overwrite),
        upsert_effect(t1, t2, v, keyf, overwrite),
    ensures
        t2 == t1,
        count_with_key(t1, keyf, keyf(v)) == 1,
{
    let k = keyf(v);
    lemma_upsert_preserves(t0, t1, v, keyf, overwrite);
    lemma_upsert_preserves(t1, t2, v, keyf, overwrite);
    assert(contains_key(t1, keyf, k));
    if overwrite {
        if !contains_key(t0, keyf, k) {
            assert(t1 == t0.push(v));
            lemma_first_with_key_is(t1, keyf, k, t0.len() as int);
            assert(t2 == t1.update(t0.len() as int, v));
            assert(t2 =~= t1);
        } else {
            lemma_first_with_key(t0, keyf, k);
            let idx = first_with_key(t0, keyf, k);
            assert(t1 == t0.update(idx, v));
            lemma_first_with_key_is(t1, keyf, k, idx);
            assert(t2 == t1.update(idx, v));
            assert(t2 =~= t1);
        }
    } else {
        assert(t2 == t1);
    }
}

/// Loading a record into an append-only table twice under the same
/// id leaves the table exactly as the first load left it, with one
/// row for the id.
pub proof fn lemma_insert_again_ignored(
    t0: Seq<SwapTransactionFromatted>,
    t1: Seq<SwapTransactionFromatted>,
    t2: Seq<SwapTransactionFromatted>,
    s1: SwapTransactionFromatted,
    s2: SwapTransactionFromatted,
)
    requires
        unique_keys(t0, rec_key()),
        s1.tx_id@ == s2.tx_id@,
        upsert_effect(t0, t1, s1, rec_key(), false),
        upsert_effect(t1, t2, s2, rec_key(), false),
    ensures
        t2 == t1,
        count_with_key(t1, rec_key(), s1.tx_id@) == 1,
{
    lemma_upsert_preserves(t0, t1, s1, rec_key(), false);
}

/// Loading a record into an overwriting table twice under the same
/// id leaves one row for the id, holding the latest field values.
pub proof fn lemma_insert_again_overwrites(
    t0: Seq<SwapTransactionFromatted>,
    t1: Seq<SwapTransactionFromatted>,
    t2: Seq<SwapTransactionFromatted>,
    s1: SwapTransactionFromatted,
    s2: SwapTransactionFromatted,
)
    requires
        unique_keys(t0, rec_key()),
        s1.tx_id@ == s2.tx_id@,
        upsert_effect(t0, t1, s1, rec_key(), true),
        upsert_effect(t1, t2, s2, rec_key(), true),
    ensures
        count_with_key(t2, rec_key(), s2.tx_id@) == 1,
        exists|j: int| 0 <= j < t2.len() && #[trigger] t2[j] == s2,
{
    lemma_upsert_preserves(t0, t1, s1, rec_key(), true);
    lemma_upsert_preserves(t1, t2, s2, rec_key(), true);
    lemma_upsert_stores_value(t1, t2, s2, rec_key());
}

/// The key of a canonical swap record.
pub open spec fn rec_key() -> spec_fn(SwapTransactionFromatted) -> Seq<char> {
    |r: SwapTransactionFromatted| r.tx_id@
}

/// The key of a secondary-feed swap record.
pub open spec fn cf_key() -> spec_fn(ChainflipSwapDetailed) -> Seq<char> {
    |r: ChainflipSwapDetailed| r.swap_id@
}

/// A record the storage layer accepts: its display date reorders into
/// a storable date.
pub open spec fn storable(r: SwapTransactionFromatted) -> bool {
    spec_format_date_for_sql(r.date@) is Some
}

/// How the stored row of a single-record insert relates to its input:
/// the date is reordered for storage and all other fields are kept.
pub open spec fn stored_single_matches(
    orig: SwapTransactionFromatted,
    s: SwapTransactionFromatted,
) -> bool {
    &&& s.timestamp == orig.timestamp
    &&& Some(s.date@) == spec_format_date_for_sql(orig.date@)
    &&& s.time@ == orig.time@
    &&& s.tx_id@ == orig.tx_id@
    &&& s.in_asset@ == orig.in_asset@
    &&& s.in_amount == orig.in_amount
    &&& s.in_amount_usd == orig.in_amount_usd
    &&& s.in_address@ == orig.in_address@
    &&& s.out_asset_1@ == orig.out_asset_1@
    &&& s.out_amount_1 == orig.out_amount_1
    &&& s.out_amount_1_usd == orig.out_amount_1_usd
    &&& s.out_address_1@ == orig.out_address_1@
    &&& opt_str_eq(s.out_asset_2, orig.out_asset_2)
    &&& s.out_amount_2 == orig.out_amount_2
    &&& s.out_amount_2_usd == orig.out_amount_2_usd
    &&& opt_str_eq(s.out_address_2, orig.out_address_2)
    &&& s.status@ == orig.status@
}

/// Equality of optional strings by their characters.
pub open spec fn opt_str_eq(a: Option<String>, b: Option<String>) -> bool {
    match (a, b) {
        (Option::None, Option::None) => true,
        (Option::Some(x), Option::Some(y)) => x@ == y@,
        _ => false,
    }
}

/// An optional string sanitized: absent stays absent.
pub open spec fn opt_sanitized(s: Option<String>, orig: Option<String>) -> bool {
    match (s, orig) {
        (Option::None, Option::None) => true,
        (Option::Some(x), Option::Some(y)) => x@ == y@.filter(keep_pred()),
        _ => false,
    }
}

/// How the stored row of a bulk insert relates to its input: besides
/// the date reorder, asset and address text is sanitized.
pub open spec fn stored_bulk_matches(
    orig: SwapTransactionFromatted,
    s: SwapTransactionFromatted,
) -> bool {
    &&& s.timestamp == orig.timestamp
    &&& Some(s.date@) == spec_format_date_for_sql(orig.date@)
    &&& s.time@ == orig.time@
    &&& s.tx_id@ == orig.tx_id@
    &&& s.in_asset@ == orig.in_asset@.filter(keep_pred())
    &&& s.in_amount == orig.in_amount
    &&& s.in_amount_usd == orig.in_amount_usd
    &&& s.in_address@ == orig.in_address@.filter(keep_pred())
    &&& s.out_asset_1@ == orig.out_asset_1@.filter(keep_pred())
    &&& s.out_amount_1 == orig.out_amount_1
    &&& s.out_amount_1_usd == orig.out_amount_1_usd
    &&& s.out_address_1@ == orig.out_address_1@.filter(keep_pred())
    &&& opt_sanitized(s.out_asset_2, orig.out_asset_2)
    &&& s.out_amount_2 == orig.out_amount_2
    &&& s.out_amount_2_usd == orig.out_amount_2_usd
    &&& opt_sanitized(s.out_address_2, orig.out_address_2)
    &&& s.status@ == orig.status@
}

/// How many records of a batch the storage layer accepts.
pub open spec fn storable_count(records: Seq<SwapTransactionFromatted>) -> nat
    decreases records.len(),
{
    if records.len() == 0 {
        0
    } else {
        storable_count(records.drop_last()) + if storable(records.last()) {
            1nat
        } else {
            0nat
        }
    }
}

/// Whether a batch holds a storable record carrying key `k`; only
/// such records can change the row of `k`.
pub open spec fn batch_touches(records: Seq<SwapTransactionFromatted>, k: Seq<char>) -> bool {
    exists|m: int|
        0 <= m < records.len() && storable(#[trigger] records[m]) && records[m].tx_id@ == k
}

/// Whether the record at `i` is the last storable occurrence of its
/// key in the batch: no later storable record shares it.
pub open spec fn last_storable_occurrence(
    records: Seq<SwapTransactionFromatted>,
    i: int,
) -> bool {
    &&& 0 <= i < records.len()
    &&& storable(records[i])
    &&& forall|p: int|
        i < p < records.len() ==> !(storable(#[trigger] records[p]) && records[p].tx_id@
            == records[i].tx_id@)
}

/// Whether some row of `rows` is the stored (sanitized,
/// date-reordered) form of `orig`.
pub open spec fn bulk_row_present(
    rows: Seq<SwapTransactionFromatted>,
    orig: SwapTransactionFromatted,
) -> bool {
    exists|j: int| 0 <= j < rows.len() && stored_bulk_matches(orig, #[trigger] rows[j])
}

/// How extending a batch prefix by one record changes which keys it
/// touches.
proof fn lemma_touches_step(records: Seq<SwapTransactionFromatted>, i: int)
    requires
        0 <= i < records.len(),
    ensures
        forall|k: Seq<char>|
            #[trigger] batch_touches(records.take(i), k) ==> batch_touches(records.take(i + 1), k),
        forall|k: Seq<char>|
            #[trigger] batch_touches(records.take(i + 1), k) ==> batch_touches(records.take(i), k)
                || (storable(records[i]) && records[i].tx_id@ == k),
{
    let prefix = records.take(i);
    let prefix1 = records.take(i + 1);
    assert forall|k: Seq<char>| #[trigger]
        batch_touches(prefix, k) implies batch_touches(prefix1, k) by {
        let m = choose|m: int|
            0 <= m < prefix.len() && storable(#[trigger] prefix[m]) && prefix[m].tx_id@ == k;
        assert(storable(prefix1[m]) && prefix1[m].tx_id@ == k);
    }
    assert forall|k: Seq<char>| #[trigger]
        batch_touches(prefix1, k) implies batch_touches(prefix, k) || (storable(records[i])
        && records[i].tx_id@ == k) by {
        let m = choose|m: int|
            0 <= m < prefix1.len() && storable(#[trigger] prefix1[m]) && prefix1[m].tx_id@ == k;
        if m < i {
            assert(storable(prefix[m]) && prefix[m].tx_id@ == k);
        } else {
            assert(prefix1[m] == records[i]);
        }
    }
}

/// A record that is last of its key in an extended prefix was last of
/// its key in the shorter prefix too, and the added record does not
/// share its key when storable.
proof fn lemma_last_occurrence_step(records: Seq<SwapTransactionFromatted>, i: int)
    requires
        0 <= i < records.len(),
    ensures
        forall|m: int|
            0 <= m < i && #[trigger] last_storable_occurrence(records.take(i + 1), m)
                ==> last_storable_occurrence(records.take(i), m) && !(storable(records[i])
                && records[i].tx_id@ == records[m].tx_id@),
{
    let prefix = records.take(i);
    let prefix1 = records.take(i + 1);
    assert forall|m: int|
        0 <= m < i && #[trigger] last_storable_occurrence(prefix1, m) implies
        last_storable_occurrence(prefix, m) && !(storable(records[i]) && records[i].tx_id@
            == records[m].tx_id@) by {
        assert(prefix[m] == records[m] && prefix1[m] == records[m]);
        assert(storable(prefix[m]));
        assert forall|p: int| m < p < prefix.len() implies !(storable(#[trigger] prefix[p])
            && prefix[p].tx_id@ == prefix[m].tx_id@) by {
            assert(prefix[p] == prefix1[p]);
            assert(!(storable(prefix1[p]) && prefix1[p].tx_id@ == prefix1[m].tx_id@));
        }
        assert(prefix1[i] == records[i]);
        assert(!(storable(prefix1[i]) && prefix1[i].tx_id@ == prefix1[m].tx_id@));
    }
}

/// Sanitizes an optional text field; an absent field stays absent.
fn sanitize_opt(o: &Option<String>) -> (r: Option<String>)
    ensures
        opt_sanitized(r, *o),
{
    match o {
        Option::None => None,
        Option::Some(s) => Some(sanitize_string(s.as_str())),
    }
}

/// One logical table of canonical swap records, unique on `tx_id`.
pub struct SwapTable {
    policy: ConflictPolicy,
    rows: Vec<SwapTransactionFromatted>,
}

impl View for SwapTable {
    type V = Seq<SwapTransactionFromatted>;

    closed spec fn view(&self) -> Seq<SwapTransactionFromatted> {
        self.rows@
    }
}

impl SwapTable {
    /// The conflict policy this table was created with.
    pub closed spec fn spec_policy(&self) -> ConflictPolicy {
        self.policy
    }

    /// No two rows share a transaction id.
    pub open spec fn wf(&self) -> bool {
        unique_keys(self@, rec_key())
    }

    /// An empty table with the given conflict policy.
    pub fn new(policy: ConflictPolicy) -> (r: SwapTable)
        ensures
            r@ == Seq::<SwapTransactionFromatted>::empty(),
            r.wf(),
            r.spec_policy() == policy,
    {
        let r = SwapTable { policy, rows: Vec::new() };
        proof {
            assert(r@ =~= Seq::<SwapTransactionFromatted>::empty());
        }
        r
    }

    pub fn policy(&self) -> (p: ConflictPolicy)
        ensures
            p == self.spec_policy(),
    {
        self.policy
    }

    pub fn len(&self) -> (n: usize)
        ensures
            n == self@.len(),
    {
        self.rows.len()
    }

    /// Read one row.
    pub fn row(&self, i: usize) -> (r: &SwapTransactionFromatted)
        requires
            i < self@.len(),
        ensures
            *r == self@[i as int],
    {
        &self.rows[i]
    }

    /// How many rows carry this transaction id; under the invariant
    /// this is zero or one.
    pub fn count_rows_for(&self, tx_id: &str) -> (n: usize)
        ensures
            n == count_with_key(self@, rec_key(), tx_id@),
    {
        let key = tx_id.to_owned();
        let mut n: usize = 0;
        let mut i: usize = 0;
        proof {
            assert(self@.take(0) =~= Seq::<SwapTransactionFromatted>::empty());
        }
        while i < self.rows.len()
            invariant
                0 <= i <= self.rows@.len(),
                key@ == tx_id@,
                n == count_with_key(self.rows@.take(i as int), rec_key(), tx_id@),
                n <= i,
        decreases self.rows@.len() - i,
        {
            proof {
                assert(self.rows@.take(i + 1).drop_last() =~= self.rows@.take(i as int));
                assert(self.rows@.take(i + 1).last() == self.rows@[i as int]);
            }
            if self.rows[i].tx_id.eq(&key) {
                n = n + 1;
            }
            i = i + 1;
        }
        proof {
            assert(self.rows@.take(self.rows@.len() as int) =~= self.rows@);
        }
        n
    }

    /// The table-level upsert primitive: append a fresh id, and on
    /// conflict ignore or overwrite per the table's policy.
    fn upsert_row(&mut self, rec: SwapTransactionFromatted)
        requires
            old(self).wf(),
        ensures
            final(self).wf(),
            final(self).spec_policy() == old(self).spec_policy(),
            upsert_effect(
                old(self)@,
                final(self)@,
                rec,
                rec_key(),
                old(self).spec_policy() is Overwrite,
            ),
            contains_key(final(self)@, rec_key(), rec.tx_id@),
            count_with_key(final(self)@, rec_key(), rec.tx_id@) == 1,
    {
        let n = self.rows.len();
        let mut i: usize = 0;
        while i < n && !self.rows[i].tx_id.eq(&rec.tx_id)
            invariant
                n == self.rows@.len(),
                0 <= i <= n,
                forall|j: int| 0 <= j < i ==> (#[trigger] self.rows@[j]).tx_id@ != rec.tx_id@,
            decreases n - i,
        {
            i = i + 1;
        }
        let ghost oldrows = self.rows@;
        if i == n {
            proof {
                assert(!contains_key(oldrows, rec_key(), rec.tx_id@));
            }
            self.rows.push(rec);
        } else {
            proof {
                lemma_first_with_key_is(oldrows, rec_key(), rec.tx_id@, i as int);
            }
            match self.policy {
                ConflictPolicy::Overwrite => {
                    self.rows.set(i, rec);
                },
                ConflictPolicy::Ignore => {},
            }
        }
        proof {
            lemma_upsert_preserves(
                oldrows,
                self.rows@,
                rec,
                rec_key(),
                self.policy is Overwrite,
            );
        }
    }

    /// Inserts one record, reordering its date for storage; a record
    /// whose date is not a proper calendar date is rejected and the
    /// table is unchanged.
    pub fn insert_new_record(&mut self, record: SwapTransactionFromatted) -> (r: Result<
        (),
        TransactionError,
    >)
        requires
            old(self).wf(),
        ensures
            final(self).wf(),
            final(self).spec_policy() == old(self).spec_policy(),
            r is Ok <==> storable(record),
            r is Err ==> final(self)@ == old(self)@,
            r is Ok ==> exists|s: SwapTransactionFromatted|
                {
                    &&& #[trigger] stored_single_matches(record, s)
                    &&& upsert_effect(
                        old(self)@,
                        final(self)@,
                        s,
                        rec_key(),
                        old(self).spec_policy() is Overwrite,
                    )
                    &&& contains_key(final(self)@, rec_key(), record.tx_id@)
                    &&& count_with_key(final(self)@, rec_key(), record.tx_id@) == 1
                },
    {
        let date = match format_date_for_sql(record.date.as_str()) {
            Ok(d) => d,
            Err(_) => {
                return Err(TransactionError::StorageError(String::from_str("invalid date")));
            },
        };
        let stored = SwapTransactionFromatted {
            timestamp: record.timestamp,
            date,
            time: record.time,
            in_asset: record.in_asset,
            in_amount: record.in_amount,
            in_amount_usd: record.in_amount_usd,
            out_asset_1: record.out_asset_1,
            out_amount_1: record.out_amount_1,
            out_amount_1_usd: record.out_amount_1_usd,
            in_address: record.in_address,
            out_address_1: record.out_address_1,
            tx_id: record.tx_id,
            out_asset_2: record.out_asset_2,
            out_amount_2: record.out_amount_2,
            out_amount_2_usd: record.out_amount_2_usd,
            out_address_2: record.out_address_2,
            status: record.status,
        };
        let ghost gs = stored;
        self.upsert_row(stored);
        proof {
            assert(stored_single_matches(record, gs));
        }
        Ok(())
    }

    /// Loads a whole batch with per-record fallback: a malformed
    /// record is reported in the failed-index list and never fails
    /// the batch.  The report counts successes against the batch
    /// size; a record whose id already exists still counts as a
    /// success, the conflict policy deciding what the row keeps: an
    /// append-only table keeps every existing row unchanged, an
    /// overwriting table ends up storing the last occurrence of each
    /// key, and rows whose key the batch never touches are unchanged
    /// either way.
    pub fn insert_bulk(&mut self, records: &Vec<SwapTransactionFromatted>) -> (r: (
        usize,
        Vec<usize>,
    ))
        requires
            old(self).wf(),
        ensures
            final(self).wf(),
            final(self).spec_policy() == old(self).spec_policy(),
            r.0 + r.1@.len() == records@.len(),
            r.0 == storable_count(records@),
            forall|j: int|
                0 <= j < r.1@.len() ==> 0 <= #[trigger] r.1@[j] < records@.len() && !storable(
                    records@[r.1@[j] as int],
                ),
            forall|i: int|
                0 <= i < records@.len() && !storable(#[trigger] records@[i]) ==> r.1@.contains(
                    i as usize,
                ),
            forall|i: int|
                0 <= i < records@.len() && storable(#[trigger] records@[i]) ==> contains_key(
                    final(self)@,
                    rec_key(),
                    records@[i].tx_id@,
                ),
            forall|k: Seq<char>|
                #[trigger] contains_key(old(self)@, rec_key(), k) ==> contains_key(
                    final(self)@,
                    rec_key(),
                    k,
                ),
            forall|k: Seq<char>|
                #[trigger] contains_key(final(self)@, rec_key(), k) ==> contains_key(
                    old(self)@,
                    rec_key(),
                    k,
                ) || batch_touches(records@, k),
            // a batch without storable records is a no-op
            storable_count(records@) == 0 ==> final(self)@ == old(self)@,
            // the table only grows
            final(self)@.len() >= old(self)@.len(),
            // append-only: every existing row survives unchanged
            old(self).spec_policy() is Ignore ==> final(self)@.take(old(self)@.len() as int)
                == old(self)@,
            // frame: a row whose key the batch never touches is unchanged
            forall|j: int|
                0 <= j < old(self)@.len() && !batch_touches(
                    records@,
                    (#[trigger] old(self)@[j]).tx_id@,
                ) ==> final(self)@[j] == old(self)@[j],
            // append-only: the first occurrence of a fresh key is stored
            old(self).spec_policy() is Ignore ==> forall|i: int|
                0 <= i < records@.len() && storable(#[trigger] records@[i]) && !contains_key(
                    old(self)@,
                    rec_key(),
                    records@[i].tx_id@,
                ) && (forall|m: int|
                    0 <= m < i ==> (#[trigger] records@[m]).tx_id@ != records@[i].tx_id@)
                    ==> bulk_row_present(final(self)@, records@[i]),
            // overwriting: the last occurrence of each key is stored
            old(self).spec_policy() is Overwrite ==> forall|i: int|
                #[trigger] last_storable_occurrence(records@, i) ==> bulk_row_present(
                    final(self)@,
                    records@[i],
                ),
    {
        let total = records.len();
        let mut successful: usize = 0;
        let mut failed: Vec<usize> = Vec::new();
        let mut i: usize = 0;
        proof {
            assert(records@.take(0) =~= Seq::<SwapTransactionFromatted>::empty());
        }
        while i < total
            invariant
                total == records@.len(),
                0 <= i <= total,
                self.wf(),
                self.spec_policy() == old(self).spec_policy(),
                successful == storable_count(records@.take(i as int)),
                successful + failed@.len() == i,
                successful == 0 ==> self@ == old(self)@,
                self@.len() >= old(self)@.len(),
                self.spec_policy() is Ignore ==> self@.take(old(self)@.len() as int)
                    == old(self)@,
                forall|j: int|
                    0 <= j < failed@.len() ==> 0 <= #[trigger] failed@[j] < i && !storable(
                        records@[failed@[j] as int],
                    ),
                forall|m: int|
                    0 <= m < i && !storable(#[trigger] records@[m]) ==> failed@.contains(
                        m as usize,
                    ),
                forall|m: int|
                    0 <= m < i && storable(#[trigger] records@[m]) ==> contains_key(
                        self@,
                        rec_key(),
                        records@[m].tx_id@,
                    ),
                forall|k: Seq<char>|
                    #[trigger] contains_key(old(self)@, rec_key(), k) ==> contains_key(
                        self@,
                        rec_key(),
                        k,
                    ),
                forall|k: Seq<char>|
                    #[trigger] contains_key(self@, rec_key(), k) ==> contains_key(
                        old(self)@,
                        rec_key(),
                        k,
                    ) || batch_touches(records@.take(i as int), k),
                forall|j: int|
                    0 <= j < old(self)@.len() && !batch_touches(
                        records@.take(i as int),
                        (#[trigger] old(self)@[j]).tx_id@,
                    ) ==> self@[j] == old(self)@[j],
                self.spec_policy() is Ignore ==> forall|m: int|
                    0 <= m < i && storable(#[trigger] records@[m]) && !contains_key(
                        old(self)@,
                        rec_key(),
                        records@[m].tx_id@,
                    ) && (forall|p: int|
                        0 <= p < m ==> (#[trigger] records@[p]).tx_id@ != records@[m].tx_id@)
                        ==> bulk_row_present(self@, records@[m]),
                self.spec_policy() is Overwrite ==> forall|m: int|
                    #[trigger] last_storable_occurrence(records@.take(i as int), m)
                        ==> bulk_row_present(self@, records@.take(i as int)[m]),
            decreases total - i,
        {
            let rec = &records[i];
            let ghost prefix = records@.take(i as int);
            let ghost prefix1 = records@.take(i as int + 1);
            proof {
                assert(prefix1.drop_last() =~= prefix);
                assert(prefix1.last() == records@[i as int]);
                assert(forall|m: int| 0 <= m < prefix1.len() ==> prefix1[m] == #[trigger] records@[m]);
                assert(forall|m: int| 0 <= m < prefix.len() ==> prefix[m] == #[trigger] records@[m]);
            }
            match format_date_for_sql(rec.date.as_str()) {
                Err(_) => {
                    let ghost oldfailed = failed@;
                    failed.push(i);
                    proof {
                        assert(!storable(records@[i as int]));
                        assert forall|m: int|
                            0 <= m < i + 1 && !storable(#[trigger] records@[m]) implies failed@
                            .contains(m as usize) by {
                            if m < i {
                                let j = choose|j: int|
                                    0 <= j < oldfailed.len() && #[trigger] oldfailed[j]
                                        == m as usize;
                                assert(failed@[j] == m as usize);
                            } else {
                                assert(failed@[failed@.len() - 1] == m as usize);
                            }
                        }
                        lemma_touches_step(records@, i as int);
                        lemma_last_occurrence_step(records@, i as int);
                    }
                },
                Ok(date) => {
                    let stored = SwapTransactionFromatted {
                        timestamp: rec.timestamp,
                        date,
                        time: rec.time.clone(),
                        in_asset: sanitize_string(rec.in_asset.as_str()),
                        in_amount: rec.in_amount,
                        in_amount_usd: rec.in_amount_usd,
                        out_asset_1: sanitize_string(rec.out_asset_1.as_str()),
                        out_amount_1: rec.out_amount_1,
                        out_amount_1_usd: rec.out_amount_1_usd,
                        in_address: sanitize_string(rec.in_address.as_str()),
                        out_address_1: sanitize_string(rec.out_address_1.as_str()),
                        tx_id: rec.tx_id.clone(),
                        out_asset_2: sanitize_opt(&rec.out_asset_2),
                        out_amount_2: rec.out_amount_2,
                        out_amount_2_usd: rec.out_amount_2_usd,
                        out_address_2: sanitize_opt(&rec.out_address_2),
                        status: rec.status.clone(),
                    };
                    proof {
                        assert(stored_bulk_matches(records@[i as int], stored));
                    }
                    let ghost before = self@;
                    let ghost gstored = stored;
                    self.upsert_row(stored);
                    successful = successful + 1;
                    proof {
                        lemma_upsert_preserves(
                            before,
                            self@,
                            gstored,
                            rec_key(),
                            self.spec_policy() is Overwrite,
                        );
                        lemma_touches_step(records@, i as int);
                        lemma_last_occurrence_step(records@, i as int);
                        assert(storable(records@[i as int]));
                        assert(gstored.tx_id@ == records@[i as int].tx_id@);
                        assert(contains_key(self@, rec_key(), records@[i as int].tx_id@));
                        // the shape of this upsert: a push, or an update in place
                        let k_i = gstored.tx_id@;
                        if !contains_key(before, rec_key(), k_i) {
                            assert(self@ == before.push(gstored));
                        } else if self.spec_policy() is Overwrite {
                            lemma_first_with_key(before, rec_key(), k_i);
                        } else {
                            assert(self@ == before);
                        }
                        assert(self@.len() >= before.len());
                        if self.spec_policy() is Ignore {
                            assert(self@.take(old(self)@.len() as int) =~= before.take(
                                old(self)@.len() as int,
                            ));
                        }
                        assert forall|k: Seq<char>| #[trigger]
                            contains_key(self@, rec_key(), k) implies contains_key(
                            old(self)@,
                            rec_key(),
                            k,
                        ) || batch_touches(prefix1, k) by {
                            if k == k_i {
                                assert(storable(prefix1[i as int]) && prefix1[i as int].tx_id@
                                    == k);
                            } else {
                                assert(contains_key(before, rec_key(), k));
                            }
                        }
                        assert forall|j: int|
                            0 <= j < old(self)@.len() && !batch_touches(
                                prefix1,
                                (#[trigger] old(self)@[j]).tx_id@,
                            ) implies self@[j] == old(self)@[j] by {
                            let k_j = old(self)@[j].tx_id@;
                            assert(!(storable(prefix1[i as int]) && prefix1[i as int].tx_id@
                                == k_j));
                            assert(k_i != k_j);
                            assert(!batch_touches(prefix, k_j)) by {
                                if batch_touches(prefix, k_j) {
                                    let m = choose|m: int|
                                        0 <= m < prefix.len() && storable(#[trigger] prefix[m])
                                            && prefix[m].tx_id@ == k_j;
                                    assert(storable(prefix1[m]) && prefix1[m].tx_id@ == k_j);
                                }
                            }
                            assert(before[j] == old(self)@[j]);
                            if contains_key(before, rec_key(), k_i)
                                && self.spec_policy() is Overwrite {
                                let idx = first_with_key(before, rec_key(), k_i);
                                assert(rec_key()(before[idx]) == k_i);
                                assert(rec_key()(before[j]) == k_j);
                                assert(j != idx);
                                assert(self@[j] == before[j]);
                            } else {
                                assert(self@[j] == before[j]);
                            }
                        }
                        if self.spec_policy() is Ignore {
                            assert forall|m: int|
                                0 <= m < i + 1 && storable(#[trigger] records@[m]) && !contains_key(
                                    old(self)@,
                                    rec_key(),
                                    records@[m].tx_id@,
                                ) && (forall|p: int|
                                    0 <= p < m ==> (#[trigger] records@[p]).tx_id@
                                        != records@[m].tx_id@) implies bulk_row_present(
                                self@,
                                records@[m],
                            ) by {
                                if m < i {
                                    let j = choose|j: int|
                                        0 <= j < before.len() && stored_bulk_matches(
                                            records@[m],
                                            #[trigger] before[j],
                                        );
                                    assert(self@[j] == before[j]);
                                    assert(stored_bulk_matches(records@[m], self@[j]));
                                } else {
                                    assert(!contains_key(before, rec_key(), gstored.tx_id@));
                                    assert(self@ == before.push(gstored));
                                    assert(stored_bulk_matches(
                                        records@[m],
                                        self@[self@.len() - 1],
                                    ));
                                }
                            }
                        }
                        if self.spec_policy() is Overwrite {
                            lemma_upsert_stores_value(before, self@, gstored, rec_key());
                            assert forall|m: int| #[trigger]
                                last_storable_occurrence(prefix1, m) implies bulk_row_present(
                                self@,
                                prefix1[m],
                            ) by {
                                if m < i {
                                    assert(last_storable_occurrence(prefix, m)) by {
                                        assert(storable(prefix[m]));
                                        assert(forall|p: int|
                                            m < p < prefix.len() ==> !(storable(
                                                #[trigger] prefix[p],
                                            ) && prefix[p].tx_id@ == prefix[m].tx_id@)) by {
                                            assert(forall|p: int|
                                                m < p < prefix1.len() ==> !(storable(
                                                    #[trigger] prefix1[p],
                                                ) && prefix1[p].tx_id@ == prefix1[m].tx_id@));
                                        }
                                    }
                                    // records[m] and the fresh record carry different keys
                                    assert(!(storable(prefix1[i as int]) && prefix1[i as int].tx_id@
                                        == prefix1[m].tx_id@));
                                    assert(records@[m].tx_id@ != k_i);
                                    let j = choose|j: int|
                                        0 <= j < before.len() && stored_bulk_matches(
                                            records@[m],
                                            #[trigger] before[j],
                                        );
                                    assert(rec_key()(before[j]) == records@[m].tx_id@);
                                    if !contains_key(before, rec_key(), k_i) {
                                        assert(self@[j] == before[j]);
                                    } else {
                                        let idx = first_with_key(before, rec_key(), k_i);
                                        assert(rec_key()(before[idx]) == k_i);
                                        assert(j != idx);
                                        assert(self@[j] == before[j]);
                                    }
                                    assert(stored_bulk_matches(records@[m], self@[j]));
                                } else {
                                    let j = choose|j: int|
                                        0 <= j < self@.len() && #[trigger] self@[j] == gstored;
                                    assert(stored_bulk_matches(records@[m], self@[j]));
                                }
                            }
                        }
                    }
                },
            }
            i = i + 1;
        }
        proof {
            assert(records@.take(total as int) =~= records@);
        }
        (successful, failed)
    }

    /// The most recent stored timestamp, or `None` on an empty table.
    pub fn fetch_latest_timestamp_i64(&self) -> (r: Option<i64>)
        ensures
            r is None <==> self@.len() == 0,
            r matches Some(m) ==> (exists|i: int| 0 <= i < self@.len() && (#[trigger] self@[i]).timestamp == m)
                && (forall|i: int| 0 <= i < self@.len() ==> (#[trigger] self@[i]).timestamp <= m),
    {
        let n = self.rows.len();
        if n == 0 {
            return None;
        }
        let mut m = self.rows[0].timestamp;
        let mut i: usize = 1;
        while i < n
            invariant
                n == self.rows@.len(),
                1 <= i <= n,
                exists|j: int| 0 <= j < i && (#[trigger] self.rows@[j]).timestamp == m,
                forall|j: int| 0 <= j < i ==> (#[trigger] self.rows@[j]).timestamp <= m,
            decreases n - i,
        {
            if self.rows[i].timestamp > m {
                m = self.rows[i].timestamp;
            }
            i = i + 1;
        }
        Some(m)
    }
}

/// The table of secondary-feed swap records, unique on `swap_id`;
/// upstream may revise a record after first sight, so a conflicting
/// insert overwrites every field.
pub struct ChainflipTable {
    rows: Vec<ChainflipSwapDetailed>,
}

impl View for ChainflipTable {
    type V = Seq<ChainflipSwapDetailed>;

    closed spec fn view(&self) -> Seq<ChainflipSwapDetailed> {
        self.rows@
    }
}

impl ChainflipTable {
    /// No two rows share a swap id.
    pub open spec fn wf(&self) -> bool {
        unique_keys(self@, cf_key())
    }

    pub fn new() -> (r: ChainflipTable)
        ensures
            r@ == Seq::<ChainflipSwapDetailed>::empty(),
            r.wf(),
    {
        let r = ChainflipTable { rows: Vec::new() };
        proof {
            assert(r@ =~= Seq::<ChainflipSwapDetailed>::empty());
        }
        r
    }

    pub fn len(&self) -> (n: usize)
        ensures
            n == self@.len(),
    {
        self.rows.len()
    }

    /// Read one row.
    pub fn row(&self, i: usize) -> (r: &ChainflipSwapDetailed)
        requires
            i < self@.len(),
        ensures
            *r == self@[i as int],
    {
        &self.rows[i]
    }

    /// How many rows carry this swap id; under the invariant this is
    /// zero or one.
    pub fn count_rows_for(&self, swap_id: &str) -> (n: usize)
        ensures
            n == count_with_key(self@, cf_key(), swap_id@),
    {
        let key = swap_id.to_owned();
        let mut n: usize = 0;
        let mut i: usize = 0;
        proof {
            assert(self@.take(0) =~= Seq::<ChainflipSwapDetailed>::empty());
        }
        while i < self.rows.len()
            invariant
                0 <= i <= self.rows@.len(),
                key@ == swap_id@,
                n == count_with_key(self.rows@.take(i as int), cf_key(), swap_id@),
                n <= i,
            decreases self.rows@.len() - i,
        {
            proof {
                assert(self.rows@.take(i + 1).drop_last() =~= self.rows@.take(i as int));
                assert(self.rows@.take(i + 1).last() == self.rows@[i as int]);
            }
            if self.rows[i].swap_id.eq(&key) {
                n = n + 1;
            }
            i = i + 1;
        }
        proof {
            assert(self.rows@.take(self.rows@.len() as int) =~= self.rows@);
        }
        n
    }

    /// Upserts one record: a fresh swap id is appended, a known one
    /// has all fields overwritten.
    pub fn insert_chainflip_swap_detailed(&mut self, record: ChainflipSwapDetailed) -> (r: Result<
        (),
        TransactionError,
    >)
        requires
            old(self).wf(),
        ensures
            final(self).wf(),
            r is Ok,
            upsert_effect(old(self)@, final(self)@, record, cf_key(), true),
            contains_key(final(self)@, cf_key(), record.swap_id@),
            count_with_key(final(self)@, cf_key(), record.swap_id@) == 1,
    {
        let n = self.rows.len();
        let mut i: usize = 0;
        while i < n && !self.rows[i].swap_id.eq(&record.swap_id)
            invariant
                n == self.rows@.len(),
                0 <= i <= n,
                forall|j: int| 0 <= j < i ==> (#[trigger] self.rows@[j]).swap_id@ != record.swap_id@,
            decreases n - i,
        {
            i = i + 1;
        }
        let ghost oldrows = self.rows@;
        if i == n {
            proof {
                assert(!contains_key(oldrows, cf_key(), record.swap_id@));
            }
            self.rows.push(record);
            proof {
                lemma_upsert_preserves(oldrows, self.rows@, self.rows@.last(), cf_key(), true);
            }
        } else {
            proof {
                lemma_first_with_key_is(oldrows, cf_key(), record.swap_id@, i as int);
            }
            let ghost grec = record;
            self.rows.set(i, record);
            proof {
                lemma_upsert_preserves(oldrows, self.rows@, grec, cf_key(), true);
            }
        }
        Ok(())
    }

    /// The most recent stored timestamp, or `None` on an empty table.
    pub fn fetch_latest_timestamp(&self) -> (r: Option<i64>)
        ensures
            r is None <==> self@.len() == 0,
            r matches Some(m) ==> (exists|i: int|
                0 <= i < self@.len() && (#[trigger] self@[i]).timestamp == m) && (forall|i: int|
                0 <= i < self@.len() ==> (#[trigger] self@[i]).timestamp <= m),
    {
        let n = self.rows.len();
        if n == 0 {
            return None;
        }
        let mut m = self.rows[0].timestamp;
        let mut i: usize = 1;
        while i < n
            invariant
                n == self.rows@.len(),
                1 <= i <= n,
                exists|j: int| 0 <= j < i && (#[trigger] self.rows@[j]).timestamp == m,
                forall|j: int| 0 <= j < i ==> (#[trigger] self.rows@[j]).timestamp <= m,
            decreases n - i,
        {
            if self.rows[i].timestamp > m {
                m = self.rows[i].timestamp;
            }
            i = i + 1;
        }
        Some(m)
    }
}

} // verus!
