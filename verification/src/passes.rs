//! Pass decisions of the ingestion pipeline.
//!
//! The recurring passes alternate network fetches with decisions; the
//! decisions live here, verified, while the fetch loops themselves
//! run in the unverified shell.  Backfill walks history behind a
//! durable cursor and flushes accumulated records every fixed number
//! of pages; live-tail starts from the last stored timestamp and
//! walks pages until an empty one.

use vstd::prelude::*;

use crate::models::{ActionsFetchResponse, SwapTransaction, SwapTransactionFromatted};

verus! {

/// The resumable, cursor-checkpointed backfill pass.  The caller
/// fetches one page per step, hands it to [`BackfillState::on_page`],
/// durably persists the returned cursor, and flushes the returned
/// batch (if any) to the bulk loader.
pub struct BackfillState {
    next_page_token: String,
    batch: Vec<SwapTransactionFromatted>,
    pages_in_batch: u64,
    flush_threshold: u64,
}

impl BackfillState {
    /// The cursor of the next page to request.
    pub closed spec fn token(&self) -> Seq<char> {
        self.next_page_token@
    }

    /// The records accumulated since the last flush.
    pub closed spec fn spec_batch(&self) -> Seq<SwapTransactionFromatted> {
        self.batch@
    }

    /// Pages accumulated since the last flush.
    pub closed spec fn pages(&self) -> nat {
        self.pages_in_batch as nat
    }

    /// Pages per flush.
    pub closed spec fn threshold(&self) -> nat {
        self.flush_threshold as nat
    }

    /// The batch never holds a full flush's worth of pages between
    /// steps; with a zero threshold every page flushes at once.
    pub open spec fn inv(&self) -> bool {
        self.pages() < self.threshold() || (self.threshold() == 0 && self.pages() == 0)
    }

    /// Resumes backfill from a durably stored cursor: the first fetch
    /// after a restart uses exactly the checkpointed cursor, so a
    /// crash after page N resumes at page N+1 and never returns to
    /// page 1.
    pub fn resume(token: String, flush_threshold: u64) -> (r: BackfillState)
        ensures
            r.token() == token@,
            r.spec_batch() == Seq::<SwapTransactionFromatted>::empty(),
            r.pages() == 0,
            r.threshold() == flush_threshold as nat,
            r.inv(),
    {
        let r = BackfillState {
            next_page_token: token,
            batch: Vec::new(),
            pages_in_batch: 0,
            flush_threshold,
        };
        proof {
            assert(r.spec_batch() =~= Seq::<SwapTransactionFromatted>::empty());
        }
        r
    }

    /// The cursor the next page request must carry.
    pub fn next_request_token(&self) -> (t: &String)
        ensures
            t@ == self.token(),
    {
        &self.next_page_token
    }

    /// Takes one processed page: the batch grows by the page's
    /// records, the cursor advances to the page's continuation (the
    /// caller persists it before fetching again), and once the flush
    /// threshold is reached the whole batch is handed back for
    /// loading and cleared.
    pub fn on_page(&mut self, records: Vec<SwapTransactionFromatted>, next_token: String) -> (r:
        Option<Vec<SwapTransactionFromatted>>)
        requires
            old(self).inv(),
        ensures
            final(self).inv(),
            final(self).token() == next_token@,
            final(self).threshold() == old(self).threshold(),
            if old(self).pages() + 1 >= old(self).threshold() {
                &&& r matches Some(b) && b@ == old(self).spec_batch() + records@
                &&& final(self).spec_batch() == Seq::<SwapTransactionFromatted>::empty()
                &&& final(self).pages() == 0
            } else {
                &&& r is None
                &&& final(self).spec_batch() == old(self).spec_batch() + records@
                &&& final(self).pages() == old(self).pages() + 1
            },
    {
        let mut records = records;
        let ghost oldbatch = self.batch@;
        let ghost recs = records@;
        while records.len() > 0
            invariant
                self.batch@ + records@ == oldbatch + recs,
                self.pages_in_batch == old(self).pages_in_batch,
                self.next_page_token == old(self).next_page_token,
                self.flush_threshold == old(self).flush_threshold,
            decreases records.len(),
        {
            let ghost b0 = self.batch@;
            let ghost r0 = records@;
            let x = records.remove(0);
            self.batch.push(x);
            proof {
                assert(self.batch@ + records@ =~= b0 + r0);
            }
        }
        proof {
            assert(self.batch@ =~= oldbatch + recs);
        }
        self.next_page_token = next_token;
        self.pages_in_batch = self.pages_in_batch + 1;
        if self.pages_in_batch >= self.flush_threshold {
            let mut out: Vec<SwapTransactionFromatted> = Vec::new();
            core::mem::swap(&mut out, &mut self.batch);
            self.pages_in_batch = 0;
            proof {
                assert(self.spec_batch() =~= Seq::<SwapTransactionFromatted>::empty());
            }
            Some(out)
        } else {
            None
        }
    }

    /// Whatever is still batched, for a final flush when the walk
    /// reaches an empty page.
    pub fn take_remainder(&mut self) -> (r: Vec<SwapTransactionFromatted>)
        ensures
            r@ == old(self).spec_batch(),
            final(self).spec_batch() == Seq::<SwapTransactionFromatted>::empty(),
            final(self).pages() == 0,
            final(self).token() == old(self).token(),
            final(self).threshold() == old(self).threshold(),
            final(self).inv(),
    {
        let mut out: Vec<SwapTransactionFromatted> = Vec::new();
        core::mem::swap(&mut out, &mut self.batch);
        self.pages_in_batch = 0;
        proof {
            assert(self.spec_batch() =~= Seq::<SwapTransactionFromatted>::empty());
        }
        out
    }
}

/// Where a live-tail pass starts: the latest stored timestamp, or the
/// current time when the store is empty.
pub fn live_tail_start(latest: Option<i64>, now: i64) -> (r: i64)
    ensures
        r == match latest {
            Option::Some(t) => t,
            Option::None => now,
        },
{
    match latest {
        Option::Some(t) => t,
        Option::None => now,
    }
}

/// Whether a fetched page continues the walk: an empty page ends it.
pub fn page_has_more(resp: &ActionsFetchResponse) -> (b: bool)
    ensures
        b == (resp.actions@.len() > 0),
{
    resp.actions.len() > 0
}

/// Reverses a page of raw events; the first live-tail page arrives
/// newest-first and is processed oldest-first.
pub fn reverse_actions(actions: Vec<SwapTransaction>) -> (r: Vec<SwapTransaction>)
    ensures
        r@.len() == actions@.len(),
        forall|i: int| 0 <= i < r@.len() ==> r@[i] == actions@[actions@.len() - 1 - i],
{
    let mut actions = actions;
    let mut r: Vec<SwapTransaction> = Vec::new();
    let ghost orig = actions@;
    while actions.len() > 0
        invariant
            r@.len() + actions@.len() == orig.len(),
            actions@ =~= orig.take(actions@.len() as int),
            forall|i: int| 0 <= i < r@.len() ==> #[trigger] r@[i] == orig[orig.len() - 1 - i],
        decreases actions.len(),
    {
        let x = actions.pop().unwrap();
        r.push(x);
        proof {
            assert(actions@ =~= orig.take(actions@.len() as int));
        }
    }
    r
}

/// Bounded retry state: a fetch is attempted up to a fixed ceiling
/// with a fixed inter-attempt delay; exhausting the ceiling surfaces
/// a terminal error instead of retrying forever.
pub struct RetryState {
    attempts: u64,
    max_attempts: u64,
}

impl RetryState {
    pub closed spec fn spec_attempts(&self) -> nat {
        self.attempts as nat
    }

    pub closed spec fn spec_max(&self) -> nat {
        self.max_attempts as nat
    }

    /// Fresh state with the given attempt ceiling.
    pub fn new(max_attempts: u64) -> (r: RetryState)
        ensures
            r.spec_attempts() == 0,
            r.spec_max() == max_attempts as nat,
    {
        RetryState { attempts: 0, max_attempts }
    }

    /// Counts one attempt, before it runs.
    pub fn begin_attempt(&mut self)
        requires
            old(self).spec_attempts() < u64::MAX,
        ensures
            final(self).spec_attempts() == old(self).spec_attempts() + 1,
            final(self).spec_max() == old(self).spec_max(),
    {
        self.attempts = self.attempts + 1;
    }

    /// After a failure: whether the budget allows another attempt.
    pub fn exhausted(&self) -> (b: bool)
        ensures
            b == (self.spec_attempts() >= self.spec_max()),
    {
        self.attempts >= self.max_attempts
    }
}

} // verus!
