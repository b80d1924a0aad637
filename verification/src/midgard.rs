//! Request construction for the primary (paginated HTTP) feed.
//!
//! The feed is walked in two independent directions against the same
//! resource: newest-first via `nextPageToken` and oldest-first via
//! `prevPageToken`; a live-tail pass starts from a timestamp and a
//! retry pass re-resolves one transaction id.  Only the request URLs
//! are built here; the transport runs in the unverified shell with
//! the bounded retry state of the pass layer.

use vstd::prelude::*;

verus! {

/// The primary feed client.
pub struct MidGard;

impl MidGard {
    /// The URL of the page after `next_page_token`; an empty token
    /// asks for the first page.
    pub fn next_page_url(base_url: &str, next_page_token: &str) -> (r: String)
        ensures
            next_page_token@.len() == 0 ==> r@ == base_url@,
            next_page_token@.len() > 0 ==> r@ == base_url@ + "&nextPageToken="@
                + next_page_token@,
    {
        if next_page_token.unicode_len() == 0 {
            base_url.to_owned()
        } else {
            let mut r = base_url.to_owned();
            r.append("&nextPageToken=");
            r.append(next_page_token);
            r
        }
    }

    /// The URL of the page before `prev_page_token`.
    pub fn prev_page_url(base_url: &str, prev_page_token: &str) -> (r: String)
        ensures
            r@ == base_url@ + "&prevPageToken="@ + prev_page_token@,
    {
        let mut r = base_url.to_owned();
        r.append("&prevPageToken=");
        r.append(prev_page_token);
        r
    }

    /// The URL of the newest page at or before `timestamp`.
    pub fn timestamp_url(base_url: &str, timestamp: &str) -> (r: String)
        ensures
            r@ == base_url@ + "&fromTimestamp="@ + timestamp@,
    {
        let mut r = base_url.to_owned();
        r.append("&fromTimestamp=");
        r.append(timestamp);
        r
    }

    /// The URL that re-resolves one transaction id.
    pub fn transaction_url(base_url: &str, tx_id: &str) -> (r: String)
        ensures
            r@ == base_url@ + "?txid="@ + tx_id@,
    {
        let mut r = base_url.to_owned();
        r.append("?txid=");
        r.append(tx_id);
        r
    }
}

} // verus!
