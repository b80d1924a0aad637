//! Enrichment-feed helpers: the coin-id cache and response picking.
//!
//! The price feed is an external collaborator; the verified parts are
//! the in-process cache mapping asset names to coin ids and the
//! selection of the first hit of a search response.

use vstd::prelude::*;

use crate::models::CoinSearchResponse;
use crate::store::{contains_key, first_with_key, lemma_first_with_key_is, lemma_upsert_preserves, unique_keys, upsert_effect};

verus! {

/// The key of a cache entry.
pub open spec fn pair_key() -> spec_fn((String, String)) -> Seq<char> {
    |p: (String, String)| p.0@
}

/// A map from asset name to market-data coin id, one entry per name.
pub struct CoinIdCache {
    entries: Vec<(String, String)>,
}

impl View for CoinIdCache {
    type V = Seq<(String, String)>;

    closed spec fn view(&self) -> Seq<(String, String)> {
        self.entries@
    }
}

impl CoinIdCache {
    pub open spec fn wf(&self) -> bool {
        unique_keys(self@, pair_key())
    }

    pub fn new() -> (r: CoinIdCache)
        ensures
            r@ == Seq::<(String, String)>::empty(),
            r.wf(),
    {
        let r = CoinIdCache { entries: Vec::new() };
        proof {
            assert(r@ =~= Seq::<(String, String)>::empty());
        }
        r
    }

    /// Looks a cached coin id up by asset name.
    pub fn get_coin_id(&self, asset_name: &str) -> (r: Option<String>)
        ensures
            r is Some <==> contains_key(self@, pair_key(), asset_name@),
            r matches Some(v) ==> {
                let i = first_with_key(self@, pair_key(), asset_name@);
                v@ == self@[i].1@
            },
    {
        let key = asset_name.to_owned();
        let n = self.entries.len();
        let mut i: usize = 0;
        while i < n && !self.entries[i].0.eq(&key)
            invariant
                n == self.entries@.len(),
                0 <= i <= n,
                key@ == asset_name@,
                forall|j: int| 0 <= j < i ==> (#[trigger] self.entries@[j]).0@ != asset_name@,
            decreases n - i,
        {
            i = i + 1;
        }
        if i == n {
            proof {
                assert(!contains_key(self@, pair_key(), asset_name@));
            }
            None
        } else {
            proof {
                lemma_first_with_key_is(self@, pair_key(), asset_name@, i as int);
            }
            Some(self.entries[i].1.clone())
        }
    }

    /// Caches one mapping; a known name has its id overwritten.
    pub fn add_coin_id(&mut self, coin_name: &str, coin_id: &str)
        requires
            old(self).wf(),
        ensures
            final(self).wf(),
            exists|p: (String, String)|
                {
                    &&& (#[trigger] p.0@) == coin_name@
                    &&& p.1@ == coin_id@
                    &&& upsert_effect(old(self)@, final(self)@, p, pair_key(), true)
                },
            contains_key(final(self)@, pair_key(), coin_name@),
    {
        let pair = (coin_name.to_owned(), coin_id.to_owned());
        let ghost gp = pair;
        let n = self.entries.len();
        let mut i: usize = 0;
        while i < n && !self.entries[i].0.eq(&pair.0)
            invariant
                n == self.entries@.len(),
                0 <= i <= n,
                pair.0@ == coin_name@,
                pair.1@ == coin_id@,
                pair == gp,
                forall|j: int| 0 <= j < i ==> (#[trigger] self.entries@[j]).0@ != coin_name@,
            decreases n - i,
        {
            i = i + 1;
        }
        let ghost oldrows = self.entries@;
        if i == n {
            proof {
                assert(!contains_key(oldrows, pair_key(), coin_name@));
            }
            self.entries.push(pair);
        } else {
            proof {
                lemma_first_with_key_is(oldrows, pair_key(), coin_name@, i as int);
            }
            self.entries.set(i, pair);
        }
        proof {
            lemma_upsert_preserves(oldrows, self.entries@, gp, pair_key(), true);
        }
    }
}

/// The coin id of the first hit of a search response, if any: what
/// the search path caches.
pub fn first_coin_id(resp: &CoinSearchResponse) -> (r: Option<String>)
    ensures
        r is Some <==> resp.coins@.len() > 0,
        r matches Some(v) ==> v@ == resp.coins@[0].id@,
{
    if resp.coins.len() == 0 {
        None
    } else {
        Some(resp.coins[0].id.clone())
    }
}

} // verus!
