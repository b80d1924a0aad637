//! Pool and asset notation.
//!
//! Upstream feeds name pools in source-specific delimited notation
//! (`"BTC.BTC"`, `"BTC~BTC"`, `"ETH/USDC"`).  The canonical asset name
//! joins the first two delimited parts: with a dot for ordinary pools,
//! and with the original delimiter for trade pools.

use vstd::prelude::*;

use crate::scan::{find_first, lemma_find_first_is, lemma_find_first_none};

verus! {

/// The delimiter class of ordinary pool notation.
pub open spec fn is_pool_delim(c: char) -> bool {
    ||| c == '.'
    ||| c == '/'
    ||| c == '~'
    ||| c == '-'
    ||| c == '_'
    ||| c == '|'
    ||| c == ':'
    ||| c == ';'
    ||| c == ','
    ||| c == '+'
    ||| c == '*'
    ||| c == '^'
    ||| c == '$'
    ||| c == '!'
    ||| c == '?'
}

/// The delimiter class of trade-pool notation.
pub open spec fn is_trade_delim(c: char) -> bool {
    c == '.' || c == '/' || c == '~'
}

pub open spec fn pool_pred() -> spec_fn(char) -> bool {
    |c: char| is_pool_delim(c)
}

pub open spec fn trade_pred() -> spec_fn(char) -> bool {
    |c: char| is_trade_delim(c)
}

fn pool_delim_exec(c: char) -> (b: bool)
    ensures
        b == is_pool_delim(c),
{
    c == '.' || c == '/' || c == '~' || c == '-' || c == '_' || c == '|' || c == ':' || c == ';'
        || c == ',' || c == '+' || c == '*' || c == '^' || c == '$' || c == '!' || c == '?'
}

fn trade_delim_exec(c: char) -> (b: bool)
    ensures
        b == is_trade_delim(c),
{
    c == '.' || c == '/' || c == '~'
}

/// The first two parts of `s` under the delimiter predicate, or `None`
/// if `s` holds no delimiter at all: `(first, delim index, second)`.
pub open spec fn split_two(s: Seq<char>, pred: spec_fn(char) -> bool) -> Option<
    (Seq<char>, int, Seq<char>),
> {
    let i = find_first(s, pred);
    if i == -1 {
        None
    } else {
        let rest = s.skip(i + 1);
        let j = find_first(rest, pred);
        let second = if j == -1 {
            rest
        } else {
            rest.take(j)
        };
        Some((s.take(i), i, second))
    }
}

/// The canonical asset name of an ordinary pool: the first two parts
/// joined with a dot, or `None` when the notation holds no delimiter.
pub open spec fn spec_asset_from_pool(s: Seq<char>) -> Option<Seq<char>> {
    match split_two(s, pool_pred()) {
        None => None,
        Some(p) => Some(p.0 + seq!['.'] + p.2),
    }
}

/// The canonical asset name of a trade pool: the first two parts
/// joined with the delimiter that separated them.
pub open spec fn spec_asset_from_trade_pool(s: Seq<char>) -> Option<Seq<char>> {
    match split_two(s, trade_pred()) {
        None => None,
        Some(p) => Some(p.0 + seq![s[p.1]] + p.2),
    }
}

/// Scans for the first index at or after `from` holding a pool (or
/// trade) delimiter; `n` means none.
fn scan_delim(s: &str, from: usize, trade: bool) -> (r: usize)
    requires
        from <= s@.len(),
    ensures
        from <= r <= s@.len(),
        forall|k: int|
            from <= k < r ==> !(if trade {
                is_trade_delim(#[trigger] s@[k])
            } else {
                is_pool_delim(s@[k])
            }),
        r < s@.len() ==> (if trade {
            is_trade_delim(s@[r as int])
        } else {
            is_pool_delim(s@[r as int])
        }),
{
    let n = s.unicode_len();
    let mut i = from;
    while i < n
        invariant
            from <= i <= n == s@.len(),
            forall|k: int|
                from <= k < i ==> !(if trade {
                    is_trade_delim(#[trigger] s@[k])
                } else {
                    is_pool_delim(s@[k])
                }),
        decreases n - i,
    {
        let c = s.get_char(i);
        let hit = if trade {
            trade_delim_exec(c)
        } else {
            pool_delim_exec(c)
        };
        if hit {
            return i;
        }
        i = i + 1;
    }
    n
}

/// Decodes ordinary pool notation into a canonical dotted asset name.
pub fn asset_name_from_pool(pool_name: &str) -> (r: Option<String>)
    ensures
        r is Some <==> spec_asset_from_pool(pool_name@) is Some,
        r matches Some(a) ==> Some(a@) == spec_asset_from_pool(pool_name@),
{
    proof {
        reveal_strlit(".");
    }
    let n = pool_name.unicode_len();
    let i = scan_delim(pool_name, 0, false);
    if i == n {
        proof {
            lemma_find_first_none(pool_name@, pool_pred());
        }
        return None;
    }
    proof {
        lemma_find_first_is(pool_name@, pool_pred(), i as int);
    }
    let j = scan_delim(pool_name, i + 1, false);
    proof {
        let rest = pool_name@.skip(i + 1);
        assert(forall|m: int| 0 <= m < rest.len() ==> rest[m] == pool_name@[i + 1 + m]);
        if j == n {
            lemma_find_first_none(rest, pool_pred());
        } else {
            lemma_find_first_is(rest, pool_pred(), j - i - 1);
        }
    }
    let mut r = String::from_str(pool_name.substring_char(0, i));
    r.append(".");
    r.append(pool_name.substring_char(i + 1, j));
    proof {
        let p = split_two(pool_name@, pool_pred()).unwrap();
        assert(pool_name@.subrange(i + 1, j as int) =~= (if find_first(
            pool_name@.skip(i + 1),
            pool_pred(),
        ) == -1 {
            pool_name@.skip(i + 1)
        } else {
            pool_name@.skip(i + 1).take(j - i - 1)
        }));
        assert(r@ =~= p.0 + seq!['.'] + p.2);
    }
    Some(r)
}

/// Decodes trade-pool notation into a canonical asset name that keeps
/// the pool's own delimiter.
pub fn asset_name_from_trade_pool(pool_name: &str) -> (r: Option<String>)
    ensures
        r is Some <==> spec_asset_from_trade_pool(pool_name@) is Some,
        r matches Some(a) ==> Some(a@) == spec_asset_from_trade_pool(pool_name@),
{
    let n = pool_name.unicode_len();
    let i = scan_delim(pool_name, 0, true);
    if i == n {
        proof {
            lemma_find_first_none(pool_name@, trade_pred());
        }
        return None;
    }
    proof {
        lemma_find_first_is(pool_name@, trade_pred(), i as int);
    }
    let j = scan_delim(pool_name, i + 1, true);
    proof {
        let rest = pool_name@.skip(i + 1);
        assert(forall|m: int| 0 <= m < rest.len() ==> rest[m] == pool_name@[i + 1 + m]);
        if j == n {
            lemma_find_first_none(rest, trade_pred());
        } else {
            lemma_find_first_is(rest, trade_pred(), j - i - 1);
        }
    }
    let mut r = String::from_str(pool_name.substring_char(0, i));
    r.append(pool_name.substring_char(i, i + 1));
    r.append(pool_name.substring_char(i + 1, j));
    proof {
        let p = split_two(pool_name@, trade_pred()).unwrap();
        assert(pool_name@.subrange(i as int, i + 1) =~= seq![pool_name@[i as int]]);
        assert(pool_name@.subrange(i + 1, j as int) =~= (if find_first(
            pool_name@.skip(i + 1),
            trade_pred(),
        ) == -1 {
            pool_name@.skip(i + 1)
        } else {
            pool_name@.skip(i + 1).take(j - i - 1)
        }));
        assert(r@ =~= p.0 + seq![pool_name@[p.1]] + p.2);
    }
    Some(r)
}

/// Whether Unicode classes `c` as alphanumeric; only the standard
/// library's tables decide this.
pub uninterp spec fn unicode_alphanumeric(c: char) -> bool;

/// Relies on char::is_alphanumeric: the result depends on the
/// character alone, by the Unicode tables compiled into std.
#[verifier::external_body]
fn char_is_alphanumeric(c: char) -> (r: bool)
    ensures
        r == unicode_alphanumeric(c),
{
    c.is_alphanumeric()
}

/// The characters a sanitized string keeps: all of ASCII, and any
/// other character that Unicode classes as alphanumeric.
pub open spec fn keep_char(c: char) -> bool {
    (c as nat) < 128 || unicode_alphanumeric(c)
}

pub open spec fn keep_pred() -> spec_fn(char) -> bool {
    |c: char| keep_char(c)
}

/// Drops every character that is neither ASCII nor alphanumeric.
pub fn sanitize_string(input: &str) -> (r: String)
    ensures
        r@ == input@.filter(keep_pred()),
{
    let n = input.unicode_len();
    let mut r = String::new();
    let mut i: usize = 0;
    proof {
        reveal(Seq::filter);
        assert(input@.take(0) =~= Seq::<char>::empty());
        assert(r@ =~= input@.take(0).filter(keep_pred()));
    }
    while i < n
        invariant
            n == input@.len(),
            0 <= i <= n,
            r@ == input@.take(i as int).filter(keep_pred()),
        decreases n - i,
    {
        let c = input.get_char(i);
        let keep = (c as u32) < 128 || char_is_alphanumeric(c);
        proof {
            reveal(Seq::filter);
            assert(input@.take(i + 1).drop_last() =~= input@.take(i as int));
            assert(input@.take(i + 1).last() == input@[i as int]);
        }
        if keep {
            r.append(input.substring_char(i, i + 1));
            proof {
                assert(input@.subrange(i as int, i + 1) =~= seq![input@[i as int]]);
                assert(r@ =~= input@.take(i + 1).filter(keep_pred()));
            }
        } else {
            proof {
                assert(r@ =~= input@.take(i + 1).filter(keep_pred()));
            }
        }
        i = i + 1;
    }
    proof {
        assert(input@.take(n as int) =~= input@);
    }
    r
}

} // verus!
