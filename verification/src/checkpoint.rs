//! Checkpoint cursor normalization.
//!
//! The durable checkpoint is a single line of text holding an opaque
//! cursor; reading it trims surrounding whitespace, and an absent
//! file means the start of history (the empty cursor).  The file I/O
//! itself runs in the unverified shell; what the cursor becomes is
//! decided here.

use vstd::prelude::*;

verus! {

/// The whitespace a cursor line is trimmed of.
pub open spec fn is_trim_ws(c: char) -> bool {
    c == ' ' || c == '\t' || c == '\n' || c == '\r'
}

fn is_trim_ws_exec(c: char) -> (b: bool)
    ensures
        b == is_trim_ws(c),
{
    c == ' ' || c == '\t' || c == '\n' || c == '\r'
}

/// `s` with leading and trailing whitespace removed.
pub open spec fn spec_trimmed(s: Seq<char>) -> Seq<char>
    decreases s.len(),
{
    if s.len() == 0 {
        s
    } else if is_trim_ws(s[0]) {
        spec_trimmed(s.drop_first())
    } else if is_trim_ws(s.last()) {
        spec_trimmed(s.drop_last())
    } else {
        s
    }
}

/// The cursor a read checkpoint yields: the stored line trimmed, or
/// the empty cursor (start of history) when no checkpoint exists.
pub open spec fn spec_checkpoint_cursor(content: Option<Seq<char>>) -> Seq<char> {
    match content {
        Option::None => Seq::empty(),
        Option::Some(s) => spec_trimmed(s),
    }
}

/// Normalizes what was read from the checkpoint file; `None` stands
/// for an absent file.
pub fn normalize_checkpoint(content: Option<String>) -> (r: String)
    ensures
        r@ == spec_checkpoint_cursor(match content {
            Option::Some(s) => Option::Some(s@),
            Option::None => Option::None,
        }),
{
    let s = match content {
        Option::Some(s) => s,
        Option::None => {
            let r = String::new();
            proof {
                assert(r@ =~= Seq::<char>::empty());
            }
            return r;
        },
    };
    let st = s.as_str();
    let n = st.unicode_len();
    let mut a: usize = 0;
    let mut b: usize = n;
    proof {
        assert(st@.subrange(0, n as int) =~= st@);
    }
    while a < b && is_trim_ws_exec(st.get_char(a))
        invariant
            b == n == st@.len(),
            0 <= a <= b,
            spec_trimmed(st@) == spec_trimmed(st@.subrange(a as int, b as int)),
        decreases b - a,
    {
        proof {
            lemma_trim_step_front(st@, a as int, b as int);
        }
        a = a + 1;
    }
    while a < b && is_trim_ws_exec(st.get_char(b - 1))
        invariant
            n == st@.len(),
            0 <= a <= b <= n,
            spec_trimmed(st@) == spec_trimmed(st@.subrange(a as int, b as int)),
            a < b ==> !is_trim_ws(st@[a as int]),
        decreases b - a,
    {
        proof {
            lemma_trim_step_back(st@, a as int, b as int);
        }
        b = b - 1;
    }
    proof {
        let sub = st@.subrange(a as int, b as int);
        if a < b {
            assert(sub[0] == st@[a as int]);
            assert(sub.last() == st@[b - 1]);
            assert(spec_trimmed(sub) == sub);
        } else {
            assert(sub =~= Seq::<char>::empty());
        }
    }
    let r = st.substring_char(a, b).to_owned();
    r
}

/// Dropping a leading whitespace character commutes with trimming.
proof fn lemma_trim_step_front(s: Seq<char>, a: int, b: int)
    requires
        0 <= a < b <= s.len(),
        is_trim_ws(s[a]),
    ensures
        spec_trimmed(s.subrange(a, b)) == spec_trimmed(s.subrange(a + 1, b)),
{
    let sub = s.subrange(a, b);
    assert(sub[0] == s[a]);
    assert(sub.drop_first() =~= s.subrange(a + 1, b));
}

/// Dropping a trailing whitespace character commutes with trimming,
/// when the front is already clean.
proof fn lemma_trim_step_back(s: Seq<char>, a: int, b: int)
    requires
        0 <= a < b <= s.len(),
        !is_trim_ws(s[a]),
        is_trim_ws(s[b - 1]),
    ensures
        spec_trimmed(s.subrange(a, b)) == spec_trimmed(s.subrange(a, b - 1)),
{
    let sub = s.subrange(a, b);
    assert(sub[0] == s[a]);
    assert(sub.last() == s[b - 1]);
    assert(sub.drop_last() =~= s.subrange(a, b - 1));
}

} // verus!
