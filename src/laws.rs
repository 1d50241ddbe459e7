//! Laws of the keyspace operations, stated over the model that the
//! operations' contracts use: `get_at`/`exists_at` read `lookup`, `set_at`
//! yields `after_set`, `del_at` yields `remove` and reports whether
//! `lookup` saw a value, and `cleanup_expired_at` yields `after_sweep`.
use vstd::prelude::*;

use crate::command::ttl_millis;
use crate::store::{after_set, after_sweep, is_expired, lookup, EntryModel, Keyspace};

verus! {

/// A key that was never set reads as absent, at any time.
pub proof fn lemma_unset_key_absent(m: Keyspace, k: Seq<char>, t: int)
    requires
        !m.contains_key(k),
    ensures
        lookup(m, k, t) is None,
{
}

/// A value written without a time to live stays visible at every time.
pub proof fn lemma_set_without_ttl_persists(m: Keyspace, k: Seq<char>, v: Seq<char>, now: int, t: int)
    ensures
        lookup(after_set(m, k, v, None, now), k, t) == Some(v),
{
}

/// A value written with a time to live of `d` milliseconds at `now` is
/// visible up to `d` milliseconds later, and absent at any time past that.
pub proof fn lemma_set_with_ttl_expires(m: Keyspace, k: Seq<char>, v: Seq<char>, d: u64, now: int, t: int)
    ensures
        now <= t <= now + d ==> lookup(after_set(m, k, v, Some(d), now), k, t) == Some(v),
        t > now + d ==> lookup(after_set(m, k, v, Some(d), now), k, t) is None,
{
}

/// A second write of a key replaces the first whole: what remains is as if
/// only the second had happened, value and deadline alike.
pub proof fn lemma_set_replaces(
    m: Keyspace,
    k: Seq<char>,
    v1: Seq<char>,
    ttl1: Option<u64>,
    now1: int,
    v2: Seq<char>,
    ttl2: Option<u64>,
    now2: int,
)
    ensures
        after_set(after_set(m, k, v1, ttl1, now1), k, v2, ttl2, now2) == after_set(m, k, v2, ttl2, now2),
        forall|t: int|
            #[trigger] lookup(after_set(after_set(m, k, v1, ttl1, now1), k, v2, ttl2, now2), k, t) == lookup(
                after_set(m, k, v2, ttl2, now2),
                k,
                t,
            ),
{
    assert(after_set(after_set(m, k, v1, ttl1, now1), k, v2, ttl2, now2) =~= after_set(m, k, v2, ttl2, now2));
}

/// A delete reports a removal exactly when the key held a live entry; once
/// it has run, a second delete of the key, at any time, reports none.
pub proof fn lemma_del_once(m: Keyspace, k: Seq<char>, now: int, later: int)
    ensures
        lookup(m, k, now).is_some() <==> (m.contains_key(k) && !is_expired(m[k], now)),
        !lookup(m.remove(k), k, later).is_some(),
{
}

/// A sweep at `now` keeps every entry that is live at `now`, unchanged, and
/// changes no read made at `now` or later.
pub proof fn lemma_sweep_keeps_live(m: Keyspace, k: Seq<char>, now: int, t: int)
    requires
        now <= t,
    ensures
        lookup(m, k, now) is Some ==> after_sweep(m, now).contains_key(k) && after_sweep(m, now)[k] == m[k],
        lookup(after_sweep(m, now), k, t) == lookup(m, k, t),
{
}

/// Holding a time to live in seconds at `u64::MAX` milliseconds changes no
/// read at a time the 64-bit clock can give: such an entry expires exactly
/// when one with the deadline `now + secs * 1000` would.
pub proof fn lemma_ttl_cap_unobservable(m: Keyspace, k: Seq<char>, v: Seq<char>, secs: u64, now: int, t: int)
    requires
        0 <= now,
        t <= u64::MAX,
    ensures
        lookup(after_set(m, k, v, Some(ttl_millis(secs)), now), k, t) == lookup(
            m.insert(k, EntryModel { value: v, expires_at: Some(now + secs * 1000) }),
            k,
            t,
        ),
{
}

} // verus!
