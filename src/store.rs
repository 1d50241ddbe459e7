//! The keyspace: a map from key to entry, where an entry may carry a
//! deadline after which it counts as absent.
//!
//! Time is a count of milliseconds on a monotonic clock. Every operation has
//! a form that takes the current time as an argument (`get_at`, `set_at`,
//! ...) and whose contract is exact, and a form that reads the store's own
//! clock. The store remembers the latest time it has acted at, so the times
//! of the clock-reading operations never go back: each one happens at some
//! time no earlier than the one before.
use vstd::prelude::*;
use std::time::Instant;

use crate::clock::{millis_since, start_clock};
use crate::text::same_text;

verus! {

/// What the store holds for one key: the value, and the deadline (in
/// milliseconds) after which the entry no longer counts, if any.
pub struct EntryModel {
    pub value: Seq<char>,
    pub expires_at: Option<int>,
}

/// The abstract keyspace.
pub type Keyspace = Map<Seq<char>, EntryModel>;

/// The deadline of an entry written at `now` with a time to live of `ttl`
/// milliseconds.
pub open spec fn deadline(ttl: Option<u64>, now: int) -> Option<int> {
    match ttl {
        Some(ms) => Some(now + ms),
        None => None,
    }
}

/// An entry is expired once the time is past its deadline. The same
/// predicate governs reads, deletion and the sweep.
pub open spec fn is_expired(e: EntryModel, now: int) -> bool {
    match e.expires_at {
        Some(d) => now > d,
        None => false,
    }
}

/// What a read of `key` at time `now` sees.
pub open spec fn lookup(m: Keyspace, key: Seq<char>, now: int) -> Option<Seq<char>> {
    if m.contains_key(key) && !is_expired(m[key], now) {
        Some(m[key].value)
    } else {
        None
    }
}

/// The keyspace after writing `value` under `key` at time `now`: the entry is
/// replaced whole, value and deadline.
pub open spec fn after_set(m: Keyspace, key: Seq<char>, value: Seq<char>, ttl: Option<u64>, now: int) -> Keyspace {
    m.insert(key, EntryModel { value, expires_at: deadline(ttl, now) })
}

/// The keyspace after a sweep at time `now`: exactly the entries that are not
/// expired remain.
pub open spec fn after_sweep(m: Keyspace, now: int) -> Keyspace {
    m.restrict(m.dom().filter(|k: Seq<char>| !is_expired(m[k], now)))
}

/// The view of an optional string.
pub open spec fn opt_view(o: Option<String>) -> Option<Seq<char>> {
    match o {
        Some(s) => Some(s@),
        None => None,
    }
}

/// One stored record.
pub struct Entry {
    pub key: String,
    pub value: String,
    pub expires_at: Option<u128>,
}

impl Entry {
    pub open spec fn model(&self) -> EntryModel {
        EntryModel {
            value: self.value@,
            expires_at: match self.expires_at {
                Some(d) => Some(d as int),
                None => None,
            },
        }
    }
}

/// The keyspace that a sequence of records describes.
pub closed spec fn keyspace_of(s: Seq<Entry>) -> Keyspace {
    Map::new(
        |k: Seq<char>| exists|i: int| 0 <= i < s.len() && #[trigger] s[i].key@ == k,
        |k: Seq<char>| s[choose|i: int| 0 <= i < s.len() && #[trigger] s[i].key@ == k].model(),
    )
}

/// No two records share a key.
pub open spec fn unique_keys(s: Seq<Entry>) -> bool {
    forall|i: int, j: int|
        0 <= i < s.len() && 0 <= j < s.len() && i != j ==> #[trigger] s[i].key@ != #[trigger] s[j].key@
}

proof fn lemma_keyspace_at(s: Seq<Entry>, i: int)
    requires
        unique_keys(s),
        0 <= i < s.len(),
    ensures
        keyspace_of(s).contains_key(s[i].key@),
        keyspace_of(s)[s[i].key@] == s[i].model(),
{
    let k = s[i].key@;
    assert(keyspace_of(s).dom().contains(k));
    let j = choose|j: int| 0 <= j < s.len() && #[trigger] s[j].key@ == k;
    assert(s[j].key@ == k);
}

proof fn lemma_keyspace_update(s: Seq<Entry>, i: int, e: Entry)
    requires
        unique_keys(s),
        0 <= i < s.len(),
        e.key@ == s[i].key@,
    ensures
        unique_keys(s.update(i, e)),
        keyspace_of(s.update(i, e)) == keyspace_of(s).insert(e.key@, e.model()),
{
    let t = s.update(i, e);
    let m = keyspace_of(s).insert(e.key@, e.model());
    assert forall|k: Seq<char>| #[trigger] keyspace_of(t).contains_key(k) <==> m.contains_key(k) by {
        if keyspace_of(t).contains_key(k) {
            let j = choose|j: int| 0 <= j < t.len() && #[trigger] t[j].key@ == k;
            if j != i {
                lemma_keyspace_at(s, j);
            }
        }
        if m.contains_key(k) && k != e.key@ {
            let j = choose|j: int| 0 <= j < s.len() && #[trigger] s[j].key@ == k;
            assert(t[j].key@ == k);
        }
        if k == e.key@ {
            assert(t[i].key@ == k);
        }
    }
    assert forall|k: Seq<char>| #[trigger] keyspace_of(t).contains_key(k) implies keyspace_of(t)[k] == m[k] by {
        let j = choose|j: int| 0 <= j < t.len() && #[trigger] t[j].key@ == k;
        lemma_keyspace_at(t, j);
        if j != i {
            lemma_keyspace_at(s, j);
        }
    }
    assert(keyspace_of(t) =~= m);
}

proof fn lemma_keyspace_push(s: Seq<Entry>, e: Entry)
    requires
        unique_keys(s),
        !keyspace_of(s).contains_key(e.key@),
    ensures
        unique_keys(s.push(e)),
        keyspace_of(s.push(e)) == keyspace_of(s).insert(e.key@, e.model()),
{
    let t = s.push(e);
    let m = keyspace_of(s).insert(e.key@, e.model());
    assert forall|j: int| 0 <= j < s.len() implies #[trigger] s[j].key@ != e.key@ by {
        if s[j].key@ == e.key@ {
            assert(keyspace_of(s).dom().contains(e.key@));
        }
    }
    assert(unique_keys(t));
    assert forall|k: Seq<char>| #[trigger] keyspace_of(t).contains_key(k) <==> m.contains_key(k) by {
        if keyspace_of(t).contains_key(k) {
            let j = choose|j: int| 0 <= j < t.len() && #[trigger] t[j].key@ == k;
            if j < s.len() {
                lemma_keyspace_at(s, j);
            }
        }
        if m.contains_key(k) && k != e.key@ {
            let j = choose|j: int| 0 <= j < s.len() && #[trigger] s[j].key@ == k;
            assert(t[j].key@ == k);
        }
        if k == e.key@ {
            assert(t[s.len() as int].key@ == k);
        }
    }
    assert forall|k: Seq<char>| #[trigger] keyspace_of(t).contains_key(k) implies keyspace_of(t)[k] == m[k] by {
        let j = choose|j: int| 0 <= j < t.len() && #[trigger] t[j].key@ == k;
        lemma_keyspace_at(t, j);
        if j < s.len() {
            lemma_keyspace_at(s, j);
        }
    }
    assert(keyspace_of(t) =~= m);
}

proof fn lemma_keyspace_remove(s: Seq<Entry>, i: int)
    requires
        unique_keys(s),
        0 <= i < s.len(),
    ensures
        unique_keys(s.remove(i)),
        keyspace_of(s.remove(i)) == keyspace_of(s).remove(s[i].key@),
{
    let t = s.remove(i);
    let m = keyspace_of(s).remove(s[i].key@);
    assert forall|a: int, b: int| 0 <= a < t.len() && 0 <= b < t.len() && a != b
        implies #[trigger] t[a].key@ != #[trigger] t[b].key@ by {
        let a2 = if a < i { a } else { a + 1 };
        let b2 = if b < i { b } else { b + 1 };
        assert(t[a] == s[a2] && t[b] == s[b2]);
    }
    assert forall|k: Seq<char>| #[trigger] keyspace_of(t).contains_key(k) <==> m.contains_key(k) by {
        if keyspace_of(t).contains_key(k) {
            let j = choose|j: int| 0 <= j < t.len() && #[trigger] t[j].key@ == k;
            let j2 = if j < i { j } else { j + 1 };
            assert(t[j] == s[j2]);
            lemma_keyspace_at(s, j2);
        }
        if m.contains_key(k) {
            let j = choose|j: int| 0 <= j < s.len() && #[trigger] s[j].key@ == k;
            let j2 = if j < i { j } else { j - 1 };
            assert(t[j2] == s[j]);
        }
    }
    assert forall|k: Seq<char>| #[trigger] keyspace_of(t).contains_key(k) implies keyspace_of(t)[k] == m[k] by {
        let j = choose|j: int| 0 <= j < t.len() && #[trigger] t[j].key@ == k;
        let j2 = if j < i { j } else { j + 1 };
        assert(t[j] == s[j2]);
        lemma_keyspace_at(t, j);
        lemma_keyspace_at(s, j2);
    }
    assert(keyspace_of(t) =~= m);
}

/// The key-value store. Exclusive access (`&mut`) is what makes each
/// operation atomic; callers that share a store put it behind a lock.
///
/// The records are kept in a `Vec` with one record per key: vstd specifies
/// its hash maps for keys of integer type only, not for `String`.
pub struct Store {
    entries: Vec<Entry>,
    origin: Instant,
    last: u64,
}

impl View for Store {
    type V = Keyspace;

    closed spec fn view(&self) -> Keyspace {
        keyspace_of(self.entries@)
    }
}

impl Store {
    /// At most one record per key.
    pub closed spec fn wf(&self) -> bool {
        unique_keys(self.entries@)
    }

    /// The latest time, in milliseconds, at which the store has read its
    /// clock.
    pub closed spec fn time(&self) -> int {
        self.last as int
    }

    /// The position of `key`'s record, if there is one.
    fn find(&self, key: &str) -> (r: Option<usize>)
        requires
            self.wf(),
        ensures
            match r {
                Some(i) => i < self.entries@.len() && self.entries@[i as int].key@ == key@
                    && self@.contains_key(key@) && self@[key@] == self.entries@[i as int].model(),
                None => !self@.contains_key(key@),
            },
    {
        let mut i: usize = 0;
        while i < self.entries.len()
            invariant
                self.wf(),
                i <= self.entries@.len(),
                forall|j: int| 0 <= j < i ==> #[trigger] self.entries@[j].key@ != key@,
            decreases self.entries@.len() - i,
        {
            if same_text(self.entries[i].key.as_str(), key) {
                proof {
                    lemma_keyspace_at(self.entries@, i as int);
                }
                return Some(i);
            }
            i = i + 1;
        }
        None
    }

    /// An empty store, with its clock started.
    pub fn new() -> (r: Store)
        ensures
            r.wf(),
            r@ == Keyspace::empty(),
            r.time() == 0,
    {
        let r = Store { entries: Vec::new(), origin: start_clock(), last: 0 };
        assert(r@ =~= Keyspace::empty());
        r
    }

    /// Whether `e` counts as expired at `now`.
    fn entry_expired(e: &Entry, now: u64) -> (r: bool)
        ensures
            r == is_expired(e.model(), now as int),
    {
        match e.expires_at {
            Some(d) => now as u128 > d,
            None => false,
        }
    }

    /// The value of `key` as seen at time `now`.
    pub fn get_at(&self, key: &str, now: u64) -> (r: Option<String>)
        requires
            self.wf(),
        ensures
            opt_view(r) == lookup(self@, key@, now as int),
    {
        match self.find(key) {
            Some(i) => {
                if Self::entry_expired(&self.entries[i], now) {
                    None
                } else {
                    Some(self.entries[i].value.clone())
                }
            },
            None => None,
        }
    }

    /// Whether `key` holds a value at time `now`.
    pub fn exists_at(&self, key: &str, now: u64) -> (r: bool)
        requires
            self.wf(),
        ensures
            r == lookup(self@, key@, now as int).is_some(),
    {
        self.get_at(key, now).is_some()
    }

    /// Writes `value` under `key` at time `now`, replacing any entry the key
    /// had. With a time to live of `ttl` milliseconds the entry expires once
    /// more than that has passed; without one it never does.
    pub fn set_at(&mut self, key: String, value: String, ttl: Option<u64>, now: u64)
        requires
            old(self).wf(),
        ensures
            final(self).wf(),
            final(self)@ == after_set(old(self)@, key@, value@, ttl, now as int),
            final(self).time() == old(self).time(),
    {
        let expires_at: Option<u128> = match ttl {
            Some(ms) => Some(now as u128 + ms as u128),
            None => None,
        };
        let found = self.find(key.as_str());
        let e = Entry { key, value, expires_at };
        match found {
            Some(i) => {
                proof {
                    lemma_keyspace_update(self.entries@, i as int, e);
                }
                self.entries.set(i, e);
            },
            None => {
                proof {
                    lemma_keyspace_push(self.entries@, e);
                }
                self.entries.push(e);
            },
        }
        assert(e.model() == EntryModel { value: value@, expires_at: deadline(ttl, now as int) });
    }

    /// Removes `key`'s entry. Returns whether it held a value at time `now`:
    /// an entry that had already expired is removed too, and counts as absent.
    pub fn del_at(&mut self, key: &str, now: u64) -> (r: bool)
        requires
            old(self).wf(),
        ensures
            final(self).wf(),
            final(self)@ == old(self)@.remove(key@),
            r == lookup(old(self)@, key@, now as int).is_some(),
            final(self).time() == old(self).time(),
    {
        match self.find(key) {
            Some(i) => {
                let live = !Self::entry_expired(&self.entries[i], now);
                proof {
                    lemma_keyspace_remove(self.entries@, i as int);
                }
                self.entries.remove(i);
                live
            },
            None => {
                assert(self@ =~= self@.remove(key@));
                false
            },
        }
    }

    /// Removes every entry that is expired at time `now`, and only those.
    pub fn cleanup_expired_at(&mut self, now: u64)
        requires
            old(self).wf(),
        ensures
            final(self).wf(),
            final(self)@ == after_sweep(old(self)@, now as int),
            final(self).time() == old(self).time(),
    {
        let ghost before = self@;
        let mut i: usize = 0;
        while i < self.entries.len()
            invariant
                self.wf(),
                self.time() == old(self).time(),
                i <= self.entries@.len(),
                forall|j: int| 0 <= j < i ==> !is_expired(#[trigger] self.entries@[j].model(), now as int),
                forall|k: Seq<char>| #[trigger] self@.contains_key(k)
                    ==> before.contains_key(k) && self@[k] == before[k],
                forall|k: Seq<char>| #[trigger] before.contains_key(k) && !is_expired(before[k], now as int)
                    ==> self@.contains_key(k),
            decreases self.entries@.len() - i,
        {
            if Self::entry_expired(&self.entries[i], now) {
                let ghost prev = self.entries@;
                let ghost prev_view = self@;
                proof {
                    lemma_keyspace_remove(prev, i as int);
                    lemma_keyspace_at(prev, i as int);
                }
                self.entries.remove(i);
                assert forall|j: int| 0 <= j < i implies !is_expired(#[trigger] self.entries@[j].model(), now as int) by {
                    assert(self.entries@[j] == prev[j]);
                }
                assert(self@ == prev_view.remove(prev[i as int].key@));
                assert forall|k: Seq<char>| #[trigger] self@.contains_key(k)
                    implies before.contains_key(k) && self@[k] == before[k] by {
                    assert(prev_view.contains_key(k));
                }
            } else {
                i = i + 1;
            }
        }
        let ghost swept = after_sweep(before, now as int);
        assert forall|k: Seq<char>| #[trigger] self@.contains_key(k) implies !is_expired(self@[k], now as int) by {
            let j = choose|j: int| 0 <= j < self.entries@.len() && #[trigger] self.entries@[j].key@ == k;
            lemma_keyspace_at(self.entries@, j);
        }
        assert(self@ =~= swept);
    }

    /// The time now: the clock's reading in milliseconds since the store
    /// was created, or the store's latest time if that is later.
    fn clock_now(&self) -> (now: u64)
        ensures
            now >= self.time(),
    {
        let read = millis_since(&self.origin);
        if read > self.last {
            read
        } else {
            self.last
        }
    }

    /// Reads the clock and moves the store's time up to the reading; returns
    /// the new time, which is never earlier than the one before.
    pub fn tick(&mut self) -> (now: u64)
        ensures
            now >= old(self).time(),
            final(self).time() == now,
            final(self)@ == old(self)@,
            final(self).wf() == old(self).wf(),
    {
        let now = self.clock_now();
        self.last = now;
        now
    }

    /// The value of `key` now: what a read sees at some time no earlier than
    /// the store's latest.
    pub fn get(&self, key: &str) -> (r: Option<String>)
        requires
            self.wf(),
        ensures
            exists|t: int| self.time() <= t && opt_view(r) == #[trigger] lookup(self@, key@, t),
    {
        let now = self.clock_now();
        self.get_at(key, now)
    }

    /// Whether `key` holds a value now; the same check as `get`.
    pub fn key_exists(&self, key: &str) -> (r: bool)
        requires
            self.wf(),
        ensures
            exists|t: int| self.time() <= t && r == (#[trigger] lookup(self@, key@, t)).is_some(),
    {
        let now = self.clock_now();
        self.exists_at(key, now)
    }

    /// Writes `value` under `key` now, replacing any entry the key had; `ttl`
    /// is in milliseconds.
    pub fn set(&mut self, key: String, value: String, ttl: Option<u64>)
        requires
            old(self).wf(),
        ensures
            final(self).wf(),
            exists|t: int|
                old(self).time() <= t && final(self).time() == t && final(self)@ == #[trigger] after_set(
                    old(self)@,
                    key@,
                    value@,
                    ttl,
                    t,
                ),
    {
        let now = self.tick();
        self.set_at(key, value, ttl, now);
    }

    /// Removes `key`'s entry; returns whether it held a value now.
    pub fn del(&mut self, key: &str) -> (r: bool)
        requires
            old(self).wf(),
        ensures
            final(self).wf(),
            final(self)@ == old(self)@.remove(key@),
            exists|t: int|
                old(self).time() <= t && final(self).time() == t && r == (#[trigger] lookup(
                    old(self)@,
                    key@,
                    t,
                )).is_some(),
    {
        let now = self.tick();
        self.del_at(key, now)
    }

    /// Removes every entry that is expired now, and only those.
    pub fn cleanup_expired(&mut self)
        requires
            old(self).wf(),
        ensures
            final(self).wf(),
            exists|t: int|
                old(self).time() <= t && final(self).time() == t && final(self)@ == #[trigger] after_sweep(
                    old(self)@,
                    t,
                ),
    {
        let now = self.tick();
        self.cleanup_expired_at(now);
    }
}

} // verus!
