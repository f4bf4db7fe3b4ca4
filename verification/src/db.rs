//! The store engine: keys, their values, and the instants at which they expire.
//!
//! Time is a count of nanoseconds on the store's own clock, which starts when
//! the store is made. An operation whose name ends in `_at` is given the
//! instant at which it runs; its twin without the ending reads the clock.

use std::time::Instant;
use vstd::hash_map::*;
use vstd::prelude::*;
use vstd::string::*;
use vstd::utf8::*;

use crate::decimal::{decimal_text, i32_value, lemma_text_round_trip, parse_i32, signed_text};
use crate::text::{contains, lemma_contains_empty, same_text, text_contains, texts};

verus! {

/// A point on the monotonic clock of std.
#[verifier::external_type_specification]
#[verifier::external_body]
pub struct ExInstant(Instant);

/// `Instant::now`: the present instant. Nothing is promised of it.
#[verifier::external_body]
fn clock_start() -> Instant {
    Instant::now()
}

/// `Instant::elapsed`, as nanoseconds: the time that has gone by since
/// `origin`. Nothing is promised of the number; std returns it without
/// panicking for an `origin` that lies in the past.
#[verifier::external_body]
fn clock_read(origin: &Instant) -> u128 {
    origin.elapsed().as_nanos()
}

/// What the store holds for a key, as a mathematical value.
pub struct Slot {
    pub value: Seq<char>,
    /// The instant from which on the entry is gone, if it expires.
    pub deadline: Option<u128>,
}

/// The store as a mathematical value.
pub type Store = Map<Seq<char>, Slot>;

/// An entry with this deadline is gone at `now`: the deadline has been
/// reached.
pub open spec fn expired(deadline: Option<u128>, now: u128) -> bool {
    deadline matches Some(d) && d <= now
}

/// The key has an entry that is not gone at `now`.
pub open spec fn live(store: Store, key: Seq<char>, now: u128) -> bool {
    store.contains_key(key) && !expired(store[key].deadline, now)
}

/// The deadline of an entry set at `now` to last for `ex`: their sum. There
/// is none if the entry is to last for ever, or if the sum lies beyond the
/// last instant of the clock, which no reading reaches.
pub open spec fn deadline_of(ex: Option<u128>, now: u128) -> Option<u128> {
    match ex {
        Some(d) => if now + d > u128::MAX {
            None
        } else {
            Some((now + d) as u128)
        },
        None => None,
    }
}

/// The store after `set`.
pub open spec fn store_set(
    store: Store,
    key: Seq<char>,
    value: Seq<char>,
    ex: Option<u128>,
    now: u128,
) -> Store {
    store.insert(key, Slot { value, deadline: deadline_of(ex, now) })
}

/// What `get` returns.
pub open spec fn store_get(store: Store, key: Seq<char>, now: u128) -> Option<Seq<char>> {
    if live(store, key, now) {
        Some(store[key].value)
    } else {
        None
    }
}

/// The store after `get`: an entry that is gone has been taken out.
pub open spec fn store_purge(store: Store, key: Seq<char>, now: u128) -> Store {
    if live(store, key, now) {
        store
    } else {
        store.remove(key)
    }
}

/// The key is one that `keys` returns: it is live and contains the pattern.
pub open spec fn store_key_matches(
    store: Store,
    key: Seq<char>,
    pattern: Seq<char>,
    now: u128,
) -> bool {
    live(store, key, now) && text_contains(key, pattern)
}

/// `out` lists the live keys that contain the pattern: each of them once, and
/// nothing else.
pub open spec fn lists_keys(
    out: Seq<Seq<char>>,
    store: Store,
    pattern: Seq<char>,
    now: u128,
) -> bool {
    &&& out.no_duplicates()
    &&& forall|k: Seq<char>| #[trigger]
        out.contains(k) <==> store_key_matches(store, k, pattern, now)
}

/// Why a counter could not be moved.
#[derive(Clone, Copy, Debug, PartialEq, Eq)]
pub enum CounterError {
    /// The value under the key is not a decimal integer of 32 bits.
    NotAnInteger,
    /// The new count would not fit in 32 bits.
    OutOfRange,
}

/// The number under a key: that which its live value denotes, or zero where
/// there is no live value.
pub open spec fn counter_value(store: Store, key: Seq<char>, now: u128) -> Option<i32> {
    if live(store, key, now) {
        i32_value(encode_utf8(store[key].value))
    } else {
        Some(0)
    }
}

/// What a step of a counter by `delta` returns.
pub open spec fn counter_result(store: Store, key: Seq<char>, now: u128, delta: int) -> Result<
    i32,
    CounterError,
> {
    match counter_value(store, key, now) {
        None => Err(CounterError::NotAnInteger),
        Some(v) => if i32::MIN <= v + delta <= i32::MAX {
            Ok((v + delta) as i32)
        } else {
            Err(CounterError::OutOfRange)
        },
    }
}

/// The store after a step of a counter by `delta`. On success the key holds
/// the text of the new count; a live entry keeps its deadline, a new one has
/// none. On failure nothing changes.
pub open spec fn counter_store(store: Store, key: Seq<char>, now: u128, delta: int) -> Store {
    match counter_result(store, key, now, delta) {
        Ok(n) => store.insert(
            key,
            Slot {
                value: decimal_text(n as int),
                deadline: if live(store, key, now) {
                    store[key].deadline
                } else {
                    None
                },
            },
        ),
        Err(_) => store,
    }
}

/// The view of an optional string.
pub open spec fn opt_text(r: Option<String>) -> Option<Seq<char>> {
    match r {
        Some(s) => Some(s@),
        None => None,
    }
}

struct Entry {
    value: String,
    deadline: Option<u128>,
}

impl Entry {
    spec fn slot(self) -> Slot {
        Slot { value: self.value@, deadline: self.deadline }
    }

    fn is_expired(&self, now: u128) -> (r: bool)
        ensures
            r == expired(self.deadline, now),
    {
        match self.deadline {
            Some(d) => d <= now,
            None => false,
        }
    }

    fn duplicate(&self) -> (r: Entry)
        ensures
            r.slot() == self.slot(),
    {
        Entry { value: self.value.clone(), deadline: self.deadline }
    }
}

/// The entries by key, and the keys in the order in which they came.
struct Table {
    entries: StringHashMap<Entry>,
    names: Vec<String>,
}

impl Table {
    /// No key is listed twice, and the listed keys are those with an entry.
    spec fn wf(self) -> bool {
        &&& forall|i: int, j: int|
            0 <= i < j < self.names@.len() ==> self.names@[i]@ != self.names@[j]@
        &&& forall|i: int|
            0 <= i < self.names@.len() ==> self.entries@.contains_key(#[trigger] self.names@[i]@)
        &&& forall|k: Seq<char>| #[trigger]
            self.entries@.contains_key(k) ==> exists|i: int|
                0 <= i < self.names@.len() && self.names@[i]@ == k
    }

    spec fn store(self) -> Store {
        self.entries@.map_values(|e: Entry| e.slot())
    }

    fn new() -> (t: Table)
        ensures
            t.wf(),
            t.store() == Store::empty(),
    {
        let t = Table { entries: StringHashMap::new(), names: Vec::new() };
        assert(t.store() =~= Store::empty());
        t
    }

    fn put(&mut self, key: String, entry: Entry)
        requires
            old(self).wf(),
        ensures
            final(self).wf(),
            final(self).store() == old(self).store().insert(key@, entry.slot()),
    {
        if !self.entries.contains_key(key.as_str()) {
            self.names.push(key.clone());
        }
        self.entries.insert(key, entry);
        proof {
            let start = *old(self);
            let end = *self;
            assert(end.store() =~= start.store().insert(key@, entry.slot()));
            assert forall|k: Seq<char>| #[trigger]
                end.entries@.contains_key(k) implies exists|i: int|
                0 <= i < end.names@.len() && end.names@[i]@ == k by {
                if start.entries@.contains_key(k) {
                    let i = choose|i: int| 0 <= i < start.names@.len() && start.names@[i]@ == k;
                    assert(end.names@[i]@ == k);
                } else {
                    assert(k == key@);
                    assert(end.names@[end.names@.len() - 1]@ == k);
                }
            }
        }
    }

    fn take(&mut self, key: &str)
        requires
            old(self).wf(),
        ensures
            final(self).wf(),
            final(self).store() == old(self).store().remove(key@),
    {
        if !self.entries.contains_key(key) {
            assert(self.store() =~= old(self).store().remove(key@));
            return ;
        }
        let n: usize = self.names.len();
        let mut at: usize = 0;
        while at < n && !same_text(self.names[at].as_str(), key)
            invariant
                at <= n,
                n == self.names@.len(),
                *self == *old(self),
                forall|j: int| 0 <= j < at ==> self.names@[j]@ != key@,
            decreases n - at,
        {
            at = at + 1;
        }
        proof {
            let i = choose|i: int| 0 <= i < self.names@.len() && self.names@[i]@ == key@;
            assert(at < n);
        }
        self.entries.remove(key);
        self.names.remove(at);
        proof {
            let start = *old(self);
            let end = *self;
            assert(end.store() =~= start.store().remove(key@));
            assert forall|i: int| 0 <= i < end.names@.len() implies end.entries@.contains_key(
                #[trigger] end.names@[i]@,
            ) by {
                if i < at {
                    assert(end.names@[i] == start.names@[i]);
                } else {
                    assert(end.names@[i] == start.names@[i + 1]);
                }
            }
            assert forall|k: Seq<char>| #[trigger]
                end.entries@.contains_key(k) implies exists|i: int|
                0 <= i < end.names@.len() && end.names@[i]@ == k by {
                let i = choose|i: int| 0 <= i < start.names@.len() && start.names@[i]@ == k;
                if i < at {
                    assert(end.names@[i]@ == k);
                } else {
                    assert(end.names@[i - 1]@ == k);
                }
            }
        }
    }

    /// Of the first `upto` keys in their order, those that are live and
    /// contain the pattern.
    spec fn listed(self, upto: int, pattern: Seq<char>, now: u128) -> Seq<Seq<char>>
        decreases upto,
    {
        if upto <= 0 {
            Seq::empty()
        } else {
            let rest = self.listed(upto - 1, pattern, now);
            let key = self.names@[upto - 1]@;
            if store_key_matches(self.store(), key, pattern, now) {
                rest.push(key)
            } else {
                rest
            }
        }
    }

    fn matching(&self, pattern: &str, now: u128) -> (out: Vec<String>)
        requires
            self.wf(),
        ensures
            texts(out@) == self.listed(self.names@.len() as int, pattern@, now),
            lists_keys(texts(out@), self.store(), pattern@, now),
    {
        let mut out: Vec<String> = Vec::new();
        let n: usize = self.names.len();
        let mut i: usize = 0;
        while i < n
            invariant
                i <= n,
                n == self.names@.len(),
                self.wf(),
                texts(out@) == self.listed(i as int, pattern@, now),
                forall|a: int|
                    0 <= a < out@.len() ==> exists|j: int|
                        0 <= j < i && self.names@[j]@ == #[trigger] out@[a]@,
                forall|a: int, b: int| 0 <= a < b < out@.len() ==> out@[a]@ != out@[b]@,
                forall|j: int|
                    0 <= j < i && store_key_matches(
                        self.store(),
                        #[trigger] self.names@[j]@,
                        pattern@,
                        now,
                    ) ==> exists|a: int| 0 <= a < out@.len() && out@[a]@ == self.names@[j]@,
                forall|a: int|
                    0 <= a < out@.len() ==> store_key_matches(
                        self.store(),
                        #[trigger] out@[a]@,
                        pattern@,
                        now,
                    ),
            decreases n - i,
        {
            let name = &self.names[i];
            let ghost before = out@;
            match self.entries.get(name.as_str()) {
                Some(entry) => {
                    if !entry.is_expired(now) && contains(name.as_str(), pattern) {
                        out.push(name.clone());
                        proof {
                            assert(texts(out@) =~= texts(before).push(name@));
                            assert(out@[before.len() as int]@ == name@);
                            assert forall|a: int| 0 <= a < out@.len() implies exists|j: int|
                                0 <= j < i + 1 && self.names@[j]@ == #[trigger] out@[a]@ by {
                                if a < before.len() {
                                    let j = choose|j: int|
                                        0 <= j < i && self.names@[j]@ == before[a]@;
                                    assert(self.names@[j]@ == out@[a]@);
                                } else {
                                    assert(self.names@[i as int]@ == out@[a]@);
                                }
                            }
                            assert forall|a: int, b: int|
                                0 <= a < b < out@.len() implies out@[a]@ != out@[b]@ by {
                                if b == before.len() {
                                    let j = choose|j: int|
                                        0 <= j < i && self.names@[j]@ == before[a]@;
                                }
                            }
                            assert forall|j: int|
                                0 <= j < i + 1 && store_key_matches(
                                    self.store(),
                                    #[trigger] self.names@[j]@,
                                    pattern@,
                                    now,
                                ) implies exists|a: int|
                                0 <= a < out@.len() && out@[a]@ == self.names@[j]@ by {
                                if j < i {
                                    let a = choose|a: int|
                                        0 <= a < before.len() && before[a]@ == self.names@[j]@;
                                    assert(out@[a]@ == self.names@[j]@);
                                } else {
                                    assert(out@[before.len() as int]@ == self.names@[j]@);
                                }
                            }
                        }
                    }
                },
                None => {},
            }
            i = i + 1;
        }
        proof {
            let listed = texts(out@);
            let store = self.store();
            assert forall|a: int, b: int|
                0 <= a < listed.len() && 0 <= b < listed.len() && a != b implies listed[a]
                != listed[b] by {
                if a < b {
                    assert(out@[a]@ != out@[b]@);
                } else {
                    assert(out@[b]@ != out@[a]@);
                }
            }
            assert forall|k: Seq<char>| #[trigger]
                listed.contains(k) <==> store_key_matches(store, k, pattern@, now) by {
                if listed.contains(k) {
                    let a = choose|a: int| 0 <= a < listed.len() && listed[a] == k;
                    assert(out@[a]@ == k);
                }
                if store_key_matches(store, k, pattern@, now) {
                    assert(self.entries@.contains_key(k));
                    let j = choose|j: int| 0 <= j < self.names@.len() && self.names@[j]@ == k;
                    let a = choose|a: int| 0 <= a < out@.len() && out@[a]@ == self.names@[j]@;
                    assert(listed[a] == k);
                }
            }
        }
        out
    }

    /// Tables with the same entries and the same keys in the same order list
    /// the same.
    proof fn lemma_listed_same(self, other: Table, upto: int, pattern: Seq<char>, now: u128)
        requires
            self.store() == other.store(),
            texts(self.names@) == texts(other.names@),
            upto <= self.names@.len(),
        ensures
            self.listed(upto, pattern, now) == other.listed(upto, pattern, now),
        decreases upto,
    {
        if upto > 0 {
            self.lemma_listed_same(other, upto - 1, pattern, now);
            assert(texts(self.names@).len() == self.names@.len());
            assert(texts(other.names@).len() == other.names@.len());
            assert(self.names@[upto - 1]@ == texts(self.names@)[upto - 1]);
            assert(other.names@[upto - 1]@ == texts(other.names@)[upto - 1]);
        }
    }

    fn duplicate(&self) -> (t: Table)
        requires
            self.wf(),
        ensures
            t.wf(),
            t.store() == self.store(),
            texts(t.names@) == texts(self.names@),
    {
        let mut entries: StringHashMap<Entry> = StringHashMap::new();
        let mut names: Vec<String> = Vec::new();
        let n: usize = self.names.len();
        let mut i: usize = 0;
        while i < n
            invariant
                i <= n,
                n == self.names@.len(),
                self.wf(),
                names@.len() == i,
                forall|j: int| 0 <= j < i ==> names@[j]@ == self.names@[j]@,
                forall|k: Seq<char>| #[trigger]
                    entries@.contains_key(k) <==> exists|j: int|
                        0 <= j < i && self.names@[j]@ == k,
                forall|k: Seq<char>| #[trigger]
                    entries@.contains_key(k) ==> entries@[k].slot() == self.entries@[k].slot(),
            decreases n - i,
        {
            let name = &self.names[i];
            let ghost before = entries@;
            match self.entries.get(name.as_str()) {
                Some(entry) => {
                    entries.insert(name.clone(), entry.duplicate());
                },
                None => {},
            }
            names.push(name.clone());
            proof {
                assert forall|k: Seq<char>| #[trigger]
                    entries@.contains_key(k) <==> exists|j: int|
                        0 <= j < i + 1 && self.names@[j]@ == k by {
                    if entries@.contains_key(k) {
                        if before.contains_key(k) {
                            let j = choose|j: int| 0 <= j < i && self.names@[j]@ == k;
                            assert(0 <= j < i + 1 && self.names@[j]@ == k);
                        } else {
                            assert(self.names@[i as int]@ == k);
                        }
                    }
                    if exists|j: int| 0 <= j < i + 1 && self.names@[j]@ == k {
                        let j = choose|j: int| 0 <= j < i + 1 && self.names@[j]@ == k;
                        if j < i {
                            assert(before.contains_key(k));
                        }
                    }
                }
            }
            i = i + 1;
        }
        let t = Table { entries, names };
        proof {
            assert forall|k: Seq<char>|
                t.entries@.contains_key(k) <==> self.entries@.contains_key(k) by {
                if self.entries@.contains_key(k) {
                    let j = choose|j: int| 0 <= j < self.names@.len() && self.names@[j]@ == k;
                }
                if t.entries@.contains_key(k) {
                    let j = choose|j: int| 0 <= j < n && self.names@[j]@ == k;
                }
            }
            assert(t.store() =~= self.store());
            assert(texts(t.names@) =~= texts(self.names@));
            assert forall|k: Seq<char>| #[trigger]
                t.entries@.contains_key(k) implies exists|i: int|
                0 <= i < t.names@.len() && t.names@[i]@ == k by {
                let j = choose|j: int| 0 <= j < n && self.names@[j]@ == k;
                assert(t.names@[j]@ == k);
            }
        }
        t
    }
}

/// The store.
pub struct DB {
    table: Table,
    origin: Instant,
}

impl View for DB {
    type V = Store;

    closed spec fn view(&self) -> Store {
        self.table.store()
    }
}

impl DB {
    #[verifier::type_invariant]
    spec fn inv(self) -> bool {
        self.table.wf()
    }

    /// An empty store, whose clock starts now.
    pub fn new() -> (db: Self)
        ensures
            db@ == Store::empty(),
    {
        DB { table: Table::new(), origin: clock_start() }
    }

    /// A copy of the store, on the same clock. It holds the same entries and
    /// lists its keys in the same order.
    pub fn clone(&self) -> (db: Self)
        ensures
            db@ == self@,
            forall|pattern: Seq<char>, now: u128| #[trigger]
                db.listing(pattern, now) == self.listing(pattern, now),
    {
        proof {
            use_type_invariant(self);
        }
        let table = self.table.duplicate();
        proof {
            assert(table.names@.len() == texts(table.names@).len());
            assert(self.table.names@.len() == texts(self.table.names@).len());
            assert forall|pattern: Seq<char>, now: u128|
                table.listed(table.names@.len() as int, pattern, now) == self.table.listed(
                    self.table.names@.len() as int,
                    pattern,
                    now,
                ) by {
                table.lemma_listed_same(self.table, table.names@.len() as int, pattern, now);
            }
        }
        DB { table, origin: self.origin }
    }

    /// The present instant on the store's clock.
    pub fn now(&self) -> u128 {
        clock_read(&self.origin)
    }

    /// Sets `key` to `value` at the instant `now`, to expire `ex` later, or
    /// never if `ex` is `None`. Whatever the key held before is replaced, its
    /// deadline too.
    pub fn set_at(&mut self, key: String, value: String, ex: Option<u128>, now: u128)
        ensures
            final(self)@ == store_set(old(self)@, key@, value@, ex, now),
    {
        proof {
            use_type_invariant(&*self);
        }
        let deadline: Option<u128> = match ex {
            Some(d) => now.checked_add(d),
            None => None,
        };
        let mut table = Table::new();
        std::mem::swap(&mut table, &mut self.table);
        table.put(key, Entry { value, deadline });
        self.table = table;
    }

    /// Sets `key` to `value` at the present instant.
    pub fn set(&mut self, key: String, value: String, ex: Option<u128>)
        ensures
            exists|now: u128|
                final(self)@ == #[trigger] store_set(old(self)@, key@, value@, ex, now),
    {
        let now = self.now();
        self.set_at(key, value, ex, now);
    }

    /// The value under `key` at the instant `now`. An entry that is gone by
    /// then is taken out of the store.
    pub fn get_at(&mut self, key: &String, now: u128) -> (r: Option<String>)
        ensures
            opt_text(r) == store_get(old(self)@, key@, now),
            final(self)@ == store_purge(old(self)@, key@, now),
    {
        proof {
            use_type_invariant(&*self);
        }
        let found: Option<Option<String>> = match self.table.entries.get(key.as_str()) {
            Some(entry) => if entry.is_expired(now) {
                Some(None)
            } else {
                Some(Some(entry.value.clone()))
            },
            None => None,
        };
        match found {
            Some(Some(value)) => Some(value),
            Some(None) => {
                let mut table = Table::new();
                std::mem::swap(&mut table, &mut self.table);
                table.take(key.as_str());
                self.table = table;
                None
            },
            None => {
                assert(self@.remove(key@) =~= self@);
                None
            },
        }
    }

    /// The value under `key` at the present instant.
    pub fn get(&mut self, key: &String) -> (r: Option<String>)
        ensures
            exists|now: u128|
                opt_text(r) == #[trigger] store_get(old(self)@, key@, now) && final(self)@
                    == store_purge(old(self)@, key@, now),
    {
        let now = self.now();
        self.get_at(key, now)
    }

    /// Takes `key` out of the store, with its deadline. A key that is not
    /// there is left so.
    pub fn remove(&mut self, key: &String)
        ensures
            final(self)@ == old(self)@.remove(key@),
    {
        proof {
            use_type_invariant(&*self);
        }
        let mut table = Table::new();
        std::mem::swap(&mut table, &mut self.table);
        table.take(key.as_str());
        self.table = table;
    }

    /// Whether `key` has a live entry at the instant `now`.
    pub fn exists_at(&self, key: &String, now: u128) -> (r: bool)
        ensures
            r == live(self@, key@, now),
    {
        match self.table.entries.get(key.as_str()) {
            Some(entry) => !entry.is_expired(now),
            None => false,
        }
    }

    /// Whether `key` has a live entry at the present instant.
    pub fn exists_now(&self, key: &String) -> (r: bool)
        ensures
            exists|now: u128| r == #[trigger] live(self@, key@, now),
    {
        let now = self.now();
        self.exists_at(key, now)
    }

    /// The list that `keys` gives for this store: a function of the store,
    /// the pattern and the instant, so that the same store gives the same
    /// list. The keys stand in the order in which they first came.
    pub closed spec fn listing(&self, pattern: Seq<char>, now: u128) -> Seq<Seq<char>> {
        self.table.listed(self.table.names@.len() as int, pattern, now)
    }

    /// The keys that are live at the instant `now` and contain `pattern`, each
    /// once.
    pub fn keys_at(&self, pattern: &String, now: u128) -> (out: Vec<String>)
        ensures
            texts(out@) == self.listing(pattern@, now),
            lists_keys(texts(out@), self@, pattern@, now),
    {
        proof {
            use_type_invariant(self);
        }
        self.table.matching(pattern.as_str(), now)
    }

    /// The keys that are live at the present instant and contain `pattern`.
    pub fn keys(&self, pattern: &String) -> (out: Vec<String>)
        ensures
            exists|now: u128|
                texts(out@) == self.listing(pattern@, now) && #[trigger] lists_keys(
                    texts(out@),
                    self@,
                    pattern@,
                    now,
                ),
    {
        let now = self.now();
        self.keys_at(pattern, now)
    }

    /// Moves the counter under `key` by one, up or down.
    fn step_at(&mut self, key: &String, now: u128, up: bool) -> (r: Result<i32, CounterError>)
        ensures
            r == counter_result(old(self)@, key@, now, if up { 1int } else { -1int }),
            final(self)@ == counter_store(old(self)@, key@, now, if up { 1int } else { -1int }),
    {
        proof {
            use_type_invariant(&*self);
        }
        let mut count: Option<i32> = Some(0);
        let mut deadline: Option<u128> = None;
        match self.table.entries.get(key.as_str()) {
            Some(entry) => {
                if !entry.is_expired(now) {
                    count = parse_i32(entry.value.as_str().as_bytes());
                    deadline = entry.deadline;
                }
            },
            None => {},
        }
        let value: i32 = match count {
            Some(v) => v,
            None => { return Err(CounterError::NotAnInteger); },
        };
        if (up && value == i32::MAX) || (!up && value == i32::MIN) {
            return Err(CounterError::OutOfRange);
        }
        let next: i32 = if up {
            value + 1
        } else {
            value - 1
        };
        let mut table = Table::new();
        std::mem::swap(&mut table, &mut self.table);
        table.put(key.clone(), Entry { value: signed_text(next), deadline });
        self.table = table;
        Ok(next)
    }

    /// Adds one to the counter under `key` at the instant `now` and returns
    /// the new count. A key without a live value counts as zero. If the value
    /// is no integer, or the count would leave the range of 32 bits, the call
    /// fails and the store is left as it was.
    pub fn increment_at(&mut self, key: &String, now: u128) -> (r: Result<i32, CounterError>)
        ensures
            r == counter_result(old(self)@, key@, now, 1),
            final(self)@ == counter_store(old(self)@, key@, now, 1),
    {
        self.step_at(key, now, true)
    }

    /// Takes one from the counter under `key` at the instant `now`; in all
    /// else like `increment_at`.
    pub fn decrement_at(&mut self, key: &String, now: u128) -> (r: Result<i32, CounterError>)
        ensures
            r == counter_result(old(self)@, key@, now, -1),
            final(self)@ == counter_store(old(self)@, key@, now, -1),
    {
        self.step_at(key, now, false)
    }

    /// Adds one to the counter under `key` at the present instant.
    pub fn increment(&mut self, key: &String) -> (r: Result<i32, CounterError>)
        ensures
            exists|now: u128|
                r == #[trigger] counter_result(old(self)@, key@, now, 1) && final(self)@
                    == counter_store(old(self)@, key@, now, 1),
    {
        let now = self.now();
        self.increment_at(key, now)
    }

    /// Takes one from the counter under `key` at the present instant.
    pub fn decrement(&mut self, key: &String) -> (r: Result<i32, CounterError>)
        ensures
            exists|now: u128|
                r == #[trigger] counter_result(old(self)@, key@, now, -1) && final(self)@
                    == counter_store(old(self)@, key@, now, -1),
    {
        let now = self.now();
        self.decrement_at(key, now)
    }

    /// Empties the store.
    pub fn flushall(&mut self)
        ensures
            final(self)@ == Store::empty(),
    {
        self.table = Table::new();
    }
}

/// A value that is set without a lifetime is there at every instant, and
/// reading it leaves the store as it is.
pub proof fn lemma_set_then_get(
    store: Store,
    key: Seq<char>,
    value: Seq<char>,
    set_at: u128,
    get_at: u128,
)
    ensures
        store_get(store_set(store, key, value, None, set_at), key, get_at) == Some(value),
        store_purge(store_set(store, key, value, None, set_at), key, get_at) == store_set(
            store,
            key,
            value,
            None,
            set_at,
        ),
{
}

/// A value that is set with a lifetime is there at every instant before the
/// lifetime is over, and is gone from the instant at which it is over.
/// `exists` says the same as `get`.
pub proof fn lemma_set_with_lifetime(
    store: Store,
    key: Seq<char>,
    value: Seq<char>,
    lifetime: u128,
    set_at: u128,
    get_at: u128,
)
    ensures
        get_at < set_at + lifetime ==> store_get(
            store_set(store, key, value, Some(lifetime), set_at),
            key,
            get_at,
        ) == Some(value) && live(
            store_set(store, key, value, Some(lifetime), set_at),
            key,
            get_at,
        ),
        get_at >= set_at + lifetime ==> store_get(
            store_set(store, key, value, Some(lifetime), set_at),
            key,
            get_at,
        ) is None && !live(store_set(store, key, value, Some(lifetime), set_at), key, get_at)
            && !store_purge(
            store_set(store, key, value, Some(lifetime), set_at),
            key,
            get_at,
        ).contains_key(key),
{
}

/// After `remove` a key has no value, whatever the store held before.
pub proof fn lemma_remove_then_get(store: Store, key: Seq<char>, now: u128)
    ensures
        store_get(store.remove(key), key, now) is None,
        !live(store.remove(key), key, now),
        store.remove(key).remove(key) == store.remove(key),
{
    assert(store.remove(key).remove(key) =~= store.remove(key));
}

/// A step of a counter that fails leaves the store as it was.
pub proof fn lemma_failed_step(store: Store, key: Seq<char>, now: u128, delta: int)
    ensures
        counter_result(store, key, now, delta) is Err ==> counter_store(store, key, now, delta)
            == store,
{
}

/// The store after one step of a counter at each of the instants `times`.
pub open spec fn after_steps(store: Store, key: Seq<char>, times: Seq<u128>, delta: int) -> Store
    decreases times.len(),
{
    if times.len() == 0 {
        store
    } else {
        counter_store(
            after_steps(store, key, times.drop_last(), delta),
            key,
            times.last(),
            delta,
        )
    }
}

/// What the last of the steps at the instants `times` returns.
pub open spec fn last_step(store: Store, key: Seq<char>, times: Seq<u128>, delta: int) -> Result<
    i32,
    CounterError,
> {
    counter_result(after_steps(store, key, times.drop_last(), delta), key, times.last(), delta)
}

/// Counting up from a key without a live value gives 1, 2, 3 and so on: the
/// step number `n` returns `n`. Counting down gives the same with a minus
/// sign. The instants at which the steps are made do not matter.
pub proof fn lemma_count_from_absent(store: Store, key: Seq<char>, times: Seq<u128>, up: bool)
    requires
        times.len() >= 1,
        !live(store, key, times[0]),
        times.len() <= i32::MAX,
    ensures
        last_step(store, key, times, if up { 1 } else { -1 }) == Ok::<i32, CounterError>(
            if up {
                times.len() as i32
            } else {
                (-times.len()) as i32
            },
        ),
        after_steps(store, key, times, if up { 1 } else { -1 }).contains_key(key),
        after_steps(store, key, times, if up { 1 } else { -1 })[key] == (Slot {
            value: decimal_text(
                if up {
                    times.len() as int
                } else {
                    -times.len()
                },
            ),
            deadline: None,
        }),
    decreases times.len(),
{
    let delta: int = if up { 1 } else { -1 };
    let before = times.drop_last();
    if times.len() == 1 {
        assert(before =~= Seq::<u128>::empty());
        assert(after_steps(store, key, before, delta) == store);
        assert(times.last() == times[0]);
    } else {
        assert(before[0] == times[0]);
        lemma_count_from_absent(store, key, before, up);
        let count: i32 = if up { before.len() as i32 } else { (-before.len()) as i32 };
        lemma_text_round_trip(count);
    }
}

/// An empty store lists no keys, whatever the pattern.
pub proof fn lemma_no_keys_in_empty_store(out: Seq<Seq<char>>, pattern: Seq<char>, now: u128)
    requires
        lists_keys(out, Store::empty(), pattern, now),
    ensures
        out.len() == 0,
{
    if out.len() > 0 {
        assert(out.contains(out[0]));
    }
}

/// With the empty pattern, `keys` lists every live key.
pub proof fn lemma_all_keys(out: Seq<Seq<char>>, store: Store, now: u128, key: Seq<char>)
    requires
        lists_keys(out, store, Seq::empty(), now),
    ensures
        out.contains(key) <==> live(store, key, now),
{
    lemma_contains_empty(key);
}

} // verus!
