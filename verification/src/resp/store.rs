//! The key/value store: entries with an optional time to live, and the
//! expiry test that a read applies.

use vstd::prelude::*;
use std::time::{SystemTime, UNIX_EPOCH};
use crate::resp::types::{RespDataType, RespValue};

verus! {

/// `SystemTime::now`, as nanoseconds since the Unix epoch; `None` where the
/// clock stands before the epoch. Nothing is claimed of the number: it is
/// what the clock says.
#[verifier::external_body]
pub(crate) fn clock_nanos() -> (now: Option<u128>) {
    match SystemTime::now().duration_since(UNIX_EPOCH) {
        Ok(since) => Some(since.as_nanos()),
        Err(_) => None,
    }
}

/// The time now, in nanoseconds since the Unix epoch; 0 where the clock
/// stands before it.
pub(crate) fn now_nanos() -> u128 {
    // what the clock says decides; what is made of it is `nanos_or_zero`
    let clock: Option<u128> = clock_nanos();
    let now: u128 = nanos_or_zero(clock);
    now
}

/// A stored value.
pub struct Value {
    pub data: RespDataType,
    /// The time to live in milliseconds, if the entry expires.
    pub ttl: Option<u128>,
    /// When the entry was made, in nanoseconds since the Unix epoch.
    pub created_at: u128,
}

/// A stored value as contracts see it.
pub struct ValueView {
    pub data: RespValue,
    pub ttl: Option<u128>,
    pub created_at: u128,
}

impl View for Value {
    type V = ValueView;

    open spec fn view(&self) -> ValueView {
        ValueView { data: self.data@, ttl: self.ttl, created_at: self.created_at }
    }
}

/// Whether an entry has expired at the time `now`: it has a time to live,
/// and more whole milliseconds than that have passed since it was made.
/// An entry made after `now` counts as expired.
pub open spec fn expired(v: ValueView, now: u128) -> bool {
    match v.ttl {
        Some(ttl) => now < v.created_at || (now - v.created_at) / 1_000_000 > ttl,
        None => false,
    }
}

impl Value {
    /// A value made now.
    pub fn new(data: RespDataType, ttl: Option<u128>) -> (r: Self)
        ensures
            r.data == data,
            r.ttl == ttl,
    {
        Value::new_at(data, ttl, now_nanos())
    }

    /// A value made at the time `now`.
    pub fn new_at(data: RespDataType, ttl: Option<u128>, now: u128) -> (r: Self)
        ensures
            r.data == data,
            r.ttl == ttl,
            r.created_at == now,
    {
        Self { data, ttl, created_at: now }
    }

    /// The data, unless the entry has expired by now. An entry without a
    /// time to live never expires.
    pub fn get_data(&self) -> (r: Option<RespDataType>)
        ensures
            r is Some ==> r->Some_0@ == self.data@,
            self.ttl is None ==> r is Some,
    {
        self.get_data_at(now_nanos())
    }

    /// The data, unless the entry has expired at the time `now`.
    pub fn get_data_at(&self, now: u128) -> (r: Option<RespDataType>)
        ensures
            expired(self@, now) ==> r is None,
            !expired(self@, now) ==> r is Some && r->Some_0@ == self.data@,
    {
        match self.ttl {
            Some(ttl) => {
                if now < self.created_at {
                    None
                } else if (now - self.created_at) / 1_000_000 > ttl {
                    None
                } else {
                    Some(self.data.clone())
                }
            },
            None => Some(self.data.clone()),
        }
    }
}

/// One entry of the store.
pub struct Entry {
    pub key: RespDataType,
    pub value: Value,
}

/// Whether no key stands twice.
pub open spec fn distinct_keys(es: Seq<Entry>) -> bool {
    forall|i: int, j: int| 0 <= i < j < es.len() ==> (#[trigger] es[i]).key@ != (#[trigger] es[j]).key@
}

/// Whether some entry has the key.
pub open spec fn holds(es: Seq<Entry>, k: RespValue) -> bool {
    exists|i: int| 0 <= i < es.len() && (#[trigger] es[i]).key@ == k
}

/// The position of an entry with the key.
pub open spec fn slot(es: Seq<Entry>, k: RespValue) -> int {
    choose|i: int| 0 <= i < es.len() && (#[trigger] es[i]).key@ == k
}

/// The mapping that the entries spell.
pub open spec fn map_of(es: Seq<Entry>) -> Map<RespValue, ValueView> {
    Map::new(|k: RespValue| holds(es, k), |k: RespValue| es[slot(es, k)].value@)
}

proof fn slot_is(es: Seq<Entry>, i: int)
    requires
        distinct_keys(es),
        0 <= i < es.len(),
    ensures
        holds(es, es[i].key@),
        slot(es, es[i].key@) == i,
{
    let k = es[i].key@;
    let j = slot(es, k);
    assert(0 <= j < es.len() && es[j].key@ == k);
    if j < i {
        assert(es[j].key@ != es[i].key@);
    } else if i < j {
        assert(es[i].key@ != es[j].key@);
    }
}

proof fn map_after_remove(es: Seq<Entry>, i: int)
    requires
        distinct_keys(es),
        0 <= i < es.len(),
    ensures
        distinct_keys(es.remove(i)),
        !holds(es.remove(i), es[i].key@),
        map_of(es.remove(i)) == map_of(es).remove(es[i].key@),
{
    let after = es.remove(i);
    let gone = es[i].key@;
    assert forall|a: int, b: int| 0 <= a < b < after.len() implies (#[trigger] after[a]).key@ != (
    #[trigger] after[b]).key@ by {
        let a0 = if a < i { a } else { a + 1 };
        let b0 = if b < i { b } else { b + 1 };
        assert(after[a] == es[a0]);
        assert(after[b] == es[b0]);
        assert(es[a0].key@ != es[b0].key@);
    }
    assert(!holds(after, gone)) by {
        if holds(after, gone) {
            let a = slot(after, gone);
            let a0 = if a < i { a } else { a + 1 };
            assert(after[a] == es[a0]);
            if a0 < i {
                assert(es[a0].key@ != es[i].key@);
            } else {
                assert(es[i].key@ != es[a0].key@);
            }
        }
    }
    assert forall|k: RespValue| #[trigger] holds(after, k) == (holds(es, k) && k != gone) by {
        if holds(after, k) {
            let a = slot(after, k);
            let a0 = if a < i { a } else { a + 1 };
            assert(after[a] == es[a0]);
            assert(es[a0].key@ == k);
        }
        if holds(es, k) && k != gone {
            let b = slot(es, k);
            let b1 = if b < i { b } else { b - 1 };
            assert(after[b1] == es[b]);
            assert(after[b1].key@ == k);
        }
    }
    assert forall|k: RespValue| holds(after, k) implies #[trigger] map_of(after)[k] == map_of(
        es,
    )[k] by {
        let a = slot(after, k);
        let a0 = if a < i { a } else { a + 1 };
        assert(after[a] == es[a0]);
        slot_is(es, a0);
    }
    assert(map_of(after) =~= map_of(es).remove(gone));
}

proof fn map_after_push(es: Seq<Entry>, e: Entry)
    requires
        distinct_keys(es),
        !holds(es, e.key@),
    ensures
        distinct_keys(es.push(e)),
        map_of(es.push(e)) == map_of(es).insert(e.key@, e.value@),
{
    let after = es.push(e);
    assert forall|a: int, b: int| 0 <= a < b < after.len() implies (#[trigger] after[a]).key@ != (
    #[trigger] after[b]).key@ by {
        assert(after[a] == es[a]);
        if b < es.len() {
            assert(after[b] == es[b]);
        } else {
            assert(es[a].key@ != e.key@);
        }
    }
    assert forall|k: RespValue| #[trigger] holds(after, k) == (holds(es, k) || k == e.key@) by {
        if holds(after, k) {
            let a = slot(after, k);
            if a < es.len() {
                assert(after[a] == es[a]);
            }
        }
        if holds(es, k) {
            let b = slot(es, k);
            assert(after[b] == es[b]);
        }
        if k == e.key@ {
            assert(after[es.len() as int] == e);
        }
    }
    assert forall|k: RespValue| holds(after, k) implies #[trigger] map_of(after)[k] == map_of(
        es,
    ).insert(e.key@, e.value@)[k] by {
        let a = slot(after, k);
        slot_is(after, a);
        if a < es.len() {
            assert(after[a] == es[a]);
            slot_is(es, a);
        } else {
            assert(after[a] == e);
        }
    }
    assert(map_of(after) =~= map_of(es).insert(e.key@, e.value@));
}

/// The store: a list of entries in which no key stands twice.
pub struct Store {
    entries: Vec<Entry>,
}

impl Store {
    /// No key stands twice.
    #[verifier::type_invariant]
    spec fn well_formed(self) -> bool {
        distinct_keys(self.entries@)
    }

    /// The mapping from keys to values that the store holds.
    pub closed spec fn map(&self) -> Map<RespValue, ValueView> {
        map_of(self.entries@)
    }

    /// How many entries the store holds.
    pub closed spec fn count(&self) -> nat {
        self.entries@.len()
    }

    /// An empty store.
    pub fn new() -> (r: Self)
        ensures
            r.map() == Map::<RespValue, ValueView>::empty(),
            r.count() == 0,
    {
        let r = Store { entries: Vec::new() };
        proof {
            assert(r.map() =~= Map::<RespValue, ValueView>::empty());
        }
        r
    }

    /// How many entries the store holds.
    pub fn len(&self) -> (r: usize)
        ensures
            r == self.count(),
    {
        self.entries.len()
    }

    fn find(&self, key: &RespDataType) -> (r: Option<usize>)
        ensures
            match r {
                Some(i) => i < self.entries@.len() && self.entries@[i as int].key@ == key@,
                None => !holds(self.entries@, key@),
            },
    {
        let mut i: usize = 0;
        while i < self.entries.len()
            invariant
                i <= self.entries@.len(),
                forall|k: int| 0 <= k < i ==> (#[trigger] self.entries@[k]).key@ != key@,
            decreases self.entries@.len() - i,
        {
            if self.entries[i].key.same(key) {
                return Some(i);
            }
            i = i + 1;
        }
        None
    }

    /// Whether the store holds the key.
    pub fn contains(&self, key: &RespDataType) -> (r: bool)
        ensures
            r == self.map().contains_key(key@),
    {
        self.find(key).is_some()
    }

    /// Puts the value under the key, in place of any value that was there.
    pub fn insert(&mut self, key: RespDataType, value: Value)
        ensures
            final(self).map() == old(self).map().insert(key@, value@),
    {
        proof {
            use_type_invariant(&*self);
        }
        let found = self.find(&key);
        let mut entries: Vec<Entry> = Vec::new();
        core::mem::swap(&mut entries, &mut self.entries);
        match found {
            Some(i) => {
                proof {
                    map_after_remove(entries@, i as int);
                }
                entries.remove(i);
            },
            None => {},
        }
        let entry = Entry { key, value };
        proof {
            map_after_push(entries@, entry);
        }
        entries.push(entry);
        self.entries = entries;
        proof {
            assert(final(self).map() =~= old(self).map().insert(key@, value@));
        }
    }

    /// The value under the key, if there is one.
    pub fn get(&self, key: &RespDataType) -> (r: Option<&Value>)
        ensures
            match r {
                Some(v) => self.map().contains_key(key@) && self.map()[key@] == v@,
                None => !self.map().contains_key(key@),
            },
    {
        proof {
            use_type_invariant(self);
        }
        match self.find(key) {
            Some(i) => {
                proof {
                    slot_is(self.entries@, i as int);
                }
                Some(&self.entries[i].value)
            },
            None => None,
        }
    }

    /// The data under the key, if there is an entry that has not expired
    /// at the time `now`. An expired entry stays where it is: taking it out
    /// is the caller's part.
    pub fn get_at(&self, key: &RespDataType, now: u128) -> (r: Option<RespDataType>)
        ensures
            match r {
                Some(data) => self.map().contains_key(key@) && !expired(self.map()[key@], now)
                    && data@ == self.map()[key@].data,
                None => !self.map().contains_key(key@) || expired(self.map()[key@], now),
            },
    {
        match self.get(key) {
            Some(value) => value.get_data_at(now),
            None => None,
        }
    }

    /// Takes the key and its value out of the store.
    pub fn remove(&mut self, key: &RespDataType)
        ensures
            final(self).map() == old(self).map().remove(key@),
    {
        proof {
            use_type_invariant(&*self);
        }
        match self.find(key) {
            Some(i) => {
                let mut entries: Vec<Entry> = Vec::new();
                core::mem::swap(&mut entries, &mut self.entries);
                proof {
                    map_after_remove(entries@, i as int);
                }
                entries.remove(i);
                self.entries = entries;
            },
            None => {
                proof {
                    assert(old(self).map().remove(key@) =~= old(self).map());
                }
            },
        }
    }
}

/// The time that a reading of the clock stands for: the reading itself,
/// or 0 where the clock gave none.
pub open spec fn reading_or_zero(clock: Option<u128>) -> u128 {
    match clock {
        Some(now) => now,
        None => 0,
    }
}

/// The time that a reading of the clock stands for.
pub fn nanos_or_zero(clock: Option<u128>) -> (now: u128)
    ensures
        now == reading_or_zero(clock),
{
    match clock {
        Some(now) => now,
        None => 0,
    }
}

} // verus!
