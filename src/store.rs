//! A bounded cache whose entries expire at an absolute time.
//!
//! Entries are kept in recency order: the least recently touched entry comes
//! first, the most recently touched one last. When a new key arrives at a full
//! store, the first entry is evicted.
use vstd::prelude::*;

verus! {

/// Outcome of a lookup, reported alongside the value.
#[derive(PartialEq, Eq, Structural, Clone, Copy, Debug)]
pub enum CacheStatus {
    Hit,
    Miss,
    Expired,
}

/// The name under which a status is reported.
pub open spec fn status_text(s: CacheStatus) -> Seq<char> {
    match s {
        CacheStatus::Hit => "Hit"@,
        CacheStatus::Miss => "Miss"@,
        CacheStatus::Expired => "Expired"@,
    }
}

impl CacheStatus {
    pub fn as_str(&self) -> (r: &'static str)
        ensures
            r@ == status_text(*self),
    {
        match self {
            CacheStatus::Hit => "Hit",
            CacheStatus::Miss => "Miss",
            CacheStatus::Expired => "Expired",
        }
    }
}

/// One stored value with the time at which it stops being observable.
pub struct Entry {
    pub key: String,
    pub value: String,
    pub expires_at: u64,
}

/// What an entry means: its key, its value and its expiry time.
pub struct EntryModel {
    pub key: Seq<char>,
    pub value: Seq<char>,
    pub expires_at: u64,
}

impl Entry {
    pub open spec fn model(&self) -> EntryModel {
        EntryModel { key: self.key@, value: self.value@, expires_at: self.expires_at }
    }
}

pub open spec fn contains_key(s: Seq<EntryModel>, k: Seq<char>) -> bool {
    exists|i: int| 0 <= i < s.len() && (#[trigger] s[i]).key == k
}

/// The position of the entry for `k`; meaningful when `contains_key(s, k)`.
pub open spec fn index_of(s: Seq<EntryModel>, k: Seq<char>) -> int {
    choose|i: int| 0 <= i < s.len() && (#[trigger] s[i]).key == k
}

pub open spec fn unique_keys(s: Seq<EntryModel>) -> bool {
    forall|i: int, j: int|
        0 <= i < s.len() && 0 <= j < s.len() && (#[trigger] s[i]).key == (#[trigger] s[j]).key
            ==> i == j
}

/// The status a lookup of `k` at time `now` reports.
pub open spec fn lookup_status(s: Seq<EntryModel>, k: Seq<char>, now: u64) -> CacheStatus {
    if !contains_key(s, k) {
        CacheStatus::Miss
    } else if now >= s[index_of(s, k)].expires_at {
        CacheStatus::Expired
    } else {
        CacheStatus::Hit
    }
}

/// The value a lookup of `k` at time `now` returns: present only on a hit.
pub open spec fn lookup_value(s: Seq<EntryModel>, k: Seq<char>, now: u64) -> Option<Seq<char>> {
    if lookup_status(s, k, now) == CacheStatus::Hit {
        Some(s[index_of(s, k)].value)
    } else {
        None
    }
}

/// Moves the entry at `i` to the most recent position.
pub open spec fn touch(s: Seq<EntryModel>, i: int) -> Seq<EntryModel> {
    s.remove(i).push(s[i])
}

/// The entries after a lookup: a hit makes the entry the most recent one.
pub open spec fn after_get(s: Seq<EntryModel>, k: Seq<char>, now: u64) -> Seq<EntryModel> {
    if lookup_status(s, k, now) == CacheStatus::Hit {
        touch(s, index_of(s, k))
    } else {
        s
    }
}

/// The expiry time of an entry written at `now` with time-to-live `ttl`
/// (the largest time when the sum does not fit).
pub open spec fn expiry(now: u64, ttl: u64) -> u64 {
    if now + ttl > u64::MAX {
        u64::MAX
    } else {
        (now + ttl) as u64
    }
}

/// `i` is the first position, in recency order, of an entry that has expired
/// at time `now`.
pub open spec fn first_expired(s: Seq<EntryModel>, now: u64, i: int) -> bool {
    &&& 0 <= i < s.len()
    &&& now >= s[i].expires_at
    &&& forall|j: int| 0 <= j < i ==> now < (#[trigger] s[j]).expires_at
}

/// The entry that a full store gives up at time `now` to admit a new key:
/// the first already-expired entry in recency order if there is one, else
/// the least recently touched entry.
pub open spec fn victim(s: Seq<EntryModel>, now: u64) -> int {
    if exists|i: int| first_expired(s, now, i) {
        choose|i: int| first_expired(s, now, i)
    } else {
        0
    }
}

/// The entries after writing `v` under `k` with expiry `exp`, at time `now`,
/// into a store of capacity `cap`: an existing entry for `k` is replaced;
/// otherwise, when the store is full, the victim is evicted.
pub open spec fn after_put(
    s: Seq<EntryModel>,
    cap: nat,
    now: u64,
    k: Seq<char>,
    v: Seq<char>,
    exp: u64,
) -> Seq<EntryModel> {
    let e = EntryModel { key: k, value: v, expires_at: exp };
    if contains_key(s, k) {
        s.remove(index_of(s, k)).push(e)
    } else if s.len() >= cap {
        s.remove(victim(s, now)).push(e)
    } else {
        s.push(e)
    }
}

/// A bounded store of expiring entries, in recency order.
pub struct ExpiringCache {
    entries: Vec<Entry>,
    capacity: usize,
}

impl View for ExpiringCache {
    type V = Seq<EntryModel>;

    closed spec fn view(&self) -> Seq<EntryModel> {
        self.entries@.map_values(|e: Entry| e.model())
    }
}

impl ExpiringCache {
    pub closed spec fn spec_capacity(&self) -> nat {
        self.capacity as nat
    }

    /// Keys are unique and the number of entries never exceeds the capacity.
    pub open spec fn wf(&self) -> bool {
        &&& 0 < self.spec_capacity()
        &&& self@.len() <= self.spec_capacity()
        &&& unique_keys(self@)
    }

    pub fn new(capacity: usize) -> (r: ExpiringCache)
        requires
            capacity > 0,
        ensures
            r.wf(),
            r@ == Seq::<EntryModel>::empty(),
            r.spec_capacity() == capacity,
    {
        let r = ExpiringCache { entries: Vec::new(), capacity };
        assert(r@ =~= Seq::<EntryModel>::empty());
        r
    }

    pub fn capacity(&self) -> (r: usize)
        ensures
            r == self.spec_capacity(),
    {
        self.capacity
    }

    pub fn len(&self) -> (r: usize)
        ensures
            r == self@.len(),
    {
        self.entries.len()
    }

    /// Finds the position of `key`, if it is stored.
    fn find(&self, key: &String) -> (r: Option<usize>)
        requires
            self.wf(),
        ensures
            match r {
                Some(i) => contains_key(self@, key@) && i == index_of(self@, key@),
                None => !contains_key(self@, key@),
            },
    {
        let mut i: usize = 0;
        while i < self.entries.len()
            invariant
                self.wf(),
                i <= self.entries@.len(),
                self@.len() == self.entries@.len(),
                forall|j: int| 0 <= j < i ==> (#[trigger] self@[j]).key != key@,
            decreases self.entries@.len() - i,
        {
            if self.entries[i].key == *key {
                assert(self@[i as int].key == key@);
                assert(contains_key(self@, key@));
                let ghost k = index_of(self@, key@);
                assert(self@[k].key == key@);
                assert(self@[k].key == self@[i as int].key);
                return Some(i);
            }
            assert(self@[i as int].key != key@);
            i = i + 1;
        }
        assert forall|j: int| 0 <= j < self@.len() implies (#[trigger] self@[j]).key != key@ by {}
        None
    }

    /// Finds the entry to evict at time `now` from a non-empty store.
    fn find_victim(&self, now: u64) -> (r: usize)
        requires
            self.wf(),
            0 < self@.len(),
        ensures
            r == victim(self@, now),
            r < self@.len(),
    {
        let mut i: usize = 0;
        while i < self.entries.len()
            invariant
                self.wf(),
                0 < self@.len(),
                i <= self.entries@.len(),
                self@.len() == self.entries@.len(),
                forall|j: int| 0 <= j < i ==> now < (#[trigger] self@[j]).expires_at,
            decreases self.entries@.len() - i,
        {
            if now >= self.entries[i].expires_at {
                assert(self@[i as int].expires_at == self.entries@[i as int].expires_at);
                assert(first_expired(self@, now, i as int));
                let ghost c = victim(self@, now);
                proof {
                    if c < i {
                        assert(now < self@[c].expires_at);
                    } else if c > i {
                        assert(now < self@[i as int].expires_at);
                    }
                }
                return i;
            }
            assert(self@[i as int].expires_at == self.entries@[i as int].expires_at);
            i = i + 1;
        }
        assert(!exists|k: int| first_expired(self@, now, k)) by {
            if exists|k: int| first_expired(self@, now, k) {
                let k = choose|k: int| first_expired(self@, now, k);
                assert(now < self@[k].expires_at);
            }
        }
        0
    }

    /// Looks `key` up at time `now`. A hit returns the value and makes the
    /// entry the most recently touched one; a missing or expired entry leaves
    /// the store as it was.
    pub fn get(&mut self, key: &String, now: u64) -> (r: (Option<String>, CacheStatus))
        requires
            old(self).wf(),
        ensures
            final(self).wf(),
            final(self).spec_capacity() == old(self).spec_capacity(),
            r.1 == lookup_status(old(self)@, key@, now),
            match r.0 {
                Some(v) => lookup_value(old(self)@, key@, now) == Some(v@),
                None => lookup_value(old(self)@, key@, now) == None::<Seq<char>>,
            },
            final(self)@ == after_get(old(self)@, key@, now),
            r.1 == CacheStatus::Hit ==> {
                &&& contains_key(final(self)@, key@)
                &&& index_of(final(self)@, key@) == final(self)@.len() - 1
                &&& final(self)@[index_of(final(self)@, key@)] == old(self)@[index_of(
                    old(self)@,
                    key@,
                )]
            },
    {
        match self.find(key) {
            None => (None, CacheStatus::Miss),
            Some(i) => {
                if now >= self.entries[i].expires_at {
                    (None, CacheStatus::Expired)
                } else {
                    let ghost s = self@;
                    let e = self.entries.remove(i);
                    let v = e.value.clone();
                    self.entries.push(e);
                    assert(self@ =~= touch(s, i as int));
                    proof {
                        lemma_touch_unique(s, i as int);
                        let last = self@.len() - 1;
                        assert(self@[last].key == key@);
                        assert(contains_key(self@, key@));
                        let c = index_of(self@, key@);
                        assert(self@[c].key == self@[last].key);
                    }
                    (Some(v), CacheStatus::Hit)
                }
            },
        }
    }

    /// Writes `value` under `key`, to expire `ttl` time units after `now`.
    /// The entry becomes the most recently touched one.
    pub fn put(&mut self, key: String, value: String, ttl: u64, now: u64)
        requires
            old(self).wf(),
        ensures
            final(self).wf(),
            final(self).spec_capacity() == old(self).spec_capacity(),
            final(self)@ == after_put(
                old(self)@,
                old(self).spec_capacity(),
                now,
                key@,
                value@,
                expiry(now, ttl),
            ),
            contains_key(final(self)@, key@),
            index_of(final(self)@, key@) == final(self)@.len() - 1,
            final(self)@[index_of(final(self)@, key@)] == (EntryModel {
                key: key@,
                value: value@,
                expires_at: expiry(now, ttl),
            }),
    {
        let ghost s = self@;
        proof {
            lemma_after_put(s, self.spec_capacity(), now, key@, value@, expiry(now, ttl));
        }
        let exp = now.saturating_add(ttl);
        let found = self.find(&key);
        let e = Entry { key, value, expires_at: exp };
        let ghost em = e.model();
        match found {
            Some(i) => {
                self.entries.remove(i);
                self.entries.push(e);
                assert(self@ =~= s.remove(i as int).push(em));
                proof {
                    lemma_replace_unique(s, i as int, em);
                }
            },
            None => {
                if self.entries.len() >= self.capacity {
                    let v = self.find_victim(now);
                    self.entries.remove(v);
                    self.entries.push(e);
                    assert(self@ =~= s.remove(v as int).push(em));
                } else {
                    self.entries.push(e);
                    assert(self@ =~= s.push(em));
                    proof {
                        lemma_push_new_unique(s, em);
                    }
                }
            },
        }
    }
}

proof fn lemma_touch_unique(s: Seq<EntryModel>, i: int)
    requires
        unique_keys(s),
        0 <= i < s.len(),
    ensures
        unique_keys(touch(s, i)),
{
    let t = touch(s, i);
    assert forall|a: int, b: int|
        0 <= a < t.len() && 0 <= b < t.len() && (#[trigger] t[a]).key == (#[trigger] t[b]).key
            implies a == b by {
        let ia = if a == t.len() - 1 { i } else if a < i { a } else { a + 1 };
        let ib = if b == t.len() - 1 { i } else if b < i { b } else { b + 1 };
        assert(t[a] == s[ia]);
        assert(t[b] == s[ib]);
    }
}

proof fn lemma_replace_unique(s: Seq<EntryModel>, i: int, e: EntryModel)
    requires
        unique_keys(s),
        0 <= i < s.len(),
        s[i].key == e.key,
    ensures
        unique_keys(s.remove(i).push(e)),
{
    let t = s.remove(i).push(e);
    assert forall|a: int, b: int|
        0 <= a < t.len() && 0 <= b < t.len() && (#[trigger] t[a]).key == (#[trigger] t[b]).key
            implies a == b by {
        let ia = if a == t.len() - 1 { i } else if a < i { a } else { a + 1 };
        let ib = if b == t.len() - 1 { i } else if b < i { b } else { b + 1 };
        assert(t[a].key == s[ia].key);
        assert(t[b].key == s[ib].key);
    }
}

proof fn lemma_push_new_unique(s: Seq<EntryModel>, e: EntryModel)
    requires
        unique_keys(s),
        forall|j: int| 0 <= j < s.len() ==> (#[trigger] s[j]).key != e.key,
    ensures
        unique_keys(s.push(e)),
{
    let t = s.push(e);
    assert forall|a: int, b: int|
        0 <= a < t.len() && 0 <= b < t.len() && (#[trigger] t[a]).key == (#[trigger] t[b]).key
            implies a == b by {
        if a < s.len() {
            assert(t[a] == s[a]);
        }
        if b < s.len() {
            assert(t[b] == s[b]);
        }
    }
}

/// Writing `k` leaves a well-formed sequence whose most recent entry is the
/// one just written.
pub proof fn lemma_after_put(
    s: Seq<EntryModel>,
    cap: nat,
    now: u64,
    k: Seq<char>,
    v: Seq<char>,
    exp: u64,
)
    requires
        0 < cap,
        s.len() <= cap,
        unique_keys(s),
    ensures
        ({
            let t = after_put(s, cap, now, k, v, exp);
            &&& unique_keys(t)
            &&& t.len() <= cap
            &&& 0 < t.len()
            &&& t[t.len() - 1] == (EntryModel { key: k, value: v, expires_at: exp })
            &&& contains_key(t, k)
            &&& index_of(t, k) == t.len() - 1
        }),
{
    let e = EntryModel { key: k, value: v, expires_at: exp };
    let t = after_put(s, cap, now, k, v, exp);
    if contains_key(s, k) {
        let i = index_of(s, k);
        lemma_replace_unique(s, i, e);
    } else if s.len() >= cap {
        let w = victim(s, now);
        assert(0 <= w < s.len());
        let r = s.remove(w);
        assert forall|j: int| 0 <= j < r.len() implies (#[trigger] r[j]).key != e.key by {
            if j < w {
                assert(r[j] == s[j]);
            } else {
                assert(r[j] == s[j + 1]);
            }
        }
        lemma_unique_remove(s, w);
        lemma_push_new_unique(r, e);
    } else {
        assert forall|j: int| 0 <= j < s.len() implies (#[trigger] s[j]).key != e.key by {}
        lemma_push_new_unique(s, e);
    }
    let last = t.len() - 1;
    assert(t[last].key == k);
    assert(contains_key(t, k));
    let c = index_of(t, k);
    assert(t[c].key == t[last].key);
}

proof fn lemma_unique_remove(s: Seq<EntryModel>, i: int)
    requires
        unique_keys(s),
        0 <= i < s.len(),
    ensures
        unique_keys(s.remove(i)),
{
    let t = s.remove(i);
    assert forall|a: int, b: int|
        0 <= a < t.len() && 0 <= b < t.len() && (#[trigger] t[a]).key == (#[trigger] t[b]).key
            implies a == b by {
        let ia = if a < i { a } else { a + 1 };
        let ib = if b < i { b } else { b + 1 };
        assert(t[a] == s[ia]);
        assert(t[b] == s[ib]);
    }
}

/// A value written with a positive time-to-live is returned as a hit by a
/// lookup at the same moment, and reported expired (with no value) by any
/// lookup once its time-to-live has elapsed.
pub proof fn lemma_ttl(
    s: Seq<EntryModel>,
    cap: nat,
    k: Seq<char>,
    v: Seq<char>,
    now: u64,
    ttl: u64,
    later: u64,
)
    requires
        0 < cap,
        s.len() <= cap,
        unique_keys(s),
        0 < ttl,
        now < u64::MAX,
        later >= expiry(now, ttl),
    ensures
        lookup_status(after_put(s, cap, now, k, v, expiry(now, ttl)), k, now) == CacheStatus::Hit,
        lookup_value(after_put(s, cap, now, k, v, expiry(now, ttl)), k, now) == Some(v),
        lookup_status(after_put(s, cap, now, k, v, expiry(now, ttl)), k, later) == CacheStatus::Expired,
        lookup_value(after_put(s, cap, now, k, v, expiry(now, ttl)), k, later) == None::<Seq<char>>,
{
    lemma_after_put(s, cap, now, k, v, expiry(now, ttl));
}

/// A lookup of a key that is not stored is a miss, returns no value and
/// leaves the entries as they were.
pub proof fn lemma_absent_is_miss(s: Seq<EntryModel>, k: Seq<char>, now: u64)
    requires
        forall|i: int| 0 <= i < s.len() ==> (#[trigger] s[i]).key != k,
    ensures
        lookup_status(s, k, now) == CacheStatus::Miss,
        lookup_value(s, k, now) == None::<Seq<char>>,
        after_get(s, k, now) == s,
{
}

/// Writing a key twice leaves only the second value observable.
pub proof fn lemma_overwrite(
    s: Seq<EntryModel>,
    cap: nat,
    k: Seq<char>,
    v1: Seq<char>,
    v2: Seq<char>,
    at: u64,
    exp: u64,
    now: u64,
)
    requires
        0 < cap,
        s.len() <= cap,
        unique_keys(s),
        now < exp,
    ensures
        ({
            let t = after_put(after_put(s, cap, at, k, v1, exp), cap, at, k, v2, exp);
            &&& lookup_status(t, k, now) == CacheStatus::Hit
            &&& lookup_value(t, k, now) == Some(v2)
        }),
{
    lemma_after_put(s, cap, at, k, v1, exp);
    lemma_after_put(after_put(s, cap, at, k, v1, exp), cap, at, k, v2, exp);
}

/// The entries after writing each key of `ks` in turn at time `now`, all
/// with value `v` and expiry `exp`.
pub open spec fn put_keys(
    s: Seq<EntryModel>,
    cap: nat,
    now: u64,
    ks: Seq<Seq<char>>,
    v: Seq<char>,
    exp: u64,
) -> Seq<EntryModel>
    decreases ks.len(),
{
    if ks.len() == 0 {
        s
    } else {
        after_put(put_keys(s, cap, now, ks.drop_last(), v, exp), cap, now, ks.last(), v, exp)
    }
}

proof fn lemma_put_keys_fill(cap: nat, now: u64, ks: Seq<Seq<char>>, v: Seq<char>, exp: u64)
    requires
        0 < cap,
        ks.len() <= cap,
        ks.no_duplicates(),
    ensures
        ({
            let t = put_keys(Seq::<EntryModel>::empty(), cap, now, ks, v, exp);
            &&& t.len() == ks.len()
            &&& unique_keys(t)
            &&& forall|i: int| 0 <= i < ks.len() ==> (#[trigger] t[i]) == (EntryModel {
                key: ks[i],
                value: v,
                expires_at: exp,
            })
        }),
    decreases ks.len(),
{
    if ks.len() > 0 {
        let ks0 = ks.drop_last();
        assert(ks0.no_duplicates());
        lemma_put_keys_fill(cap, now, ks0, v, exp);
        let s0 = put_keys(Seq::<EntryModel>::empty(), cap, now, ks0, v, exp);
        assert(!contains_key(s0, ks.last())) by {
            if contains_key(s0, ks.last()) {
                let j = index_of(s0, ks.last());
                assert(ks[j] == ks[ks.len() - 1]);
            }
        }
        lemma_after_put(s0, cap, now, ks.last(), v, exp);
    }
}

/// Writing `cap + 1` distinct keys, none yet expired, into an empty store of
/// capacity `cap` leaves exactly `cap` entries: the first key written, the least recently
/// touched, was evicted and is a miss, and every later key is a hit.
pub proof fn lemma_capacity_eviction(
    cap: nat,
    ks: Seq<Seq<char>>,
    v: Seq<char>,
    exp: u64,
    now: u64,
)
    requires
        0 < cap,
        ks.len() == cap + 1,
        ks.no_duplicates(),
        now < exp,
    ensures
        ({
            let t = put_keys(Seq::<EntryModel>::empty(), cap, now, ks, v, exp);
            &&& t.len() == cap
            &&& lookup_status(t, ks[0], now) == CacheStatus::Miss
            &&& forall|i: int|
                1 <= i < ks.len() ==> lookup_status(t, #[trigger] ks[i], now) == CacheStatus::Hit
        }),
{
    let ks0 = ks.drop_last();
    let k = ks.last();
    assert(ks0.no_duplicates());
    lemma_put_keys_fill(cap, now, ks0, v, exp);
    let s0 = put_keys(Seq::<EntryModel>::empty(), cap, now, ks0, v, exp);
    assert(!contains_key(s0, k)) by {
        if contains_key(s0, k) {
            let j = index_of(s0, k);
            assert(ks[j] == ks[ks.len() - 1]);
        }
    }
    lemma_after_put(s0, cap, now, k, v, exp);
    assert(!exists|i: int| first_expired(s0, now, i)) by {
        if exists|i: int| first_expired(s0, now, i) {
            let i = choose|i: int| first_expired(s0, now, i);
            assert(s0[i].expires_at == exp);
        }
    }
    assert(victim(s0, now) == 0);
    let t = put_keys(Seq::<EntryModel>::empty(), cap, now, ks, v, exp);
    assert(t == s0.remove(0).push(EntryModel { key: k, value: v, expires_at: exp }));
    assert forall|j: int| 0 <= j < t.len() implies (#[trigger] t[j]).key == ks[j + 1] by {
        if j < t.len() - 1 {
            assert(t[j] == s0[j + 1]);
        }
    }
    assert(!contains_key(t, ks[0])) by {
        if contains_key(t, ks[0]) {
            let j = index_of(t, ks[0]);
            assert(t[j].key == ks[j + 1]);
        }
    }
    assert forall|i: int| 1 <= i < ks.len() implies lookup_status(t, #[trigger] ks[i], now)
        == CacheStatus::Hit by {
        assert(t[i - 1].key == ks[i]);
        assert(contains_key(t, ks[i]));
        let c = index_of(t, ks[i]);
        assert(t[c].key == t[i - 1].key);
        if i - 1 < t.len() - 1 {
            assert(t[i - 1] == s0[i]);
        }
    }
}

} // verus!
