//! In-memory key-value cache in which each key may carry an expiry time.
//!
//! Time is measured in nanoseconds on the monotonic clock, counted from the
//! moment the cache was created. Every operation that depends on the time has
//! a `*_at` form that takes the clock reading as an argument and is specified
//! exactly; the plain form reads the clock and then does the same.
use std::time::Duration;
use std::time::Instant;
use vstd::hash_map::StringHashMap;
use vstd::prelude::*;

verus! {

#[verifier::external_type_specification]
#[verifier::external_body]
pub struct ExInstant(std::time::Instant);

/// Nanoseconds in one second.
pub const NANOS_PER_SEC: u128 = 1_000_000_000u128;

/// An upper bound on any clock reading: a `Duration` holds at most `u64::MAX`
/// whole seconds plus less than one second, so its length in nanoseconds is
/// below `2^64 * 10^9`.
pub const CLOCK_LIMIT: u128 = 18_446_744_073_709_551_616_000_000_000u128;

/// `std::time::Instant::now`: a reading of the monotonic clock. Nothing is
/// promised of its value.
#[verifier::external_body]
fn instant_now() -> Instant {
    Instant::now()
}

/// `std::time::Instant::elapsed`: the time passed since `start`. Nothing is
/// promised of its value.
#[verifier::external_body]
fn instant_elapsed(start: &Instant) -> Duration {
    start.elapsed()
}

/// `std::time::Duration::as_nanos`: the length of `d` in nanoseconds. The
/// contract only states the range that `Duration::MAX` bounds.
#[verifier::external_body]
fn duration_nanos(d: &Duration) -> (r: u128)
    ensures
        r < CLOCK_LIMIT,
{
    d.as_nanos()
}

/// The abstract state of a cache: the stored values, and for the keys that
/// carry one, the clock reading (nanoseconds since creation) at which they
/// expire.
pub struct CacheState {
    pub values: Map<Seq<char>, Seq<char>>,
    pub expiries: Map<Seq<char>, u128>,
}

/// The state of a fresh cache.
pub open spec fn empty_state() -> CacheState {
    CacheState { values: Map::empty(), expiries: Map::empty() }
}

/// Whether `key` carries an expiry that has been reached at time `now`.
pub open spec fn expired(s: CacheState, key: Seq<char>, now: int) -> bool {
    s.expiries.contains_key(key) && s.expiries[key] <= now
}

/// The expiry that a time-to-live of `secs` seconds gives when set at `now`.
pub open spec fn expiry_after(now: u128, secs: u64) -> u128 {
    (now + secs * NANOS_PER_SEC) as u128
}

/// What a `set` of `key` to `value` at time `now` leaves: the value replaced,
/// and the key's expiry set from the time-to-live when one is given, or
/// removed when none is (a key set without a time-to-live does not expire).
pub open spec fn set_state(
    s: CacheState,
    key: Seq<char>,
    value: Seq<char>,
    ttl_seconds: Option<u64>,
    now: u128,
) -> CacheState {
    CacheState {
        values: s.values.insert(key, value),
        expiries: match ttl_seconds {
            Some(secs) => s.expiries.insert(key, expiry_after(now, secs)),
            None => s.expiries.remove(key),
        },
    }
}

/// What a read of `key` at time `now` sees: the value, unless the key is
/// absent or its expiry has been reached.
pub open spec fn lookup(s: CacheState, key: Seq<char>, now: int) -> Option<Seq<char>> {
    if s.values.contains_key(key) && !expired(s, key, now) {
        Some(s.values[key])
    } else {
        None
    }
}

/// What a read of `key` at time `now` leaves: a stored key whose expiry has
/// been reached is dropped, together with its expiry.
pub open spec fn get_state(s: CacheState, key: Seq<char>, now: int) -> CacheState {
    if s.values.contains_key(key) && expired(s, key, now) {
        CacheState { values: s.values.remove(key), expiries: s.expiries.remove(key) }
    } else {
        s
    }
}

/// What a cleanup at time `now` leaves: every key whose expiry has been
/// reached is dropped, together with its expiry.
pub open spec fn cleanup_state(s: CacheState, now: int) -> CacheState {
    CacheState {
        values: Map::new(
            |k: Seq<char>| s.values.contains_key(k) && !expired(s, k, now),
            |k: Seq<char>| s.values[k],
        ),
        expiries: Map::new(
            |k: Seq<char>| s.expiries.contains_key(k) && !expired(s, k, now),
            |k: Seq<char>| s.expiries[k],
        ),
    }
}

/// The state invariant: only stored keys carry an expiry.
pub open spec fn state_wf(s: CacheState) -> bool {
    forall|k: Seq<char>| #[trigger] s.expiries.contains_key(k) ==> s.values.contains_key(k)
}

/// The view of an optional string.
pub open spec fn opt_view(o: Option<String>) -> Option<Seq<char>> {
    match o {
        Some(s) => Some(s@),
        None => None,
    }
}

/// The stored keys, values and expiries of a cache.
struct CacheStore {
    cache: StringHashMap<String>,
    ttl: StringHashMap<u128>,
    /// Every key that carries an expiry appears here (possibly with keys that
    /// no longer do); `cleanup_at` walks this list.
    ttl_keys: Vec<String>,
}

impl View for CacheStore {
    type V = CacheState;

    closed spec fn view(&self) -> CacheState {
        CacheState {
            values: self.cache@.map_values(|v: String| v@),
            expiries: self.ttl@,
        }
    }
}

/// Whether `key` is the view of one of the strings in `keys`.
pub open spec fn listed(keys: Seq<String>, key: Seq<char>) -> bool {
    exists|j: int| 0 <= j < keys.len() && (#[trigger] keys[j])@ == key
}

impl CacheStore {
    /// The abstract state is well formed and every key that carries an expiry
    /// is listed for cleanup.
    closed spec fn wf(&self) -> bool {
        &&& state_wf(self@)
        &&& forall|k: Seq<char>| #[trigger] self.ttl@.contains_key(k) ==> listed(self.ttl_keys@, k)
    }

    fn empty() -> (r: Self)
        ensures
            r.wf(),
            r@ == empty_state(),
    {
        let r = CacheStore {
            cache: StringHashMap::new(),
            ttl: StringHashMap::new(),
            ttl_keys: Vec::new(),
        };
        assert(r@.values =~= Map::<Seq<char>, Seq<char>>::empty());
        r
    }

    /// Sets `key` to `value` at clock reading `now`, with an optional
    /// time-to-live in seconds.
    fn set_at(&mut self, key: String, value: String, ttl_seconds: Option<u64>, now: u128)
        requires
            old(self).wf(),
            now < CLOCK_LIMIT,
        ensures
            final(self).wf(),
            final(self)@ == set_state(old(self)@, key@, value@, ttl_seconds, now),
    {
        let ghost pre = self@;
        let key_copy = key.clone();
        self.cache.insert(key_copy, value);
        assert(self@.values =~= pre.values.insert(key@, value@));
        match ttl_seconds {
            Some(secs) => {
                let expiry = now + (secs as u128) * NANOS_PER_SEC;
                if !self.ttl.contains_key(key.as_str()) {
                    let listed_key = key.clone();
                    self.ttl_keys.push(listed_key);
                    assert(self.ttl_keys@[self.ttl_keys@.len() - 1]@ == key@);
                    assert forall|k: Seq<char>| #[trigger]
                        self.ttl@.contains_key(k) implies listed(self.ttl_keys@, k) by {
                        let j = choose|j: int|
                            0 <= j < old(self).ttl_keys@.len() && (
                            #[trigger] old(self).ttl_keys@[j])@ == k;
                        assert(self.ttl_keys@[j] == old(self).ttl_keys@[j]);
                    }
                }
                let ghost k0 = key@;
                let ghost mid = self.ttl@;
                assert(listed(self.ttl_keys@, k0));
                self.ttl.insert(key, expiry);
                assert forall|k: Seq<char>| #[trigger]
                    self.ttl@.contains_key(k) implies listed(self.ttl_keys@, k) by {
                    if k != k0 {
                        assert(mid.contains_key(k));
                    }
                }
                assert forall|k: Seq<char>| #[trigger]
                    self@.expiries.contains_key(k) implies self@.values.contains_key(k) by {
                    if k != k0 {
                        assert(pre.expiries.contains_key(k));
                    }
                }
            },
            None => {
                let ghost mid = self.ttl@;
                self.ttl.remove(key.as_str());
                assert forall|k: Seq<char>| #[trigger]
                    self@.expiries.contains_key(k) implies self@.values.contains_key(k) by {
                    assert(pre.expiries.contains_key(k));
                }
                assert forall|k: Seq<char>| #[trigger]
                    self.ttl@.contains_key(k) implies listed(self.ttl_keys@, k) by {
                    assert(mid.contains_key(k));
                }
            },
        }
    }

    /// Reads `key` at clock reading `now`.
    fn get_at(&mut self, key: &str, now: u128) -> (r: Option<String>)
        requires
            old(self).wf(),
        ensures
            final(self).wf(),
            opt_view(r) == lookup(old(self)@, key@, now as int),
            final(self)@ == get_state(old(self)@, key@, now as int),
    {
        let ghost pre = self@;
        let value = match self.cache.get(key) {
            Some(v) => v.clone(),
            None => {
                return None;
            },
        };
        let live = match self.ttl.get(key) {
            Some(expiry) => *expiry > now,
            None => true,
        };
        if live {
            Some(value)
        } else {
            self.cache.remove(key);
            self.ttl.remove(key);
            assert(self@.values =~= pre.values.remove(key@));
            assert(self@.expiries =~= pre.expiries.remove(key@));
            None
        }
    }

    /// Drops every key whose expiry has been reached at clock reading `now`.
    fn cleanup_at(&mut self, now: u128)
        requires
            old(self).wf(),
        ensures
            final(self).wf(),
            final(self)@ == cleanup_state(old(self)@, now as int),
    {
        let ghost pre = self@;
        proof {
            let z = swept(pre, now as int, self.ttl_keys@, 0);
            assert(z.values =~= pre.values);
            assert(z.expiries =~= pre.expiries);
        }
        let n = self.ttl_keys.len();
        let mut i: usize = 0;
        while i < n
            invariant
                n == self.ttl_keys@.len(),
                i <= n,
                self.ttl_keys@ == old(self).ttl_keys@,
                pre == old(self)@,
                state_wf(pre),
                forall|k: Seq<char>| #[trigger]
                    pre.expiries.contains_key(k) ==> listed(self.ttl_keys@, k),
                self@ == swept(pre, now as int, self.ttl_keys@, i as int),
            decreases n - i,
        {
            let key = &self.ttl_keys[i];
            let ghost before = self@;
            let drop = match self.ttl.get(key.as_str()) {
                Some(expiry) => *expiry <= now,
                None => false,
            };
            if drop {
                self.cache.remove(key.as_str());
                self.ttl.remove(key.as_str());
                assert(self@.values =~= before.values.remove(key@));
            }
            proof {
                lemma_sweep_step(pre, now as int, self.ttl_keys@, i as int);
                assert(self@.values =~= swept(pre, now as int, self.ttl_keys@, i + 1).values);
                assert(self@.expiries =~= swept(pre, now as int, self.ttl_keys@, i + 1).expiries);
            }
            i = i + 1;
        }
        proof {
            lemma_sweep_complete(pre, now as int, self.ttl_keys@);
        }
        self.relist_keys();
    }

    /// Rebuilds the list of keys that carry an expiry, keeping each such key
    /// once and dropping the others.
    fn relist_keys(&mut self)
        requires
            state_wf(old(self)@),
            forall|k: Seq<char>| #[trigger]
                old(self).ttl@.contains_key(k) ==> listed(old(self).ttl_keys@, k),
        ensures
            final(self).wf(),
            final(self)@ == old(self)@,
            final(self).ttl@ == old(self).ttl@,
            forall|j: int|
                0 <= j < final(self).ttl_keys@.len() ==> old(self).ttl@.contains_key(
                    #[trigger] final(self).ttl_keys@[j]@,
                ),
            distinct_views(final(self).ttl_keys@),
    {
        let mut fresh: Vec<String> = Vec::new();
        let mut seen: StringHashMap<()> = StringHashMap::new();
        let n = self.ttl_keys.len();
        let mut i: usize = 0;
        while i < n
            invariant
                n == self.ttl_keys@.len(),
                i <= n,
                self.ttl_keys@ == old(self).ttl_keys@,
                self@ == old(self)@,
                self.ttl@ == old(self).ttl@,
                forall|k: Seq<char>| #[trigger] seen@.contains_key(k) <==> listed(fresh@, k),
                forall|j: int|
                    0 <= j < fresh@.len() ==> self.ttl@.contains_key(#[trigger] fresh@[j]@),
                distinct_views(fresh@),
                forall|j: int|
                    0 <= j < i && self.ttl@.contains_key(#[trigger] self.ttl_keys@[j]@)
                        ==> seen@.contains_key(self.ttl_keys@[j]@),
            decreases n - i,
        {
            let key = &self.ttl_keys[i];
            if self.ttl.contains_key(key.as_str()) && !seen.contains_key(key.as_str()) {
                let a = key.clone();
                let b = key.clone();
                let ghost before = fresh@;
                fresh.push(a);
                seen.insert(b, ());
                assert(fresh@[fresh@.len() - 1]@ == key@);
                assert(!listed(before, key@));
                assert forall|k: Seq<char>| #[trigger] seen@.contains_key(k) implies listed(
                    fresh@,
                    k,
                ) by {
                    if k != key@ {
                        let j = choose|j: int|
                            0 <= j < before.len() && (#[trigger] before[j])@ == k;
                        assert(fresh@[j] == before[j]);
                    }
                }
                assert forall|k: Seq<char>| listed(fresh@, k) implies #[trigger]
                    seen@.contains_key(k) by {
                    let j = choose|j: int| 0 <= j < fresh@.len() && (#[trigger] fresh@[j])@ == k;
                    if j < before.len() {
                        assert(fresh@[j] == before[j]);
                        assert(listed(before, k));
                    }
                }
                assert forall|j: int| 0 <= j < fresh@.len() implies self.ttl@.contains_key(
                    #[trigger] fresh@[j]@,
                ) by {
                    if j < before.len() {
                        assert(fresh@[j] == before[j]);
                    }
                }
                assert forall|a: int, b: int|
                    0 <= a < b < fresh@.len() implies (#[trigger] fresh@[a])@ != (
                    #[trigger] fresh@[b])@ by {
                    assert(fresh@[a] == before[a]);
                    if b < before.len() {
                        assert(fresh@[b] == before[b]);
                    } else {
                        assert(before[a]@ != key@);
                    }
                }
            }
            i = i + 1;
        }
        self.ttl_keys = fresh;
        assert forall|k: Seq<char>| #[trigger] self.ttl@.contains_key(k) implies listed(
            self.ttl_keys@,
            k,
        ) by {
            let j = choose|j: int|
                0 <= j < old(self).ttl_keys@.len() && (#[trigger] old(self).ttl_keys@[j])@ == k;
            assert(seen@.contains_key(old(self).ttl_keys@[j]@));
        }
    }
}

/// In-memory cache with optional time-to-live per key.
pub struct MemCache {
    store: CacheStore,
    started: Instant,
    last: u128,
}

impl View for MemCache {
    type V = CacheState;

    closed spec fn view(&self) -> CacheState {
        self.store@
    }
}

impl MemCache {
    #[verifier::type_invariant]
    closed spec fn inv(self) -> bool {
        &&& self.store.wf()
        &&& self.last < CLOCK_LIMIT
    }

    /// The latest clock reading that an operation of this cache has used
    /// (zero before the first).
    pub closed spec fn last_reading(&self) -> u128 {
        self.last
    }

    /// Creates an empty cache and starts its clock.
    pub fn new() -> (r: Self)
        ensures
            r@ == empty_state(),
            r.last_reading() == 0,
    {
        MemCache { store: CacheStore::empty(), started: instant_now(), last: 0 }
    }

    /// The current time: nanoseconds elapsed on the monotonic clock since the
    /// cache was created, and never less than a reading the cache has used.
    pub fn now(&self) -> (r: u128)
        ensures
            self.last_reading() <= r < CLOCK_LIMIT,
    {
        proof {
            use_type_invariant(self);
        }
        let d = instant_elapsed(&self.started);
        let raw = duration_nanos(&d);
        if raw < self.last {
            self.last
        } else {
            raw
        }
    }

    /// Sets `key` to `value`, with an optional time-to-live in seconds counted
    /// from the current time.
    pub fn set(&mut self, key: String, value: String, ttl_seconds: Option<u64>)
        ensures
            exists|now: u128|
                old(self).last_reading() <= now < CLOCK_LIMIT && final(self).last_reading() == now
                    && final(self)@ == set_state(old(self)@, key@, value@, ttl_seconds, now),
    {
        let now = self.now();
        self.set_at(key, value, ttl_seconds, now);
        proof {
            use_type_invariant(&*self);
        }
        self.last = now;
    }

    /// Sets `key` to `value` at clock reading `now`, with an optional
    /// time-to-live in seconds.
    pub fn set_at(&mut self, key: String, value: String, ttl_seconds: Option<u64>, now: u128)
        requires
            now < CLOCK_LIMIT,
        ensures
            final(self)@ == set_state(old(self)@, key@, value@, ttl_seconds, now),
            final(self).last_reading() == old(self).last_reading(),
    {
        proof {
            use_type_invariant(&*self);
        }
        let mut store = CacheStore::empty();
        std::mem::swap(&mut store, &mut self.store);
        store.set_at(key, value, ttl_seconds, now);
        self.store = store;
    }

    /// Reads `key` at the current time: its value, unless it is absent or has
    /// expired; an expired key is dropped.
    pub fn get(&mut self, key: &str) -> (r: Option<String>)
        ensures
            exists|now: u128|
                old(self).last_reading() <= now < CLOCK_LIMIT && final(self).last_reading() == now
                    && opt_view(r) == lookup(old(self)@, key@, now as int) && final(self)@
                    == get_state(old(self)@, key@, now as int),
    {
        let now = self.now();
        let r = self.get_at(key, now);
        proof {
            use_type_invariant(&*self);
        }
        self.last = now;
        r
    }

    /// Reads `key` at clock reading `now`.
    pub fn get_at(&mut self, key: &str, now: u128) -> (r: Option<String>)
        ensures
            opt_view(r) == lookup(old(self)@, key@, now as int),
            final(self)@ == get_state(old(self)@, key@, now as int),
            final(self).last_reading() == old(self).last_reading(),
    {
        proof {
            use_type_invariant(&*self);
        }
        let mut store = CacheStore::empty();
        std::mem::swap(&mut store, &mut self.store);
        let r = store.get_at(key, now);
        self.store = store;
        r
    }

    /// Drops every key whose expiry has been reached at the current time.
    pub fn cleanup(&mut self)
        ensures
            exists|now: u128|
                old(self).last_reading() <= now < CLOCK_LIMIT && final(self).last_reading() == now
                    && final(self)@ == cleanup_state(old(self)@, now as int),
    {
        let now = self.now();
        self.cleanup_at(now);
        proof {
            use_type_invariant(&*self);
        }
        self.last = now;
    }

    /// Drops every key whose expiry has been reached at clock reading `now`.
    pub fn cleanup_at(&mut self, now: u128)
        ensures
            final(self)@ == cleanup_state(old(self)@, now as int),
            final(self).last_reading() == old(self).last_reading(),
    {
        proof {
            use_type_invariant(&*self);
        }
        let mut store = CacheStore::empty();
        std::mem::swap(&mut store, &mut self.store);
        store.cleanup_at(now);
        self.store = store;
    }
}

/// No two strings of `keys` have the same view.
pub open spec fn distinct_views(keys: Seq<String>) -> bool {
    forall|a: int, b: int| 0 <= a < b < keys.len() ==> (#[trigger] keys[a])@ != (#[trigger] keys[b])@
}

/// The state after the first `i` listed keys have been swept at time `now`.
pub open spec fn swept(s: CacheState, now: int, keys: Seq<String>, i: int) -> CacheState {
    CacheState {
        values: Map::new(
            |k: Seq<char>| s.values.contains_key(k) && !(expired(s, k, now) && in_prefix(keys, i, k)),
            |k: Seq<char>| s.values[k],
        ),
        expiries: Map::new(
            |k: Seq<char>|
                s.expiries.contains_key(k) && !(expired(s, k, now) && in_prefix(keys, i, k)),
            |k: Seq<char>| s.expiries[k],
        ),
    }
}

/// Whether `key` is the view of one of the first `i` strings of `keys`.
pub open spec fn in_prefix(keys: Seq<String>, i: int, key: Seq<char>) -> bool {
    exists|j: int| 0 <= j < i && (#[trigger] keys[j])@ == key
}

proof fn lemma_sweep_step(s: CacheState, now: int, keys: Seq<String>, i: int)
    requires
        0 <= i < keys.len(),
    ensures
        forall|k: Seq<char>| #[trigger]
            in_prefix(keys, i + 1, k) <==> (in_prefix(keys, i, k) || k == keys[i]@),
{
    assert forall|k: Seq<char>| #[trigger]
        in_prefix(keys, i + 1, k) implies (in_prefix(keys, i, k) || k == keys[i]@) by {
        let j = choose|j: int| 0 <= j < i + 1 && (#[trigger] keys[j])@ == k;
        if j < i {
            assert(in_prefix(keys, i, k));
        }
    }
    assert forall|k: Seq<char>| (in_prefix(keys, i, k) || k == keys[i]@) implies #[trigger]
        in_prefix(keys, i + 1, k) by {
        if k == keys[i]@ {
            assert(keys[i]@ == k);
        } else {
            let j = choose|j: int| 0 <= j < i && (#[trigger] keys[j])@ == k;
            assert(keys[j]@ == k);
        }
    }
}

proof fn lemma_sweep_complete(s: CacheState, now: int, keys: Seq<String>)
    requires
        forall|k: Seq<char>| #[trigger] s.expiries.contains_key(k) ==> listed(keys, k),
    ensures
        swept(s, now, keys, keys.len() as int) == cleanup_state(s, now),
{
    let a = swept(s, now, keys, keys.len() as int);
    let b = cleanup_state(s, now);
    assert forall|k: Seq<char>| expired(s, k, now) implies #[trigger] in_prefix(
        keys,
        keys.len() as int,
        k,
    ) by {
        assert(listed(keys, k));
        let j = choose|j: int| 0 <= j < keys.len() && (#[trigger] keys[j])@ == k;
        assert(keys[j]@ == k);
    }
    assert(a.values =~= b.values);
    assert(a.expiries =~= b.expiries);
}

/// A key set with a time-to-live of `secs` seconds at time `now` reads back
/// its value until `secs` seconds have passed, and nothing from then on.
pub proof fn lemma_read_after_set_with_ttl(
    s: CacheState,
    key: Seq<char>,
    value: Seq<char>,
    secs: u64,
    now: u128,
    t: int,
)
    requires
        now < CLOCK_LIMIT,
    ensures
        lookup(set_state(s, key, value, Some(secs), now), key, t) == if t < now + secs
            * NANOS_PER_SEC {
            Some(value)
        } else {
            None
        },
{
    assert(secs * NANOS_PER_SEC <= 18_446_744_073_709_551_615u128 * NANOS_PER_SEC);
}

/// A key set without a time-to-live reads back its value at every time,
/// whatever expiry it carried before.
pub proof fn lemma_read_after_set_without_ttl(
    s: CacheState,
    key: Seq<char>,
    value: Seq<char>,
    now: u128,
    t: int,
)
    ensures
        lookup(set_state(s, key, value, None, now), key, t) == Some(value),
{
}

/// A stored key without an expiry keeps its value and stays without an expiry
/// through every read, every cleanup, and every set of another key, at any
/// time; so it reads back its value at every time.
pub proof fn lemma_key_without_expiry_persists(
    s: CacheState,
    key: Seq<char>,
    other: Seq<char>,
    value: Seq<char>,
    ttl_seconds: Option<u64>,
    now: u128,
    t: int,
)
    requires
        s.values.contains_key(key),
        !s.expiries.contains_key(key),
    ensures
        lookup(s, key, t) == Some(s.values[key]),
        get_state(s, other, t).values.contains_key(key),
        get_state(s, other, t).values[key] == s.values[key],
        !get_state(s, other, t).expiries.contains_key(key),
        cleanup_state(s, t).values.contains_key(key),
        cleanup_state(s, t).values[key] == s.values[key],
        !cleanup_state(s, t).expiries.contains_key(key),
        other != key ==> set_state(s, other, value, ttl_seconds, now).values.contains_key(key),
        other != key ==> set_state(s, other, value, ttl_seconds, now).values[key] == s.values[key],
        other != key ==> !set_state(s, other, value, ttl_seconds, now).expiries.contains_key(key),
{
}

/// A key that reads nothing at time `t` reads nothing at every later time, and
/// keeps reading nothing through every read, every cleanup and every set of
/// another key made at `t` or later: only a set of the key itself brings it
/// back.
pub proof fn lemma_absent_key_stays_absent(
    s: CacheState,
    key: Seq<char>,
    other: Seq<char>,
    value: Seq<char>,
    ttl_seconds: Option<u64>,
    t: int,
    t2: u128,
    t3: int,
)
    requires
        state_wf(s),
        lookup(s, key, t) is None,
        t <= t2 <= t3,
    ensures
        lookup(s, key, t3) is None,
        lookup(get_state(s, other, t2 as int), key, t3) is None,
        lookup(cleanup_state(s, t2 as int), key, t3) is None,
        other != key ==> lookup(set_state(s, other, value, ttl_seconds, t2), key, t3) is None,
{
}

/// Setting one key does not change what any other key reads.
pub proof fn lemma_set_leaves_other_keys(
    s: CacheState,
    key: Seq<char>,
    value: Seq<char>,
    ttl_seconds: Option<u64>,
    now: u128,
    other: Seq<char>,
    t: int,
)
    requires
        other != key,
    ensures
        lookup(set_state(s, key, value, ttl_seconds, now), other, t) == lookup(s, other, t),
{
}

/// A read at time `now` changes nothing that any read at `now` or later sees.
pub proof fn lemma_get_is_unobservable(
    s: CacheState,
    key: Seq<char>,
    now: int,
    other: Seq<char>,
    t: int,
)
    requires
        now <= t,
    ensures
        lookup(get_state(s, key, now), other, t) == lookup(s, other, t),
{
}

/// A cleanup at time `now` changes nothing that any read at `now` or later sees.
pub proof fn lemma_cleanup_is_unobservable(s: CacheState, now: int, key: Seq<char>, t: int)
    requires
        now <= t,
    ensures
        lookup(cleanup_state(s, now), key, t) == lookup(s, key, t),
{
}

/// After a cleanup at time `now` no key has reached its expiry at `now`, and
/// a second cleanup at the same time changes nothing.
pub proof fn lemma_cleanup_leaves_nothing_expired(s: CacheState, now: int)
    ensures
        forall|k: Seq<char>| !#[trigger] expired(cleanup_state(s, now), k, now),
        cleanup_state(cleanup_state(s, now), now) == cleanup_state(s, now),
{
    let c = cleanup_state(s, now);
    let cc = cleanup_state(c, now);
    assert(cc.values =~= c.values);
    assert(cc.expiries =~= c.expiries);
}

/// Every operation keeps the state invariant: only stored keys carry an expiry.
pub proof fn lemma_operations_keep_state_wf(
    s: CacheState,
    key: Seq<char>,
    value: Seq<char>,
    ttl_seconds: Option<u64>,
    now: u128,
)
    requires
        state_wf(s),
    ensures
        state_wf(set_state(s, key, value, ttl_seconds, now)),
        state_wf(get_state(s, key, now as int)),
        state_wf(cleanup_state(s, now as int)),
{
    assert forall|k: Seq<char>| #[trigger]
        set_state(s, key, value, ttl_seconds, now).expiries.contains_key(k) implies set_state(
        s,
        key,
        value,
        ttl_seconds,
        now,
    ).values.contains_key(k) by {
        if k != key {
            assert(s.expiries.contains_key(k));
        }
    }
    assert forall|k: Seq<char>| #[trigger]
        get_state(s, key, now as int).expiries.contains_key(k) implies get_state(
        s,
        key,
        now as int,
    ).values.contains_key(k) by {
        assert(s.expiries.contains_key(k));
    }
    assert forall|k: Seq<char>| #[trigger]
        cleanup_state(s, now as int).expiries.contains_key(k) implies cleanup_state(
        s,
        now as int,
    ).values.contains_key(k) by {
        assert(s.expiries.contains_key(k));
    }
}

} // verus!
