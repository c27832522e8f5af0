//! The cache of resolutions: a bounded tier that forgets what was used
//! longest ago, and an unbounded tier, both with entries that expire.

use vstd::prelude::*;
use std::sync::Arc;
use crate::clock::{duration_as_nanos, duration_nanos, instant_elapsed, instant_now};
use crate::config::CacheConfig;
use crate::source::variable::{VariableSource, VariableSourceView};
use crate::text::{clone_opt_string, opt_text};

verus! {

/// `lru::LruCache`, held as a value that only its own functions look into.
#[verifier::external_type_specification]
#[verifier::external_body]
#[verifier::reject_recursive_types(K)]
#[verifier::reject_recursive_types(V)]
#[verifier::reject_recursive_types(S)]
pub struct ExLruCache<K, V, S>(lru::LruCache<K, V, S>);

/// `hashbrown::DefaultHashBuilder`, held as a value that only its own functions look into.
#[verifier::external_type_specification]
#[verifier::external_body]
pub struct ExDefaultHashBuilder(hashbrown::DefaultHashBuilder);

/// `dashmap::DashMap`, held as a value that only its own functions look into.
#[verifier::external_type_specification]
#[verifier::external_body]
#[verifier::reject_recursive_types(K)]
#[verifier::reject_recursive_types(V)]
#[verifier::reject_recursive_types(S)]
pub struct ExDashMap<K, V, S>(dashmap::DashMap<K, V, S>);

/// What a resolution is filed under: the variable and the scope.
#[derive(Debug, Hash)]
pub struct CacheKey {
    pub key: String,
    pub context_hash: u64,
}

/// A cache key as plain values.
pub type KeyView = (Seq<char>, u64);

impl View for CacheKey {
    type V = KeyView;

    open spec fn view(&self) -> KeyView {
        (self.key@, self.context_hash)
    }
}

impl CacheKey {
    pub fn new(key: &str, context_hash: u64) -> (r: Self)
        ensures
            r@ == (key@, context_hash),
    {
        CacheKey { key: key.to_owned(), context_hash }
    }
}

impl Clone for CacheKey {
    fn clone(&self) -> (r: Self)
        ensures
            r@ == self@,
    {
        CacheKey { key: self.key.clone(), context_hash: self.context_hash }
    }
}

impl PartialEq for CacheKey {
    fn eq(&self, other: &Self) -> (r: bool) {
        self.key == other.key && self.context_hash == other.context_hash
    }
}

impl Eq for CacheKey {}

impl vstd::std_specs::cmp::PartialEqSpecImpl for CacheKey {
    open spec fn obeys_eq_spec() -> bool {
        true
    }

    open spec fn eq_spec(&self, other: &Self) -> bool {
        self@ == other@
    }
}

impl Default for CacheKey {
    fn default() -> (r: Self)
        ensures
            r@ == (Seq::<char>::empty(), 0u64),
    {
        CacheKey { key: String::new(), context_hash: 0 }
    }
}

/// A variable with its value after interpolation.
#[derive(Debug)]
pub struct ResolvedVariable {
    pub key: String,
    pub raw_value: String,
    pub resolved_value: String,
    pub source: VariableSource,
    pub description: Option<String>,
    pub has_warnings: bool,
    pub interpolation_depth: u32,
}

pub struct ResolvedVariableView {
    pub key: Seq<char>,
    pub raw_value: Seq<char>,
    pub resolved_value: Seq<char>,
    pub source: VariableSourceView,
    pub description: Option<Seq<char>>,
    pub has_warnings: bool,
    pub interpolation_depth: u32,
}

impl View for ResolvedVariable {
    type V = ResolvedVariableView;

    open spec fn view(&self) -> ResolvedVariableView {
        ResolvedVariableView {
            key: self.key@,
            raw_value: self.raw_value@,
            resolved_value: self.resolved_value@,
            source: self.source@,
            description: opt_text(self.description),
            has_warnings: self.has_warnings,
            interpolation_depth: self.interpolation_depth,
        }
    }
}

impl Clone for ResolvedVariable {
    fn clone(&self) -> (r: Self)
        ensures
            r@ == self@,
    {
        ResolvedVariable {
            key: self.key.clone(),
            raw_value: self.raw_value.clone(),
            resolved_value: self.resolved_value.clone(),
            source: self.source.clone(),
            description: clone_opt_string(&self.description),
            has_warnings: self.has_warnings,
            interpolation_depth: self.interpolation_depth,
        }
    }
}

/// A resolution and the moment it was cached at, in nanoseconds on the
/// cache's clock.
#[derive(Debug, Clone)]
pub struct CachedValue {
    pub value: Arc<ResolvedVariable>,
    pub cached_at: u128,
}

/// A cached resolution as plain values.
pub type CachedView = (ResolvedVariableView, u128);

impl View for CachedValue {
    type V = CachedView;

    open spec fn view(&self) -> CachedView {
        ((*self.value)@, self.cached_at)
    }
}

/// An entry of the bounded tier.
pub type HotEntry = (KeyView, CachedView);

/// What the bounded tier holds, the entry used last first.
pub uninterp spec fn hot_entries(c: lru::LruCache<(String, u64), CachedValue>) -> Seq<HotEntry>;

/// The number of entries that the bounded tier was made for.
pub uninterp spec fn hot_capacity(c: lru::LruCache<(String, u64), CachedValue>) -> nat;

/// What the unbounded tier holds.
pub uninterp spec fn warm_entries(c: dashmap::DashMap<(String, u64), CachedValue>) -> Map<
    KeyView,
    CachedView,
>;

/// An unbounded tier that holds nothing.
pub open spec fn empty_warm() -> Map<KeyView, CachedView> {
    Map::empty()
}

pub open spec fn hot_has(hot: Seq<HotEntry>, key: KeyView) -> bool {
    exists|i: int| 0 <= i < hot.len() && (#[trigger] hot[i]).0 == key
}

/// A place at which the key stands; meaningful where `hot_has` holds.
pub open spec fn hot_position(hot: Seq<HotEntry>, key: KeyView) -> int {
    choose|i: int| 0 <= i < hot.len() && (#[trigger] hot[i]).0 == key
}

pub open spec fn hot_distinct(hot: Seq<HotEntry>) -> bool {
    forall|i: int, j: int|
        0 <= i < hot.len() && 0 <= j < hot.len() && (#[trigger] hot[i]).0 == (#[trigger] hot[j]).0
            ==> i == j
}

/// The bounded tier after `key` was used: its entry stands first.
pub open spec fn hot_promote(hot: Seq<HotEntry>, key: KeyView) -> Seq<HotEntry> {
    if hot_has(hot, key) {
        seq![hot[hot_position(hot, key)]] + hot.remove(hot_position(hot, key))
    } else {
        hot
    }
}

/// The bounded tier after `key` was put: the new entry stands first; an old
/// entry of the key is gone, and where there was none and the tier was full,
/// the entry used longest ago is gone.
pub open spec fn hot_put(hot: Seq<HotEntry>, capacity: nat, key: KeyView, value: CachedView) -> Seq<
    HotEntry,
> {
    if hot_has(hot, key) {
        seq![(key, value)] + hot.remove(hot_position(hot, key))
    } else if hot.len() >= capacity {
        seq![(key, value)] + hot.drop_last()
    } else {
        seq![(key, value)] + hot
    }
}

/// The bounded tier without the entry of `key`.
pub open spec fn hot_pop(hot: Seq<HotEntry>, key: KeyView) -> Seq<HotEntry> {
    if hot_has(hot, key) {
        hot.remove(hot_position(hot, key))
    } else {
        hot
    }
}

/// The time between two readings of the clock; none where the later is the
/// earlier one.
pub open spec fn elapsed(now: u128, cached_at: u128) -> int {
    if now >= cached_at {
        now - cached_at
    } else {
        0
    }
}

/// Whether an entry cached at `cached_at` is still alive at `now`.
pub open spec fn is_fresh(cached_at: u128, now: u128, ttl: u128) -> bool {
    elapsed(now, cached_at) < ttl
}

/// Whether an entry cached at `cached_at` is still alive at `now`.
pub fn fresh_at(cached_at: u128, now: u128, ttl: u128) -> (r: bool)
    ensures
        r == is_fresh(cached_at, now, ttl),
{
    let passed: u128 = if now >= cached_at {
        now - cached_at
    } else {
        0
    };
    passed < ttl
}

/// The entries of the unbounded tier that are alive at `now`.
pub open spec fn warm_fresh(warm: Map<KeyView, CachedView>, now: u128, ttl: u128) -> Map<
    KeyView,
    CachedView,
> {
    Map::new(|k: KeyView| warm.contains_key(k) && is_fresh(warm[k].1, now, ttl), |k: KeyView| warm[k])
}

pub open spec fn hot_entry_views(v: Seq<((String, u64), CachedValue)>) -> Seq<HotEntry> {
    Seq::new(v.len(), |i: int| ((v[i].0.0@, v[i].0.1), v[i].1@))
}

/// Wraps `LruCache::new`: an empty cache for `capacity` entries.
#[verifier::external_body]
fn hot_new(capacity: usize) -> (c: lru::LruCache<(String, u64), CachedValue>)
    requires
        capacity > 0,
    ensures
        hot_entries(c) == Seq::<HotEntry>::empty(),
        hot_capacity(c) == capacity,
{
    lru::LruCache::new(std::num::NonZeroUsize::new(capacity).unwrap())
}

/// Wraps `LruCache::get`: hands out a copy of the entry of `key`, which then
/// stands first.
#[verifier::external_body]
fn hot_get(c: &mut lru::LruCache<(String, u64), CachedValue>, key: &CacheKey) -> (r: Option<
    CachedValue,
>)
    ensures
        hot_entries(*final(c)) == hot_promote(hot_entries(*old(c)), key@),
        hot_capacity(*final(c)) == hot_capacity(*old(c)),
        hot_distinct(hot_entries(*final(c))),
        r is Some == hot_has(hot_entries(*old(c)), key@),
        r matches Some(v) ==> v@ == hot_entries(*old(c))[hot_position(
            hot_entries(*old(c)),
            key@,
        )].1,
{
    c.get(&(key.key.clone(), key.context_hash)).cloned()
}

/// Wraps `LruCache::put`: the entry stands first afterwards; where the key
/// is new and the cache is full, the entry used longest ago makes room.
#[verifier::external_body]
fn hot_insert(c: &mut lru::LruCache<(String, u64), CachedValue>, key: CacheKey, value: CachedValue)
    ensures
        hot_entries(*final(c)) == hot_put(
            hot_entries(*old(c)),
            hot_capacity(*old(c)),
            key@,
            value@,
        ),
        hot_capacity(*final(c)) == hot_capacity(*old(c)),
        hot_distinct(hot_entries(*final(c))),
        hot_entries(*final(c)).len() <= hot_capacity(*final(c)),
{
    c.put((key.key, key.context_hash), value);
}

/// Wraps `LruCache::pop`: the entry of `key` is gone afterwards.
#[verifier::external_body]
fn hot_remove(c: &mut lru::LruCache<(String, u64), CachedValue>, key: &CacheKey)
    ensures
        hot_entries(*final(c)) == hot_pop(hot_entries(*old(c)), key@),
        hot_capacity(*final(c)) == hot_capacity(*old(c)),
        hot_distinct(hot_entries(*final(c))),
{
    c.pop(&(key.key.clone(), key.context_hash));
}

/// Wraps `LruCache::clear`: the cache holds nothing afterwards.
#[verifier::external_body]
fn hot_clear(c: &mut lru::LruCache<(String, u64), CachedValue>)
    ensures
        hot_entries(*final(c)) == Seq::<HotEntry>::empty(),
        hot_capacity(*final(c)) == hot_capacity(*old(c)),
{
    c.clear();
}

/// Wraps `LruCache::len`: the number of entries.
#[verifier::external_body]
fn hot_len(c: &lru::LruCache<(String, u64), CachedValue>) -> (n: usize)
    ensures
        n == hot_entries(*c).len(),
{
    c.len()
}

/// Wraps `LruCache::iter`: hands out a copy of every entry, the one used
/// last first.
#[verifier::external_body]
fn hot_to_vec(c: &lru::LruCache<(String, u64), CachedValue>) -> (v: Vec<
    ((String, u64), CachedValue),
>)
    ensures
        hot_entry_views(v@) == hot_entries(*c),
{
    c.iter().map(|(k, v)| (k.clone(), v.clone())).collect()
}

/// Wraps `DashMap::new`: a map that holds nothing.
#[verifier::external_body]
fn warm_new() -> (m: dashmap::DashMap<(String, u64), CachedValue>)
    ensures
        warm_entries(m) == empty_warm(),
{
    dashmap::DashMap::new()
}

/// Wraps `DashMap::get`: hands out a copy of the entry of `key`.
#[verifier::external_body]
fn warm_get(m: &dashmap::DashMap<(String, u64), CachedValue>, key: &CacheKey) -> (r: Option<
    CachedValue,
>)
    ensures
        r is Some == warm_entries(*m).contains_key(key@),
        r matches Some(v) ==> v@ == warm_entries(*m)[key@],
{
    m.get(&(key.key.clone(), key.context_hash)).map(|e| e.value().clone())
}

/// Wraps `DashMap::insert`: the key has the value afterwards.
#[verifier::external_body]
fn warm_insert(
    m: &mut dashmap::DashMap<(String, u64), CachedValue>,
    key: CacheKey,
    value: CachedValue,
)
    ensures
        warm_entries(*final(m)) == warm_entries(*old(m)).insert(key@, value@),
{
    m.insert((key.key, key.context_hash), value);
}

/// Wraps `DashMap::remove`: the key has no entry afterwards.
#[verifier::external_body]
fn warm_remove(m: &mut dashmap::DashMap<(String, u64), CachedValue>, key: &CacheKey)
    ensures
        warm_entries(*final(m)) == warm_entries(*old(m)).remove(key@),
{
    m.remove(&(key.key.clone(), key.context_hash));
}

/// Wraps `DashMap::retain`, keeping the entries that are alive at `now`.
#[verifier::external_body]
fn warm_retain_fresh(m: &mut dashmap::DashMap<(String, u64), CachedValue>, now: u128, ttl: u128)
    ensures
        warm_entries(*final(m)) == warm_fresh(warm_entries(*old(m)), now, ttl),
{
    m.retain(|_, cached| fresh_at(cached.cached_at, now, ttl));
}

/// Wraps `DashMap::clear`: the map holds nothing afterwards.
#[verifier::external_body]
fn warm_clear(m: &mut dashmap::DashMap<(String, u64), CachedValue>)
    ensures
        warm_entries(*final(m)) == empty_warm(),
{
    m.clear();
}

/// Wraps `DashMap::len`: the number of entries.
#[verifier::external_body]
fn warm_len(m: &dashmap::DashMap<(String, u64), CachedValue>) -> (n: usize)
    ensures
        n == warm_entries(*m).len(),
{
    m.len()
}

/// What a lookup gives and leaves behind.
pub struct Lookup {
    pub found: Option<ResolvedVariableView>,
    pub hot: Seq<HotEntry>,
    pub warm: Map<KeyView, CachedView>,
}

/// A lookup of `key` at `now`. A live entry of the unbounded tier answers
/// and nothing changes. Else an entry of the key there has expired and is
/// dropped, and the bounded tier is asked: the entry of the key is used, and
/// answers where it is alive.
pub open spec fn lookup(
    hot: Seq<HotEntry>,
    warm: Map<KeyView, CachedView>,
    ttl: u128,
    key: KeyView,
    now: u128,
) -> Lookup {
    if warm.contains_key(key) && is_fresh(warm[key].1, now, ttl) {
        Lookup { found: Some(warm[key].0), hot, warm }
    } else {
        Lookup {
            found: if hot_has(hot, key) && is_fresh(hot[hot_position(hot, key)].1.1, now, ttl) {
                Some(hot[hot_position(hot, key)].1.0)
            } else {
                None
            },
            hot: hot_promote(hot, key),
            warm: warm.remove(key),
        }
    }
}

/// The entries of the bounded tier that are alive at `now`, in their order.
pub open spec fn hot_fresh(hot: Seq<HotEntry>, now: u128, ttl: u128) -> Seq<HotEntry> {
    hot.filter(|e: HotEntry| is_fresh(e.1.1, now, ttl))
}

/// The two-tier cache of resolutions.
pub struct ResolutionCache {
    hot_cache: lru::LruCache<(String, u64), CachedValue>,
    ttl_cache: dashmap::DashMap<(String, u64), CachedValue>,
    ttl: u128,
    enabled: bool,
    origin: std::time::Instant,
}

impl ResolutionCache {
    /// The bounded tier, the entry used last first.
    pub closed spec fn hot(&self) -> Seq<HotEntry> {
        hot_entries(self.hot_cache)
    }

    /// The unbounded tier.
    pub closed spec fn warm(&self) -> Map<KeyView, CachedView> {
        warm_entries(self.ttl_cache)
    }

    /// The number of entries that the bounded tier holds at most.
    pub closed spec fn capacity(&self) -> nat {
        hot_capacity(self.hot_cache)
    }

    /// How long an entry lives, in nanoseconds.
    pub closed spec fn ttl(&self) -> u128 {
        self.ttl
    }

    pub closed spec fn enabled(&self) -> bool {
        self.enabled
    }

    /// The bounded tier holds no key twice.
    pub open spec fn wf(&self) -> bool {
        hot_distinct(self.hot())
    }

    /// A cache as the configuration describes it. A bounded tier for no
    /// entries is made for one.
    pub fn new(config: &CacheConfig) -> (r: Self)
        ensures
            r.wf(),
            r.hot() == Seq::<HotEntry>::empty(),
            r.warm() == empty_warm(),
            r.capacity() == if config.hot_cache_size == 0 {
                1
            } else {
                config.hot_cache_size as nat
            },
            r.ttl() == duration_nanos(config.ttl),
            r.enabled() == config.enabled,
    {
        let capacity: usize = if config.hot_cache_size == 0 {
            1
        } else {
            config.hot_cache_size
        };
        ResolutionCache {
            hot_cache: hot_new(capacity),
            ttl_cache: warm_new(),
            ttl: duration_as_nanos(&config.ttl),
            enabled: config.enabled,
            origin: instant_now(),
        }
    }

    /// The reading of the cache's clock: the nanoseconds since the cache was
    /// made.
    pub fn now(&self) -> (t: u128) {
        let passed = instant_elapsed(&self.origin);
        duration_as_nanos(&passed)
    }

    /// Looks `key` up at the moment `now`. A cache that is switched off
    /// holds nothing.
    pub fn get_at(&mut self, key: &CacheKey, now: u128) -> (r: Option<Arc<ResolvedVariable>>)
        ensures
            old(self).wf() ==> final(self).wf(),
            final(self).capacity() == old(self).capacity(),
            final(self).ttl() == old(self).ttl(),
            final(self).enabled() == old(self).enabled(),
            !old(self).enabled() ==> r is None && final(self).hot() == old(self).hot()
                && final(self).warm() == old(self).warm(),
            old(self).enabled() ==> {
                let l = lookup(old(self).hot(), old(self).warm(), old(self).ttl(), key@, now);
                &&& final(self).hot() == l.hot
                &&& final(self).warm() == l.warm
                &&& match r {
                    Some(v) => l.found == Some((*v)@),
                    None => l.found is None,
                }
            },
            old(self).ttl() == 0 ==> r is None,
    {
        if !self.enabled {
            return None;
        }
        match warm_get(&self.ttl_cache, key) {
            Some(cached) => {
                if fresh_at(cached.cached_at, now, self.ttl) {
                    return Some(cached.value);
                }
                warm_remove(&mut self.ttl_cache, key);
            },
            None => {
                assert(self.warm().remove(key@) =~= self.warm());
                warm_remove(&mut self.ttl_cache, key);
            },
        }
        match hot_get(&mut self.hot_cache, key) {
            Some(cached) => {
                if fresh_at(cached.cached_at, now, self.ttl) {
                    Some(cached.value)
                } else {
                    None
                }
            },
            None => None,
        }
    }

    /// Looks `key` up now.
    pub fn get(&mut self, key: &CacheKey) -> (r: Option<Arc<ResolvedVariable>>)
        ensures
            old(self).wf() ==> final(self).wf(),
            final(self).capacity() == old(self).capacity(),
            final(self).ttl() == old(self).ttl(),
            final(self).enabled() == old(self).enabled(),
            !old(self).enabled() ==> r is None && final(self).hot() == old(self).hot()
                && final(self).warm() == old(self).warm(),
            old(self).enabled() ==> exists|now: u128|
                {
                    let l = #[trigger] lookup(
                        old(self).hot(),
                        old(self).warm(),
                        old(self).ttl(),
                        key@,
                        now,
                    );
                    &&& final(self).hot() == l.hot
                    &&& final(self).warm() == l.warm
                    &&& match r {
                        Some(v) => l.found == Some((*v)@),
                        None => l.found is None,
                    }
                },
            old(self).ttl() == 0 ==> r is None,
    {
        let now = self.now();
        self.get_at(key, now)
    }

    /// Files `value` under `key` in both tiers, as cached at `now`. A cache
    /// that is switched off takes nothing.
    pub fn insert_at(&mut self, key: CacheKey, value: Arc<ResolvedVariable>, now: u128)
        ensures
            old(self).wf() ==> final(self).wf(),
            final(self).capacity() == old(self).capacity(),
            final(self).ttl() == old(self).ttl(),
            final(self).enabled() == old(self).enabled(),
            final(self).hot() == if old(self).enabled() {
                hot_put(old(self).hot(), old(self).capacity(), key@, ((*value)@, now))
            } else {
                old(self).hot()
            },
            final(self).warm() == if old(self).enabled() {
                old(self).warm().insert(key@, ((*value)@, now))
            } else {
                old(self).warm()
            },
    {
        if !self.enabled {
            return ;
        }
        let cached = CachedValue { value: value.clone(), cached_at: now };
        let again = CachedValue { value, cached_at: now };
        warm_insert(&mut self.ttl_cache, key.clone(), cached);
        hot_insert(&mut self.hot_cache, key, again);
    }

    /// Files `value` under `key` in both tiers, as cached now.
    pub fn insert(&mut self, key: CacheKey, value: Arc<ResolvedVariable>)
        ensures
            old(self).wf() ==> final(self).wf(),
            final(self).capacity() == old(self).capacity(),
            final(self).ttl() == old(self).ttl(),
            final(self).enabled() == old(self).enabled(),
            !old(self).enabled() ==> final(self).hot() == old(self).hot() && final(self).warm()
                == old(self).warm(),
            old(self).enabled() ==> exists|now: u128|
                final(self).hot() == #[trigger] hot_put(
                    old(self).hot(),
                    old(self).capacity(),
                    key@,
                    ((*value)@, now),
                ) && final(self).warm() == old(self).warm().insert(key@, ((*value)@, now)),
    {
        let now = self.now();
        self.insert_at(key, value, now);
    }

    /// Drops the entry of `key` from both tiers.
    pub fn invalidate(&mut self, key: &CacheKey)
        ensures
            old(self).wf() ==> final(self).wf(),
            final(self).capacity() == old(self).capacity(),
            final(self).ttl() == old(self).ttl(),
            final(self).enabled() == old(self).enabled(),
            final(self).hot() == if old(self).enabled() {
                hot_pop(old(self).hot(), key@)
            } else {
                old(self).hot()
            },
            final(self).warm() == if old(self).enabled() {
                old(self).warm().remove(key@)
            } else {
                old(self).warm()
            },
    {
        if !self.enabled {
            return ;
        }
        warm_remove(&mut self.ttl_cache, key);
        hot_remove(&mut self.hot_cache, key);
    }

    /// Empties both tiers.
    pub fn clear(&mut self)
        ensures
            old(self).wf() ==> final(self).wf(),
            final(self).capacity() == old(self).capacity(),
            final(self).ttl() == old(self).ttl(),
            final(self).enabled() == old(self).enabled(),
            final(self).hot() == Seq::<HotEntry>::empty(),
            final(self).warm() == empty_warm(),
    {
        warm_clear(&mut self.ttl_cache);
        hot_clear(&mut self.hot_cache);
    }

    /// The number of entries of the bounded tier and of the unbounded tier.
    pub fn sizes(&self) -> (r: (usize, usize))
        ensures
            r.0 == self.hot().len(),
            r.1 == self.warm().len(),
    {
        (hot_len(&self.hot_cache), warm_len(&self.ttl_cache))
    }

    /// The number of entries of both tiers together; none where the cache is
    /// switched off.
    pub fn len(&self) -> (n: usize)
        requires
            self.warm().len() + self.hot().len() <= usize::MAX,
        ensures
            n == if self.enabled() {
                self.warm().len() + self.hot().len()
            } else {
                0
            },
    {
        if !self.enabled {
            return 0;
        }
        warm_len(&self.ttl_cache) + hot_len(&self.hot_cache)
    }

    pub fn is_empty(&self) -> (b: bool)
        requires
            self.warm().len() + self.hot().len() <= usize::MAX,
        ensures
            b == (!self.enabled() || self.warm().len() + self.hot().len() == 0),
    {
        !self.enabled || self.len() == 0
    }

    /// Drops from both tiers what has expired at `now`.
    pub fn cleanup_expired_at(&mut self, now: u128)
        requires
            old(self).wf(),
        ensures
            old(self).wf() ==> final(self).wf(),
            final(self).capacity() == old(self).capacity(),
            final(self).ttl() == old(self).ttl(),
            final(self).enabled() == old(self).enabled(),
            final(self).hot() == if old(self).enabled() {
                hot_fresh(old(self).hot(), now, old(self).ttl())
            } else {
                old(self).hot()
            },
            final(self).warm() == if old(self).enabled() {
                warm_fresh(old(self).warm(), now, old(self).ttl())
            } else {
                old(self).warm()
            },
    {
        if !self.enabled {
            return ;
        }
        warm_retain_fresh(&mut self.ttl_cache, now, self.ttl);
        let entries = hot_to_vec(&self.hot_cache);
        let ghost hot0 = self.hot();
        let ghost ttl = self.ttl;
        let mut i: usize = 0;
        proof {
            assert(hot_entry_views(entries@) == hot0);
            assert(hot0.take(0) =~= Seq::<HotEntry>::empty());
            assert(hot0.skip(0) =~= hot0);
            reveal(Seq::filter);
            assert(hot_fresh(hot0.take(0), now, ttl) =~= Seq::<HotEntry>::empty());
        }
        while i < entries.len()
            invariant
                i <= entries.len(),
                hot_entry_views(entries@) == hot0,
                hot_distinct(hot0),
                self.ttl == ttl,
                self.enabled == old(self).enabled,
                warm_entries(self.ttl_cache) == warm_fresh(old(self).warm(), now, ttl),
                hot_capacity(self.hot_cache) == old(self).capacity(),
                hot_distinct(self.hot()),
                self.hot() == hot_fresh(hot0.take(i as int), now, ttl) + hot0.skip(i as int),
            decreases entries.len() - i,
        {
            let entry = &entries[i];
            proof {
                assert(hot0[i as int] == ((entry.0.0@, entry.0.1), entry.1@));
                lemma_sweep_step(hot0, i as int, now, ttl);
            }
            if !fresh_at(entry.1.cached_at, now, self.ttl) {
                let key = CacheKey { key: entry.0.0.clone(), context_hash: entry.0.1 };
                hot_remove(&mut self.hot_cache, &key);
            }
            i += 1;
        }
        proof {
            assert(hot0.take(hot0.len() as int) =~= hot0);
            assert(hot0.skip(hot0.len() as int) =~= Seq::<HotEntry>::empty());
        }
    }

    /// Drops from both tiers what has expired by now.
    pub fn cleanup_expired(&mut self)
        requires
            old(self).wf(),
        ensures
            old(self).wf() ==> final(self).wf(),
            final(self).capacity() == old(self).capacity(),
            final(self).ttl() == old(self).ttl(),
            final(self).enabled() == old(self).enabled(),
            !old(self).enabled() ==> final(self).hot() == old(self).hot() && final(self).warm()
                == old(self).warm(),
            old(self).enabled() ==> exists|now: u128|
                final(self).hot() == #[trigger] hot_fresh(old(self).hot(), now, old(self).ttl())
                    && final(self).warm() == warm_fresh(old(self).warm(), now, old(self).ttl()),
    {
        let now = self.now();
        self.cleanup_expired_at(now);
    }
}

/// One step of the sweep of the bounded tier: dropping the entry at place
/// `i` where it has expired, and keeping it where it is alive, moves the
/// border between what is swept and what is not by one.
proof fn lemma_sweep_step(hot0: Seq<HotEntry>, i: int, now: u128, ttl: u128)
    requires
        0 <= i < hot0.len(),
        hot_distinct(hot0),
    ensures
        ({
            let current = hot_fresh(hot0.take(i), now, ttl) + hot0.skip(i);
            let next = hot_fresh(hot0.take(i + 1), now, ttl) + hot0.skip(i + 1);
            if is_fresh(hot0[i].1.1, now, ttl) {
                next == current
            } else {
                next == hot_pop(current, hot0[i].0)
            }
        }),
{
    let swept = hot_fresh(hot0.take(i), now, ttl);
    let current = swept + hot0.skip(i);
    let next = hot_fresh(hot0.take(i + 1), now, ttl) + hot0.skip(i + 1);
    let pred = |e: HotEntry| is_fresh(e.1.1, now, ttl);
    assert(hot0.take(i + 1) =~= hot0.take(i).push(hot0[i]));
    assert(hot0.take(i + 1).filter(pred) == if pred(hot0[i]) {
        hot0.take(i).filter(pred).push(hot0[i])
    } else {
        hot0.take(i).filter(pred)
    }) by {
        Seq::<HotEntry>::filter_distributes_over_add(hot0.take(i), seq![hot0[i]], pred);
        assert(hot0.take(i).push(hot0[i]) =~= hot0.take(i) + seq![hot0[i]]);
        reveal_with_fuel(Seq::filter, 2);
        assert(seq![hot0[i]].filter(pred) =~= if pred(hot0[i]) {
            seq![hot0[i]]
        } else {
            Seq::<HotEntry>::empty()
        }) by {
            assert(seq![hot0[i]].drop_last() =~= Seq::<HotEntry>::empty());
        }
    }
    assert(hot0.skip(i) =~= seq![hot0[i]] + hot0.skip(i + 1));
    if is_fresh(hot0[i].1.1, now, ttl) {
        assert(next =~= current);
    } else {
        // every swept entry is an entry of hot0 before place i
        assert forall|k: int| 0 <= k < swept.len() implies (#[trigger] swept[k]).0 != hot0[i].0 by {
            hot0.take(i).lemma_filter_contains_rev(pred, swept[k]);
            let w = choose|w: int| 0 <= w < hot0.take(i).len() && hot0.take(i)[w] == swept[k];
            assert(hot0[w] == swept[k]);
        }
        let at = swept.len() as int;
        assert(current[at] == hot0[i]);
        assert(hot_has(current, hot0[i].0));
        let p = hot_position(current, hot0[i].0);
        assert(p == at) by {
            if p < at {
                assert(current[p] == swept[p]);
            } else if p > at {
                assert(current[p] == hot0[i + (p - at)]);
            }
        }
        assert(next =~= current.remove(at));
    }
}

} // verus!
