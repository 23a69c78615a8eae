use vstd::prelude::*;

use dashmap::DashMap;

use crate::text::{append, concat, to_string};

verus! {

/// The concurrent map that holds a cache's entries by key.
pub type CacheStore = DashMap<String, CacheEntry>;

/// A cached value and the time, in milliseconds of a monotonic clock, until which it lives.
#[derive(Debug, Clone)]
pub struct CacheEntry {
    pub value: String,
    pub expires_at: u64,
}

/// What a cache store holds: for each key, the value's text and its expiry time.
pub uninterp spec fn stored_entries(store: CacheStore) -> Map<Seq<char>, (Seq<char>, u64)>;

/// `DashMap::new`: a store that holds nothing.
#[verifier::external_body]
fn store_new() -> (r: CacheStore)
    ensures
        stored_entries(r).dom() == Set::<Seq<char>>::empty(),
{
    DashMap::new()
}

/// `DashMap::get`: the entry of `key`, copied out, when there is one.
#[verifier::external_body]
fn store_get(store: &CacheStore, key: &str) -> (r: Option<(String, u64)>)
    ensures
        match r {
            Some((v, t)) => stored_entries(*store).contains_key(key@) && stored_entries(*store)[key@] == (v@, t),
            None => !stored_entries(*store).contains_key(key@),
        },
{
    store.get(key).map(|e| (e.value.clone(), e.expires_at))
}

/// `DashMap::insert`: `key` now holds `entry`, the other keys are kept.
#[verifier::external_body]
fn store_insert(store: &mut CacheStore, key: String, entry: CacheEntry)
    ensures
        stored_entries(*final(store)) == stored_entries(*old(store)).insert(key@, (entry.value@, entry.expires_at)),
{
    store.insert(key, entry);
}

/// `DashMap::remove`: `key` holds nothing any more, the other keys are kept.
#[verifier::external_body]
fn store_remove(store: &mut CacheStore, key: &str)
    ensures
        stored_entries(*final(store)) == stored_entries(*old(store)).remove(key@),
{
    store.remove(key);
}

/// `DashMap::retain`: keeps exactly the entries that are alive at `now`.
#[verifier::external_body]
fn store_retain_alive(store: &mut CacheStore, now: u64)
    ensures
        stored_entries(*final(store)) == stored_entries(*old(store)).restrict(
            stored_entries(*old(store)).dom().filter(|k: Seq<char>| alive(stored_entries(*old(store))[k], now)),
        ),
{
    store.retain(|_, e| entry_alive(e, now));
}

/// The in-memory cache of the last event of cache channels: values that expire.
pub struct MemoryCache {
    store: CacheStore,
}

/// The key under which a cache channel's last event is kept: `cache:{app_id}:{channel}`.
pub open spec fn spec_cache_key(app_id: Seq<char>, channel: Seq<char>) -> Seq<char> {
    "cache:"@ + app_id + ":"@ + channel
}

/// The key under which a cache channel's last event is kept.
pub fn cache_key(app_id: &str, channel: &str) -> (r: String)
    ensures
        r@ == spec_cache_key(app_id@, channel@),
{
    let mut s = concat("cache:", app_id);
    append(&mut s, ":");
    append(&mut s, channel);
    s
}

/// Whether an entry (value, expiry) is still alive at `now`.
pub open spec fn alive(e: (Seq<char>, u64), now: u64) -> bool {
    e.1 > now
}

fn entry_alive(e: &CacheEntry, now: u64) -> (r: bool)
    ensures
        r == alive((e.value@, e.expires_at), now),
{
    e.expires_at > now
}

/// What a read of `key` at `now` gives: the value, while its entry is alive.
pub open spec fn lookup(entries: Map<Seq<char>, (Seq<char>, u64)>, key: Seq<char>, now: u64) -> Option<Seq<char>> {
    if entries.contains_key(key) && alive(entries[key], now) {
        Some(entries[key].0)
    } else {
        None
    }
}

/// A read after a write: until the written entry expires, reading its key gives the value
/// written, and from then on nothing; reads of other keys are as before.
pub proof fn law_read_after_write(
    before: Map<Seq<char>, (Seq<char>, u64)>,
    key: Seq<char>,
    value: Seq<char>,
    expires_at: u64,
    other: Seq<char>,
    t: u64,
)
    ensures
        lookup(before.insert(key, (value, expires_at)), key, t) == if t < expires_at { Some(value) } else { None::<Seq<char>> },
        other != key ==> lookup(before.insert(key, (value, expires_at)), other, t) == lookup(before, other, t),
        lookup(before.remove(key), key, t) is None,
{
}

impl MemoryCache {
    /// The entries, alive or not.
    pub closed spec fn entries(&self) -> Map<Seq<char>, (Seq<char>, u64)> {
        stored_entries(self.store)
    }

    pub fn new() -> (r: Self)
        ensures
            r.entries() == Map::<Seq<char>, (Seq<char>, u64)>::empty(),
    {
        let r = MemoryCache { store: store_new() };
        assert(r.entries() =~= Map::<Seq<char>, (Seq<char>, u64)>::empty());
        r
    }

    /// The value of `key` if it has one that is alive at `now`.
    pub fn get(&self, key: &str, now: u64) -> (r: Option<String>)
        ensures
            match r {
                Some(v) => lookup(self.entries(), key@, now) == Some(v@),
                None => lookup(self.entries(), key@, now) is None,
            },
    {
        match store_get(&self.store, key) {
            Some((v, t)) => {
                if t > now {
                    Some(v)
                } else {
                    None
                }
            },
            None => None,
        }
    }

    /// Keeps `value` under `key` for `ttl_secs` seconds from `now`.
    pub fn set(&mut self, key: &str, value: &str, ttl_secs: u64, now: u64)
        requires
            now + ttl_secs * 1000 <= u64::MAX,
        ensures
            final(self).entries() == old(self).entries().insert(key@, (value@, (now + ttl_secs * 1000) as u64)),
    {
        let e = CacheEntry { value: to_string(value), expires_at: now + ttl_secs * 1000 };
        store_insert(&mut self.store, to_string(key), e);
    }

    /// Drops the value of `key`.
    pub fn forget(&mut self, key: &str)
        ensures
            final(self).entries() == old(self).entries().remove(key@),
    {
        store_remove(&mut self.store, key);
    }

    /// Drops the entries that are no longer alive at `now`.
    pub fn remove_expired(&mut self, now: u64)
        ensures
            final(self).entries() == old(self).entries().restrict(
                old(self).entries().dom().filter(|k: Seq<char>| alive(old(self).entries()[k], now)),
            ),
    {
        store_retain_alive(&mut self.store, now);
    }
}

/// A store for the last event of cache channels, with times in milliseconds of a
/// monotonic clock.
pub trait CacheDriver {
    /// The value of `key` if it has one that is alive at `now`.
    fn get(&self, key: &str, now: u64) -> Option<String>;

    /// Keeps `value` under `key` for `ttl_secs` seconds from `now`.
    fn set(&mut self, key: &str, value: &str, ttl_secs: u64, now: u64)
        requires
            now + ttl_secs * 1000 <= u64::MAX,
    ;

    /// Drops the value of `key`.
    fn forget(&mut self, key: &str);
}

impl CacheDriver for MemoryCache {
    fn get(&self, key: &str, now: u64) -> (r: Option<String>)
        ensures
            match r {
                Some(v) => lookup(self.entries(), key@, now) == Some(v@),
                None => lookup(self.entries(), key@, now) is None,
            },
    {
        MemoryCache::get(self, key, now)
    }

    fn set(&mut self, key: &str, value: &str, ttl_secs: u64, now: u64)
        ensures
            final(self).entries() == old(self).entries().insert(key@, (value@, (now + ttl_secs * 1000) as u64)),
    {
        MemoryCache::set(self, key, value, ttl_secs, now)
    }

    fn forget(&mut self, key: &str)
        ensures
            final(self).entries() == old(self).entries().remove(key@),
    {
        MemoryCache::forget(self, key)
    }
}

} // verus!
