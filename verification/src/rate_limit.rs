use vstd::prelude::*;

use std::num::NonZeroU32;
use std::sync::Arc;

use dashmap::DashMap;
use governor::{DefaultDirectRateLimiter, Quota, RateLimiter};

verus! {

/// A `DashMap` from keys to governor rate limiters, each created with a per-second quota.
#[verifier::external_body]
pub struct LimiterMap {
    map: DashMap<String, Arc<DefaultDirectRateLimiter>>,
}

/// The keys that have a limiter.
pub uninterp spec fn limiter_keys(m: LimiterMap) -> Set<Seq<char>>;

/// The per-second quota that each key's limiter was built with.
pub uninterp spec fn limiter_quotas(m: LimiterMap) -> Map<Seq<char>, u32>;

/// `DashMap::new`: a map without limiters.
#[verifier::external_body]
fn limiters_new() -> (r: LimiterMap)
    ensures
        limiter_keys(r) == Set::<Seq<char>>::empty(),
        limiter_quotas(r).dom() == Set::<Seq<char>>::empty(),
{
    LimiterMap { map: DashMap::new() }
}

/// A limiter built by `RateLimiter::direct` from `Quota::per_second(per_second)`, checked
/// once with `RateLimiter::check`, then stored under a key that had none with
/// `DashMap::insert`. The check of a limiter that has seen no cell conforms whatever the
/// time: its state is empty, so the cell's arrival time is its theoretical arrival time.
#[verifier::external_body]
fn limiters_add_checked(m: &mut LimiterMap, key: &str, per_second: u32) -> (r: bool)
    requires
        per_second > 0,
        !limiter_keys(*old(m)).contains(key@),
    ensures
        limiter_keys(*final(m)) == limiter_keys(*old(m)).insert(key@),
        limiter_quotas(*final(m)) == limiter_quotas(*old(m)).insert(key@, per_second),
        r,
{
    let limiter = Arc::new(RateLimiter::direct(Quota::per_second(NonZeroU32::new(per_second).unwrap())));
    let r = limiter.check().is_ok();
    m.map.insert(key.to_string(), limiter);
    r
}

/// `DashMap::contains_key`.
#[verifier::external_body]
fn limiters_contains(m: &LimiterMap, key: &str) -> (r: bool)
    ensures
        r == limiter_keys(*m).contains(key@),
{
    m.map.contains_key(key)
}

/// `RateLimiter::check` on the key's limiter: whether a cell may pass now. The answer
/// depends on the time and on the earlier cells, so nothing is stated of it.
#[verifier::external_body]
fn limiters_check(m: &LimiterMap, key: &str) -> bool
    requires
        limiter_keys(*m).contains(key@),
{
    m.map.get(key).unwrap().check().is_ok()
}

/// `DashMap::remove`.
#[verifier::external_body]
fn limiters_remove(m: &mut LimiterMap, key: &str)
    ensures
        limiter_keys(*final(m)) == limiter_keys(*old(m)).remove(key@),
        limiter_quotas(*final(m)) == limiter_quotas(*old(m)).remove(key@),
{
    m.map.remove(key);
}

/// The quota that a configured limit of `max_per_sec` gives: its low 32 bits.
pub open spec fn quota_of(max_per_sec: i64) -> int {
    (max_per_sec as int) % 0x1_0000_0000
}

/// The quotas of one family of limiters after a check of `key` under `max_per_sec`: a
/// limited check of a key without a limiter builds one with the quota of the limit.
pub open spec fn quotas_after_check(
    before: Map<Seq<char>, u32>,
    keys: Set<Seq<char>>,
    key: Seq<char>,
    max_per_sec: i64,
) -> Map<Seq<char>, u32> {
    if max_per_sec <= 0 || keys.contains(key) { before } else { before.insert(key, quota_of(max_per_sec) as u32) }
}

/// The keys of one family of limiters after a check of `key` under `max_per_sec`: an
/// unlimited check adds none, a limited one adds the key's limiter if it was missing.
pub open spec fn keys_after_check(before: Set<Seq<char>>, key: Seq<char>, max_per_sec: i64) -> Set<Seq<char>> {
    if max_per_sec <= 0 { before } else { before.insert(key) }
}

/// Rate limiters per app for backend events and read requests, and per socket for client
/// events. A limit of zero or less means unlimited.
pub struct LocalRateLimiter {
    backend_limiters: LimiterMap,
    client_limiters: LimiterMap,
    read_limiters: LimiterMap,
}

/// Checks a cell against the limiter of `key`, creating it on first use.
fn check_in(map: &mut LimiterMap, key: &str, max_per_sec: i64) -> (r: bool)
    requires
        max_per_sec > 0 && !limiter_keys(*old(map)).contains(key@) ==> quota_of(max_per_sec) != 0,
    ensures
        limiter_keys(*final(map)) == keys_after_check(limiter_keys(*old(map)), key@, max_per_sec),
        limiter_quotas(*final(map)) == quotas_after_check(limiter_quotas(*old(map)), limiter_keys(*old(map)), key@, max_per_sec),
        max_per_sec <= 0 ==> r,
        max_per_sec > 0 && !limiter_keys(*old(map)).contains(key@) ==> r,
{
    if max_per_sec <= 0 {
        return true;
    }
    if !limiters_contains(map, key) {
        let quota: u32 = (max_per_sec % 0x1_0000_0000) as u32;
        assert(quota == quota_of(max_per_sec) as u32);
        limiters_add_checked(map, key, quota)
    } else {
        assert(limiter_keys(*map).insert(key@) =~= limiter_keys(*map));
        limiters_check(map, key)
    }
}

impl LocalRateLimiter {
    pub closed spec fn backend(&self) -> Set<Seq<char>> {
        limiter_keys(self.backend_limiters)
    }

    pub closed spec fn client(&self) -> Set<Seq<char>> {
        limiter_keys(self.client_limiters)
    }

    pub closed spec fn read(&self) -> Set<Seq<char>> {
        limiter_keys(self.read_limiters)
    }

    /// The quota of each backend-event limiter.
    pub closed spec fn backend_quotas(&self) -> Map<Seq<char>, u32> {
        limiter_quotas(self.backend_limiters)
    }

    /// The quota of each client-event limiter.
    pub closed spec fn client_quotas(&self) -> Map<Seq<char>, u32> {
        limiter_quotas(self.client_limiters)
    }

    /// The quota of each read-request limiter.
    pub closed spec fn read_quotas(&self) -> Map<Seq<char>, u32> {
        limiter_quotas(self.read_limiters)
    }

    pub fn new() -> (r: Self)
        ensures
            r.backend() == Set::<Seq<char>>::empty(),
            r.client() == Set::<Seq<char>>::empty(),
            r.read() == Set::<Seq<char>>::empty(),
            r.backend_quotas().dom() == Set::<Seq<char>>::empty(),
            r.client_quotas().dom() == Set::<Seq<char>>::empty(),
            r.read_quotas().dom() == Set::<Seq<char>>::empty(),
    {
        LocalRateLimiter { backend_limiters: limiters_new(), client_limiters: limiters_new(), read_limiters: limiters_new() }
    }

    /// Whether a backend event of an app may pass.
    pub fn check_backend_event(&mut self, app_id: &str, max_per_sec: i64) -> (r: bool)
        requires
            max_per_sec > 0 && !old(self).backend().contains(app_id@) ==> quota_of(max_per_sec) != 0,
        ensures
            final(self).backend() == keys_after_check(old(self).backend(), app_id@, max_per_sec),
            final(self).backend_quotas() == quotas_after_check(old(self).backend_quotas(), old(self).backend(), app_id@, max_per_sec),
            final(self).client_quotas() == old(self).client_quotas(),
            final(self).read_quotas() == old(self).read_quotas(),
            max_per_sec > 0 && !old(self).backend().contains(app_id@) ==> r,
            final(self).client() == old(self).client(),
            final(self).read() == old(self).read(),
            max_per_sec <= 0 ==> r,
    {
        check_in(&mut self.backend_limiters, app_id, max_per_sec)
    }

    /// Whether a client event of a socket may pass.
    pub fn check_client_event(&mut self, socket_id: &str, max_per_sec: i64) -> (r: bool)
        requires
            max_per_sec > 0 && !old(self).client().contains(socket_id@) ==> quota_of(max_per_sec) != 0,
        ensures
            final(self).client() == keys_after_check(old(self).client(), socket_id@, max_per_sec),
            final(self).client_quotas() == quotas_after_check(old(self).client_quotas(), old(self).client(), socket_id@, max_per_sec),
            final(self).backend_quotas() == old(self).backend_quotas(),
            final(self).read_quotas() == old(self).read_quotas(),
            max_per_sec > 0 && !old(self).client().contains(socket_id@) ==> r,
            final(self).backend() == old(self).backend(),
            final(self).read() == old(self).read(),
            max_per_sec <= 0 ==> r,
    {
        check_in(&mut self.client_limiters, socket_id, max_per_sec)
    }

    /// Whether a read request of an app may pass.
    pub fn check_read_request(&mut self, app_id: &str, max_per_sec: i64) -> (r: bool)
        requires
            max_per_sec > 0 && !old(self).read().contains(app_id@) ==> quota_of(max_per_sec) != 0,
        ensures
            final(self).read() == keys_after_check(old(self).read(), app_id@, max_per_sec),
            final(self).read_quotas() == quotas_after_check(old(self).read_quotas(), old(self).read(), app_id@, max_per_sec),
            final(self).backend_quotas() == old(self).backend_quotas(),
            final(self).client_quotas() == old(self).client_quotas(),
            max_per_sec > 0 && !old(self).read().contains(app_id@) ==> r,
            final(self).backend() == old(self).backend(),
            final(self).client() == old(self).client(),
            max_per_sec <= 0 ==> r,
    {
        check_in(&mut self.read_limiters, app_id, max_per_sec)
    }

    /// Drops the client-event limiter of a disconnected socket.
    pub fn remove_socket(&mut self, socket_id: &str)
        ensures
            final(self).client() == old(self).client().remove(socket_id@),
            final(self).client_quotas() == old(self).client_quotas().remove(socket_id@),
            final(self).backend_quotas() == old(self).backend_quotas(),
            final(self).read_quotas() == old(self).read_quotas(),
            final(self).backend() == old(self).backend(),
            final(self).read() == old(self).read(),
    {
        limiters_remove(&mut self.client_limiters, socket_id);
    }

    /// Whether a socket has a client-event limiter.
    pub fn has_client_limiter(&self, socket_id: &str) -> (r: bool)
        ensures
            r == self.client().contains(socket_id@),
    {
        limiters_contains(&self.client_limiters, socket_id)
    }
}

} // verus!
