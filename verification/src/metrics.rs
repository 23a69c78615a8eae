use vstd::prelude::*;

use dashmap::DashMap;

use crate::protocol::messages::json_members;
use crate::sorted::{sorted_listing, SortedStrMap};
use crate::text::{append, decimal, i64_to_string, push_decimal, signed_decimal, to_string};

verus! {

/// The counters of one app.
#[derive(Debug, Clone, Copy)]
pub struct AppMetrics {
    pub connected: i64,
    pub total_connections: u64,
    pub total_disconnections: u64,
    pub ws_messages_received: u64,
    pub ws_messages_sent: u64,
}

/// The server's counters, in total and per app. The counters wrap around, as atomic
/// counters do.
#[derive(Debug)]
pub struct Metrics {
    pub connected: i64,
    pub total_connections: u64,
    pub total_disconnections: u64,
    pub ws_messages_received: u64,
    pub ws_messages_sent: u64,
    pub ws_bytes_received: u64,
    pub ws_bytes_sent: u64,
    pub http_calls: u64,
    pub http_bytes_received: u64,
    pub http_bytes_sent: u64,
    pub per_app: AppCounters,
}

/// The concurrent map that holds each app's counters.
pub type AppCounters = DashMap<String, AppMetrics>;

/// What a map of app counters holds.
pub uninterp spec fn app_counters(m: AppCounters) -> Map<Seq<char>, AppMetrics>;

/// `DashMap::new`: no app has counters.
#[verifier::external_body]
fn counters_new() -> (r: AppCounters)
    ensures
        app_counters(r).dom() == Set::<Seq<char>>::empty(),
{
    DashMap::new()
}

/// `DashMap::get`: the counters of an app, copied out, when it has some.
#[verifier::external_body]
fn counters_get(m: &AppCounters, app_id: &str) -> (r: Option<AppMetrics>)
    ensures
        match r {
            Some(a) => app_counters(*m).contains_key(app_id@) && app_counters(*m)[app_id@] == a,
            None => !app_counters(*m).contains_key(app_id@),
        },
{
    m.get(app_id).map(|a| *a)
}

/// `DashMap::insert`: the app's counters are now `a`, the others are kept.
#[verifier::external_body]
fn counters_insert(m: &mut AppCounters, app_id: &str, a: AppMetrics)
    ensures
        app_counters(*final(m)) == app_counters(*old(m)).insert(app_id@, a),
{
    m.insert(app_id.to_string(), a);
}

/// `DashMap::iter`: every app with its counters, copied out, once each, in the map's order.
#[verifier::external_body]
fn counters_entries(m: &AppCounters) -> (r: Vec<(String, AppMetrics)>)
    ensures
        forall|i: int| 0 <= i < r@.len() ==> #[trigger] app_counters(*m).contains_key(r@[i].0@)
            && app_counters(*m)[r@[i].0@] == r@[i].1,
        forall|k: Seq<char>| #[trigger] app_counters(*m).contains_key(k) ==> exists|i: int| 0 <= i < r@.len() && r@[i].0@ == k,
        forall|i: int, j: int| 0 <= i < j < r@.len() ==> (#[trigger] r@[i]).0@ != (#[trigger] r@[j]).0@,
{
    m.iter().map(|e| (e.key().clone(), *e.value())).collect()
}

/// All counters at zero.
pub open spec fn zero_app() -> AppMetrics {
    AppMetrics { connected: 0, total_connections: 0, total_disconnections: 0, ws_messages_received: 0, ws_messages_sent: 0 }
}

/// The counters of an app, zero for an app not seen yet.
pub open spec fn app_or_zero(m: Map<Seq<char>, AppMetrics>, app_id: Seq<char>) -> AppMetrics {
    if m.contains_key(app_id) { m[app_id] } else { zero_app() }
}

/// The app counters after a connection of the app opened: one more connected and one more
/// connection, from zero for an app not seen yet.
pub open spec fn connect_app(m: Map<Seq<char>, AppMetrics>, app_id: Seq<char>) -> Map<Seq<char>, AppMetrics> {
    let a = app_or_zero(m, app_id);
    m.insert(app_id, AppMetrics {
        connected: a.connected.wrapping_add(1),
        total_connections: a.total_connections.wrapping_add(1),
        ..a
    })
}

/// The app counters after a connection of the app closed: one less connected and one more
/// disconnection, for an app that has counters.
pub open spec fn disconnect_app(m: Map<Seq<char>, AppMetrics>, app_id: Seq<char>) -> Map<Seq<char>, AppMetrics> {
    if m.contains_key(app_id) {
        let a = m[app_id];
        m.insert(app_id, AppMetrics {
            connected: a.connected.wrapping_sub(1),
            total_disconnections: a.total_disconnections.wrapping_add(1),
            ..a
        })
    } else {
        m
    }
}

/// The JSON text of an app's counters, keys in order.
pub open spec fn app_json(m: AppMetrics) -> Seq<char> {
    "{\"connected\":"@ + signed_decimal(m.connected as int) + ",\"total_connections\":"@ + decimal(
        m.total_connections as nat,
    ) + ",\"total_disconnections\":"@ + decimal(m.total_disconnections as nat) + ",\"ws_messages_received\":"@
        + decimal(m.ws_messages_received as nat) + ",\"ws_messages_sent\":"@ + decimal(m.ws_messages_sent as nat)
        + "}"@
}

impl AppMetrics {
    pub fn new() -> (r: Self)
        ensures
            r == zero_app(),
    {
        AppMetrics { connected: 0, total_connections: 0, total_disconnections: 0, ws_messages_received: 0, ws_messages_sent: 0 }
    }

    /// The counters as a JSON object, keys in order.
    pub fn to_json(&self) -> (r: String)
        ensures
            r@ == app_json(*self),
    {
        let mut s = to_string("{\"connected\":");
        let c = i64_to_string(self.connected);
        append(&mut s, c.as_str());
        append(&mut s, ",\"total_connections\":");
        push_decimal(&mut s, self.total_connections);
        append(&mut s, ",\"total_disconnections\":");
        push_decimal(&mut s, self.total_disconnections);
        append(&mut s, ",\"ws_messages_received\":");
        push_decimal(&mut s, self.ws_messages_received);
        append(&mut s, ",\"ws_messages_sent\":");
        push_decimal(&mut s, self.ws_messages_sent);
        append(&mut s, "}");
        assert(s@ =~= app_json(*self));
        s
    }
}

/// The JSON text of the counters: the apps' objects in key order under `apps`, then the
/// totals, all keys in order.
pub open spec fn metrics_json(m: Metrics) -> Seq<char> {
    "{\"apps\":{"@ + json_members(sorted_listing(m.apps().map_values(|a: AppMetrics| app_json(a)))) + "},\"connected\":"@
        + signed_decimal(m.connected as int) + ",\"http_bytes_received\":"@ + decimal(m.http_bytes_received as nat)
        + ",\"http_bytes_sent\":"@ + decimal(m.http_bytes_sent as nat) + ",\"http_calls\":"@ + decimal(
        m.http_calls as nat,
    ) + ",\"total_connections\":"@ + decimal(m.total_connections as nat) + ",\"total_disconnections\":"@ + decimal(
        m.total_disconnections as nat,
    ) + ",\"ws_bytes_received\":"@ + decimal(m.ws_bytes_received as nat) + ",\"ws_bytes_sent\":"@ + decimal(
        m.ws_bytes_sent as nat,
    ) + ",\"ws_messages_received\":"@ + decimal(m.ws_messages_received as nat) + ",\"ws_messages_sent\":"@ + decimal(
        m.ws_messages_sent as nat,
    ) + "}"@
}

/// The totals of two states are the same.
pub open spec fn same_totals(a: Metrics, b: Metrics) -> bool {
    &&& a.connected == b.connected
    &&& a.total_connections == b.total_connections
    &&& a.total_disconnections == b.total_disconnections
    &&& a.ws_messages_received == b.ws_messages_received
    &&& a.ws_messages_sent == b.ws_messages_sent
    &&& a.ws_bytes_received == b.ws_bytes_received
    &&& a.ws_bytes_sent == b.ws_bytes_sent
    &&& a.http_calls == b.http_calls
    &&& a.http_bytes_received == b.http_bytes_received
    &&& a.http_bytes_sent == b.http_bytes_sent
}

impl Metrics {
    /// The counters of each app.
    pub open spec fn apps(&self) -> Map<Seq<char>, AppMetrics> {
        app_counters(self.per_app)
    }

    pub fn new() -> (r: Self)
        ensures
            r.connected == 0 && r.total_connections == 0 && r.total_disconnections == 0,
            r.ws_messages_received == 0 && r.ws_messages_sent == 0,
            r.ws_bytes_received == 0 && r.ws_bytes_sent == 0,
            r.http_calls == 0 && r.http_bytes_received == 0 && r.http_bytes_sent == 0,
            r.apps() == Map::<Seq<char>, AppMetrics>::empty(),
    {
        let r = Metrics {
            connected: 0,
            total_connections: 0,
            total_disconnections: 0,
            ws_messages_received: 0,
            ws_messages_sent: 0,
            ws_bytes_received: 0,
            ws_bytes_sent: 0,
            http_calls: 0,
            http_bytes_received: 0,
            http_bytes_sent: 0,
            per_app: counters_new(),
        };
        assert(r.apps() =~= Map::<Seq<char>, AppMetrics>::empty());
        r
    }

    /// A connection opened: one more connected and one more connection, in total and for the
    /// app, whose counters start at zero.
    pub fn on_connect(&mut self, app_id: &str)
        ensures
            final(self).connected == old(self).connected.wrapping_add(1),
            final(self).total_connections == old(self).total_connections.wrapping_add(1),
            final(self).apps() == connect_app(old(self).apps(), app_id@),
            final(self).total_disconnections == old(self).total_disconnections,
            final(self).ws_messages_received == old(self).ws_messages_received,
            final(self).ws_messages_sent == old(self).ws_messages_sent,
            final(self).ws_bytes_received == old(self).ws_bytes_received,
            final(self).ws_bytes_sent == old(self).ws_bytes_sent,
            final(self).http_calls == old(self).http_calls,
            final(self).http_bytes_received == old(self).http_bytes_received,
            final(self).http_bytes_sent == old(self).http_bytes_sent,
    {
        self.connected = self.connected.wrapping_add(1);
        self.total_connections = self.total_connections.wrapping_add(1);
        let mut a = match counters_get(&self.per_app, app_id) {
            Some(a) => a,
            None => AppMetrics::new(),
        };
        a.connected = a.connected.wrapping_add(1);
        a.total_connections = a.total_connections.wrapping_add(1);
        counters_insert(&mut self.per_app, app_id, a);
    }

    /// A connection closed: one less connected and one more disconnection, in total and for
    /// the app if it has counters.
    pub fn on_disconnect(&mut self, app_id: &str)
        ensures
            final(self).connected == old(self).connected.wrapping_sub(1),
            final(self).total_disconnections == old(self).total_disconnections.wrapping_add(1),
            final(self).apps() == disconnect_app(old(self).apps(), app_id@),
            final(self).total_connections == old(self).total_connections,
            final(self).ws_messages_received == old(self).ws_messages_received,
            final(self).ws_messages_sent == old(self).ws_messages_sent,
            final(self).ws_bytes_received == old(self).ws_bytes_received,
            final(self).ws_bytes_sent == old(self).ws_bytes_sent,
            final(self).http_calls == old(self).http_calls,
            final(self).http_bytes_received == old(self).http_bytes_received,
            final(self).http_bytes_sent == old(self).http_bytes_sent,
    {
        self.connected = self.connected.wrapping_sub(1);
        self.total_disconnections = self.total_disconnections.wrapping_add(1);
        match counters_get(&self.per_app, app_id) {
            Some(mut a) => {
                a.connected = a.connected.wrapping_sub(1);
                a.total_disconnections = a.total_disconnections.wrapping_add(1);
                counters_insert(&mut self.per_app, app_id, a);
            },
            None => {},
        }
    }

    /// A WebSocket message of `bytes` bytes came in.
    pub fn on_ws_message_received(&mut self, app_id: &str, bytes: u64)
        ensures
            final(self).ws_messages_received == old(self).ws_messages_received.wrapping_add(1),
            final(self).ws_bytes_received == old(self).ws_bytes_received.wrapping_add(bytes),
            final(self).apps() == (if old(self).apps().contains_key(app_id@) {
                let a = old(self).apps()[app_id@];
                old(self).apps().insert(app_id@, AppMetrics { ws_messages_received: a.ws_messages_received.wrapping_add(1), ..a })
            } else {
                old(self).apps()
            }),
            final(self).connected == old(self).connected,
            final(self).total_connections == old(self).total_connections,
            final(self).total_disconnections == old(self).total_disconnections,
            final(self).ws_messages_sent == old(self).ws_messages_sent,
            final(self).ws_bytes_sent == old(self).ws_bytes_sent,
            final(self).http_calls == old(self).http_calls,
            final(self).http_bytes_received == old(self).http_bytes_received,
            final(self).http_bytes_sent == old(self).http_bytes_sent,
    {
        self.ws_messages_received = self.ws_messages_received.wrapping_add(1);
        self.ws_bytes_received = self.ws_bytes_received.wrapping_add(bytes);
        match counters_get(&self.per_app, app_id) {
            Some(mut a) => {
                a.ws_messages_received = a.ws_messages_received.wrapping_add(1);
                counters_insert(&mut self.per_app, app_id, a);
            },
            None => {},
        }
    }

    /// A WebSocket message of `bytes` bytes went out.
    pub fn on_ws_message_sent(&mut self, app_id: &str, bytes: u64)
        ensures
            final(self).ws_messages_sent == old(self).ws_messages_sent.wrapping_add(1),
            final(self).ws_bytes_sent == old(self).ws_bytes_sent.wrapping_add(bytes),
            final(self).apps() == (if old(self).apps().contains_key(app_id@) {
                let a = old(self).apps()[app_id@];
                old(self).apps().insert(app_id@, AppMetrics { ws_messages_sent: a.ws_messages_sent.wrapping_add(1), ..a })
            } else {
                old(self).apps()
            }),
            final(self).connected == old(self).connected,
            final(self).total_connections == old(self).total_connections,
            final(self).total_disconnections == old(self).total_disconnections,
            final(self).ws_messages_received == old(self).ws_messages_received,
            final(self).ws_bytes_received == old(self).ws_bytes_received,
            final(self).http_calls == old(self).http_calls,
            final(self).http_bytes_received == old(self).http_bytes_received,
            final(self).http_bytes_sent == old(self).http_bytes_sent,
    {
        self.ws_messages_sent = self.ws_messages_sent.wrapping_add(1);
        self.ws_bytes_sent = self.ws_bytes_sent.wrapping_add(bytes);
        match counters_get(&self.per_app, app_id) {
            Some(mut a) => {
                a.ws_messages_sent = a.ws_messages_sent.wrapping_add(1);
                counters_insert(&mut self.per_app, app_id, a);
            },
            None => {},
        }
    }

    /// An HTTP API call with its bytes in and out.
    pub fn on_http_call(&mut self, bytes_in: u64, bytes_out: u64)
        ensures
            final(self).http_calls == old(self).http_calls.wrapping_add(1),
            final(self).http_bytes_received == old(self).http_bytes_received.wrapping_add(bytes_in),
            final(self).http_bytes_sent == old(self).http_bytes_sent.wrapping_add(bytes_out),
            final(self).per_app == old(self).per_app,
            final(self).connected == old(self).connected,
            final(self).total_connections == old(self).total_connections,
            final(self).total_disconnections == old(self).total_disconnections,
            final(self).ws_messages_received == old(self).ws_messages_received,
            final(self).ws_messages_sent == old(self).ws_messages_sent,
            final(self).ws_bytes_received == old(self).ws_bytes_received,
            final(self).ws_bytes_sent == old(self).ws_bytes_sent,
    {
        self.http_calls = self.http_calls.wrapping_add(1);
        self.http_bytes_received = self.http_bytes_received.wrapping_add(bytes_in);
        self.http_bytes_sent = self.http_bytes_sent.wrapping_add(bytes_out);
    }

    /// The number of connections of an app, zero for an app not seen.
    /// The counters of an app, when it has some.
    pub fn app_metrics(&self, app_id: &str) -> (r: Option<AppMetrics>)
        ensures
            r == (if self.apps().contains_key(app_id@) { Some(self.apps()[app_id@]) } else { None::<AppMetrics> }),
    {
        counters_get(&self.per_app, app_id)
    }

    pub fn get_connected_for_app(&self, app_id: &str) -> (r: i64)
        ensures
            r == app_or_zero(self.apps(), app_id@).connected,
    {
        match counters_get(&self.per_app, app_id) {
            Some(a) => a.connected,
            None => 0,
        }
    }

    /// The counters as a JSON object.
    pub fn to_json(&self) -> (r: String)
        ensures
            r@ == metrics_json(*self),
    {
        let ghost target = self.apps().map_values(|a: AppMetrics| app_json(a));
        let entries = counters_entries(&self.per_app);
        let ghost ks = entries@.map_values(|e: (String, AppMetrics)| e.0@);
        let mut apps = SortedStrMap::new();
        let n = entries.len();
        let mut i: usize = 0;
        while i < n
            invariant
                n == entries@.len(),
                ks == entries@.map_values(|e: (String, AppMetrics)| e.0@),
                forall|j: int| 0 <= j < n ==> #[trigger] app_counters(self.per_app).contains_key(entries@[j].0@)
                    && app_counters(self.per_app)[entries@[j].0@] == entries@[j].1,
                forall|a: int, b: int| 0 <= a < b < n ==> (#[trigger] entries@[a]).0@ != (#[trigger] entries@[b]).0@,
                i <= n,
                apps.wf(),
                apps@ == Map::new(|k: Seq<char>| ks.take(i as int).contains(k), |k: Seq<char>| app_json(self.apps()[k])),
            decreases n - i,
        {
            let k = &entries[i].0;
            let text = entries[i].1.to_json();
            let ghost before = apps@;
            apps.insert(k.clone(), text);
            proof {
                assert(ks[i as int] == k@);
                assert(app_counters(self.per_app).contains_key(entries@[i as int].0@));
                assert(text@ == app_json(self.apps()[ks[i as int]]));
                assert forall|x: Seq<char>| ks.take(i + 1).contains(x) == (ks.take(i as int).contains(x) || x == ks[i as int]) by {
                    if ks.take(i + 1).contains(x) {
                        let j = choose|j: int| 0 <= j < i + 1 && #[trigger] ks.take(i + 1)[j] == x;
                        if j < i {
                            assert(ks.take(i as int)[j] == x);
                        }
                    }
                    if ks.take(i as int).contains(x) {
                        let j = choose|j: int| 0 <= j < i && #[trigger] ks.take(i as int)[j] == x;
                        assert(ks.take(i + 1)[j] == x);
                    }
                    if x == ks[i as int] {
                        assert(ks.take(i + 1)[i as int] == x);
                    }
                }
                let next = Map::new(|k: Seq<char>| ks.take(i + 1).contains(k), |k: Seq<char>| app_json(self.apps()[k]));
                assert forall|x: Seq<char>| #[trigger] apps@.contains_key(x) == next.contains_key(x) by {
                    assert(before.contains_key(x) == ks.take(i as int).contains(x));
                }
                assert forall|x: Seq<char>| #[trigger] apps@.contains_key(x) implies apps@[x] == next[x] by {
                    if x != ks[i as int] {
                        assert(before.contains_key(x));
                    }
                }
                assert(apps@ =~= next);
            }
            i = i + 1;
        }
        proof {
            assert(ks.take(n as int) =~= ks);
            assert forall|x: Seq<char>| #[trigger] self.apps().contains_key(x) == ks.contains(x) by {
                if self.apps().contains_key(x) {
                    let j = choose|j: int| 0 <= j < entries@.len() && entries@[j].0@ == x;
                    assert(ks[j] == x);
                }
                if ks.contains(x) {
                    let j = choose|j: int| 0 <= j < ks.len() && #[trigger] ks[j] == x;
                    assert(app_counters(self.per_app).contains_key(entries@[j].0@));
                }
            }
            assert(apps@ =~= target);
            apps.lemma_sorted_listing();
        }
        let apps_text = crate::protocol::messages::json_object_text(&apps);
        let mut s = to_string("{\"apps\":");
        append(&mut s, apps_text.as_str());
        append(&mut s, ",\"connected\":");
        let c = i64_to_string(self.connected);
        append(&mut s, c.as_str());
        append(&mut s, ",\"http_bytes_received\":");
        push_decimal(&mut s, self.http_bytes_received);
        append(&mut s, ",\"http_bytes_sent\":");
        push_decimal(&mut s, self.http_bytes_sent);
        append(&mut s, ",\"http_calls\":");
        push_decimal(&mut s, self.http_calls);
        append(&mut s, ",\"total_connections\":");
        push_decimal(&mut s, self.total_connections);
        append(&mut s, ",\"total_disconnections\":");
        push_decimal(&mut s, self.total_disconnections);
        append(&mut s, ",\"ws_bytes_received\":");
        push_decimal(&mut s, self.ws_bytes_received);
        append(&mut s, ",\"ws_bytes_sent\":");
        push_decimal(&mut s, self.ws_bytes_sent);
        append(&mut s, ",\"ws_messages_received\":");
        push_decimal(&mut s, self.ws_messages_received);
        append(&mut s, ",\"ws_messages_sent\":");
        push_decimal(&mut s, self.ws_messages_sent);
        append(&mut s, "}");
        proof {
            reveal_strlit("{\"apps\":");
            reveal_strlit("{\"apps\":{");
            reveal_strlit("{");
            reveal_strlit("}");
            reveal_strlit("},\"connected\":");
            reveal_strlit(",\"connected\":");
            assert("{\"apps\":"@ + ("{"@ + json_members(apps.entries()) + "}"@) + ",\"connected\":"@
                =~= "{\"apps\":{"@ + json_members(apps.entries()) + "},\"connected\":"@);
        }
        assert(s@ =~= metrics_json(*self));
        s
    }
}


/// A connection that opens and then closes leaves the number of connected sockets as it
/// was, in total and for its app (wrap-around included), counts one connection and one
/// disconnection more for the app, and leaves every other app's counters as they were.
pub proof fn law_connect_disconnect_balance(
    apps: Map<Seq<char>, AppMetrics>,
    app_id: Seq<char>,
    other: Seq<char>,
    connected: i64,
)
    requires
        other != app_id,
    ensures
        connected.wrapping_add(1).wrapping_sub(1) == connected,
        ({
            let after = disconnect_app(connect_app(apps, app_id), app_id);
            &&& after.contains_key(app_id)
            &&& after[app_id].connected == app_or_zero(apps, app_id).connected
            &&& after[app_id].total_connections == app_or_zero(apps, app_id).total_connections.wrapping_add(1)
            &&& after[app_id].total_disconnections == app_or_zero(apps, app_id).total_disconnections.wrapping_add(1)
            &&& after[app_id].ws_messages_received == app_or_zero(apps, app_id).ws_messages_received
            &&& after[app_id].ws_messages_sent == app_or_zero(apps, app_id).ws_messages_sent
            &&& app_or_zero(after, other) == app_or_zero(apps, other)
        }),
{
    let a = app_or_zero(apps, app_id);
    assert(a.connected.wrapping_add(1).wrapping_sub(1) == a.connected);
}

} // verus!
