use vstd::prelude::*;

use crate::json::{json_str, push_json_str};
use crate::metrics::{AppMetrics, Metrics};
use crate::protocol::messages::{json_members, json_object_text};
use crate::sorted::{list_map, sorted_listing, SortedStrMap};
use crate::text::{append, decimal, i64_to_string, push_decimal, signed_decimal, to_string};

verus! {

/// What the adapter reports live of one configured app.
pub struct AppLive {
    pub id: String,
    pub channels: usize,
    pub connections: usize,
}

/// The JSON literal of a boolean.
pub open spec fn bool_text(b: bool) -> Seq<char> {
    if b { "true"@ } else { "false"@ }
}

/// An app's entry in the report: the app's counters (none for an app without counters),
/// with its live channel and connection counts added, keys in order.
pub open spec fn app_entry_json(metrics: Option<AppMetrics>, channels: usize, connections: usize) -> Seq<char> {
    match metrics {
        Some(a) => "{\"channels\":"@ + decimal(channels as nat) + ",\"connected\":"@ + signed_decimal(a.connected as int)
            + ",\"live_connections\":"@ + decimal(connections as nat) + ",\"total_connections\":"@ + decimal(
            a.total_connections as nat,
        ) + ",\"total_disconnections\":"@ + decimal(a.total_disconnections as nat) + ",\"ws_messages_received\":"@
            + decimal(a.ws_messages_received as nat) + ",\"ws_messages_sent\":"@ + decimal(a.ws_messages_sent as nat)
            + "}"@,
        None => "{\"channels\":"@ + decimal(channels as nat) + ",\"live_connections\":"@ + decimal(connections as nat)
            + "}"@,
    }
}

/// The counters of an app, if it has some.
pub open spec fn counters_of(counters: Map<Seq<char>, AppMetrics>, id: Seq<char>) -> Option<AppMetrics> {
    if counters.contains_key(id) { Some(counters[id]) } else { None }
}

/// Each app's id with its entry, in the order of the apps.
pub open spec fn live_pairs(apps: Seq<AppLive>, counters: Map<Seq<char>, AppMetrics>) -> Seq<(Seq<char>, Seq<char>)> {
    apps.map_values(|a: AppLive| (a.id@, app_entry_json(counters_of(counters, a.id@), a.channels, a.connections)))
}

/// The sum of the apps' channel counts.
pub open spec fn channels_total(apps: Seq<AppLive>) -> nat
    decreases apps.len(),
{
    if apps.len() == 0 {
        0
    } else {
        channels_total(apps.drop_last()) + apps.last().channels as nat
    }
}

/// The stats report: server facts, the counters, the total of the apps' channels, the
/// network totals (WebSocket plus HTTP bytes), the process and system sections as given,
/// and each app's entry under its id (a later app of the same id wins), every object's keys
/// in increasing order.
pub open spec fn spec_stats_report(
    version: Seq<char>,
    uptime_secs: u64,
    adapter: Seq<char>,
    mode: Seq<char>,
    closing: bool,
    m: Metrics,
    apps: Seq<AppLive>,
    process_json: Seq<char>,
    system_json: Seq<char>,
) -> Seq<char> {
    "{\"apps\":"@ + ("{"@ + json_members(sorted_listing(list_map(live_pairs(apps, m.apps())))) + "}"@)
        + ",\"channels\":{\"total\":"@ + decimal(channels_total(apps))
        + "},\"connections\":{\"current\":"@ + signed_decimal(m.connected as int)
        + ",\"total\":"@ + decimal(m.total_connections as nat)
        + ",\"total_disconnections\":"@ + decimal(m.total_disconnections as nat)
        + "},\"messages\":{\"http_calls\":"@ + decimal(m.http_calls as nat)
        + ",\"ws_received\":"@ + decimal(m.ws_messages_received as nat)
        + ",\"ws_sent\":"@ + decimal(m.ws_messages_sent as nat)
        + "},\"network\":{\"http_bytes_received\":"@ + decimal(m.http_bytes_received as nat)
        + ",\"http_bytes_sent\":"@ + decimal(m.http_bytes_sent as nat)
        + ",\"total_bytes_in\":"@ + decimal((m.ws_bytes_received + m.http_bytes_received) as nat)
        + ",\"total_bytes_out\":"@ + decimal((m.ws_bytes_sent + m.http_bytes_sent) as nat)
        + ",\"ws_bytes_received\":"@ + decimal(m.ws_bytes_received as nat)
        + ",\"ws_bytes_sent\":"@ + decimal(m.ws_bytes_sent as nat)
        + "},\"process\":"@ + process_json
        + ",\"server\":{\"adapter\":"@ + json_str(adapter)
        + ",\"closing\":"@ + bool_text(closing)
        + ",\"mode\":"@ + json_str(mode)
        + ",\"uptime_seconds\":"@ + decimal(uptime_secs as nat)
        + ",\"version\":"@ + json_str(version)
        + "},\"system\":"@ + system_json
        + "}"@
}

/// The channel total of a prefix is at most that of the whole list.
proof fn lemma_total_prefix(apps: Seq<AppLive>, i: int)
    requires
        0 <= i <= apps.len(),
    ensures
        channels_total(apps.take(i)) <= channels_total(apps),
    decreases apps.len() - i,
{
    if i < apps.len() {
        lemma_total_prefix(apps, i + 1);
        assert(apps.take(i + 1).drop_last() =~= apps.take(i));
    } else {
        assert(apps.take(i) =~= apps);
    }
}

/// An app's entry of the report.
fn app_entry(metrics: Option<AppMetrics>, channels: usize, connections: usize) -> (r: String)
    ensures
        r@ == app_entry_json(metrics, channels, connections),
{
    let mut s = to_string("{\"channels\":");
    push_decimal(&mut s, channels as u64);
    match metrics {
        Some(a) => {
            append(&mut s, ",\"connected\":");
            let c = i64_to_string(a.connected);
            append(&mut s, c.as_str());
            append(&mut s, ",\"live_connections\":");
            push_decimal(&mut s, connections as u64);
            append(&mut s, ",\"total_connections\":");
            push_decimal(&mut s, a.total_connections);
            append(&mut s, ",\"total_disconnections\":");
            push_decimal(&mut s, a.total_disconnections);
            append(&mut s, ",\"ws_messages_received\":");
            push_decimal(&mut s, a.ws_messages_received);
            append(&mut s, ",\"ws_messages_sent\":");
            push_decimal(&mut s, a.ws_messages_sent);
            append(&mut s, "}");
        },
        None => {
            append(&mut s, ",\"live_connections\":");
            push_decimal(&mut s, connections as u64);
            append(&mut s, "}");
        },
    }
    assert(s@ =~= app_entry_json(metrics, channels, connections));
    s
}

/// The stats report of the metrics listener, from the server's facts, the counters, what
/// the adapter reports of each configured app, and the process and system sections as
/// JSON texts.
pub fn stats_report(
    version: &str,
    uptime_secs: u64,
    adapter: &str,
    mode: &str,
    closing: bool,
    m: &Metrics,
    apps: &Vec<AppLive>,
    process_json: &str,
    system_json: &str,
) -> (r: String)
    requires
        channels_total(apps@) <= usize::MAX,
        m.ws_bytes_received + m.http_bytes_received <= u64::MAX,
        m.ws_bytes_sent + m.http_bytes_sent <= u64::MAX,
    ensures
        r@ == spec_stats_report(version@, uptime_secs, adapter@, mode@, closing, *m, apps@, process_json@, system_json@),
{
    let ghost counters = m.apps();
    let mut entries = SortedStrMap::new();
    let mut total: usize = 0;
    let n = apps.len();
    let mut i: usize = 0;
    assert(live_pairs(apps@, counters).take(0) =~= Seq::<(Seq<char>, Seq<char>)>::empty());
    assert(apps@.take(0) =~= Seq::<AppLive>::empty());
    while i < n
        invariant
            n == apps@.len(),
            i <= n,
            counters == m.apps(),
            channels_total(apps@) <= usize::MAX,
            total == channels_total(apps@.take(i as int)),
            entries.wf(),
            entries@ == list_map(live_pairs(apps@, counters).take(i as int)),
        decreases n - i,
    {
        let app = &apps[i];
        proof {
            lemma_total_prefix(apps@, i + 1);
            assert(apps@.take(i + 1).drop_last() =~= apps@.take(i as int));
        }
        total = total + app.channels;
        let metrics = m.app_metrics(app.id.as_str());
        let text = app_entry(metrics, app.channels, app.connections);
        entries.insert(app.id.clone(), text);
        proof {
            assert(live_pairs(apps@, counters).take(i + 1).drop_last() =~= live_pairs(apps@, counters).take(i as int));
            assert(live_pairs(apps@, counters)[i as int] == (app.id@, text@));
        }
        i = i + 1;
    }
    proof {
        assert(apps@.take(n as int) =~= apps@);
        assert(live_pairs(apps@, counters).take(n as int) =~= live_pairs(apps@, counters));
        entries.lemma_sorted_listing();
    }
    let apps_text = json_object_text(&entries);
    let mut s = to_string("{\"apps\":");
    append(&mut s, apps_text.as_str());
    append(&mut s, ",\"channels\":{\"total\":");
    push_decimal(&mut s, total as u64);
    append(&mut s, "},\"connections\":{\"current\":");
    let c = i64_to_string(m.connected);
    append(&mut s, c.as_str());
    append(&mut s, ",\"total\":");
    push_decimal(&mut s, m.total_connections);
    append(&mut s, ",\"total_disconnections\":");
    push_decimal(&mut s, m.total_disconnections);
    append(&mut s, "},\"messages\":{\"http_calls\":");
    push_decimal(&mut s, m.http_calls);
    append(&mut s, ",\"ws_received\":");
    push_decimal(&mut s, m.ws_messages_received);
    append(&mut s, ",\"ws_sent\":");
    push_decimal(&mut s, m.ws_messages_sent);
    append(&mut s, "},\"network\":{\"http_bytes_received\":");
    push_decimal(&mut s, m.http_bytes_received);
    append(&mut s, ",\"http_bytes_sent\":");
    push_decimal(&mut s, m.http_bytes_sent);
    append(&mut s, ",\"total_bytes_in\":");
    push_decimal(&mut s, m.ws_bytes_received + m.http_bytes_received);
    append(&mut s, ",\"total_bytes_out\":");
    push_decimal(&mut s, m.ws_bytes_sent + m.http_bytes_sent);
    append(&mut s, ",\"ws_bytes_received\":");
    push_decimal(&mut s, m.ws_bytes_received);
    append(&mut s, ",\"ws_bytes_sent\":");
    push_decimal(&mut s, m.ws_bytes_sent);
    append(&mut s, "},\"process\":");
    append(&mut s, process_json);
    append(&mut s, ",\"server\":{\"adapter\":");
    push_json_str(&mut s, adapter);
    append(&mut s, ",\"closing\":");
    if closing {
        append(&mut s, "true");
    } else {
        append(&mut s, "false");
    }
    append(&mut s, ",\"mode\":");
    push_json_str(&mut s, mode);
    append(&mut s, ",\"uptime_seconds\":");
    push_decimal(&mut s, uptime_secs);
    append(&mut s, ",\"version\":");
    push_json_str(&mut s, version);
    append(&mut s, "},\"system\":");
    append(&mut s, system_json);
    append(&mut s, "}");
    assert(s@ =~= spec_stats_report(version@, uptime_secs, adapter@, mode@, closing, *m, apps@, process_json@, system_json@));
    s
}

} // verus!
