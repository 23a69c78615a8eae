use vstd::prelude::*;

use crate::config::{limit_to_usize, spec_limit_to_usize, AppConfig};
use crate::text::str_eq;

verus! {

/// A registered application, with its limits in the form the server checks them.
#[derive(Debug, Clone)]
pub struct App {
    pub id: String,
    pub key: String,
    pub secret: String,
    pub enabled: bool,
    pub client_event_mode: String,
    pub enable_user_authentication: bool,
    pub max_connections: i64,
    pub max_backend_events_per_sec: i64,
    pub max_client_events_per_sec: i64,
    pub max_read_req_per_sec: i64,
    pub max_presence_members_per_channel: usize,
    pub max_presence_member_size_in_kb: usize,
    pub max_channel_name_length: usize,
    pub max_event_channels_at_once: usize,
    pub max_event_name_length: usize,
    pub max_event_payload_in_kb: usize,
    pub max_event_batch_size: usize,
    pub enable_cache_channels: bool,
    pub allowed_origins: Vec<String>,
    pub max_message_size_in_kb: usize,
    pub webhook_url: Option<String>,
    pub webhook_batch_ms: u64,
    pub enable_subscription_count_webhook: bool,
}

/// The app that a configuration entry describes: every field is kept, and the three limits
/// given as signed numbers become sizes, a negative one meaning unlimited.
pub open spec fn spec_app_from_config(c: AppConfig) -> App {
    App {
        id: c.id,
        key: c.key,
        secret: c.secret,
        enabled: c.enabled,
        client_event_mode: c.client_event_mode,
        enable_user_authentication: c.enable_user_authentication,
        max_connections: c.max_connections,
        max_backend_events_per_sec: c.max_backend_events_per_sec,
        max_client_events_per_sec: c.max_client_events_per_sec,
        max_read_req_per_sec: c.max_read_req_per_sec,
        max_presence_members_per_channel: spec_limit_to_usize(c.max_presence_members_per_channel),
        max_presence_member_size_in_kb: c.max_presence_member_size_in_kb,
        max_channel_name_length: c.max_channel_name_length,
        max_event_channels_at_once: spec_limit_to_usize(c.max_event_channels_at_once),
        max_event_name_length: c.max_event_name_length,
        max_event_payload_in_kb: c.max_event_payload_in_kb,
        max_event_batch_size: spec_limit_to_usize(c.max_event_batch_size),
        enable_cache_channels: c.enable_cache_channels,
        allowed_origins: c.allowed_origins,
        max_message_size_in_kb: c.max_message_size_in_kb,
        webhook_url: c.webhook_url,
        webhook_batch_ms: c.webhook_batch_ms,
        enable_subscription_count_webhook: c.enable_subscription_count_webhook,
    }
}

impl From<AppConfig> for App {
    fn from(c: AppConfig) -> (r: Self) {
        let max_presence_members_per_channel = limit_to_usize(c.max_presence_members_per_channel);
        let max_event_channels_at_once = limit_to_usize(c.max_event_channels_at_once);
        let max_event_batch_size = limit_to_usize(c.max_event_batch_size);
        App {
            id: c.id,
            key: c.key,
            secret: c.secret,
            enabled: c.enabled,
            client_event_mode: c.client_event_mode,
            enable_user_authentication: c.enable_user_authentication,
            max_connections: c.max_connections,
            max_backend_events_per_sec: c.max_backend_events_per_sec,
            max_client_events_per_sec: c.max_client_events_per_sec,
            max_read_req_per_sec: c.max_read_req_per_sec,
            max_presence_members_per_channel,
            max_presence_member_size_in_kb: c.max_presence_member_size_in_kb,
            max_channel_name_length: c.max_channel_name_length,
            max_event_channels_at_once,
            max_event_name_length: c.max_event_name_length,
            max_event_payload_in_kb: c.max_event_payload_in_kb,
            max_event_batch_size,
            enable_cache_channels: c.enable_cache_channels,
            allowed_origins: c.allowed_origins,
            max_message_size_in_kb: c.max_message_size_in_kb,
            webhook_url: c.webhook_url,
            webhook_batch_ms: c.webhook_batch_ms,
            enable_subscription_count_webhook: c.enable_subscription_count_webhook,
        }
    }
}

impl vstd::std_specs::convert::FromSpecImpl<AppConfig> for App {
    open spec fn obeys_from_spec() -> bool {
        true
    }

    open spec fn from_spec(c: AppConfig) -> App {
        spec_app_from_config(c)
    }
}

/// Looks up registered apps by key and by id.
pub trait AppManager {
    fn find_by_key(&self, key: &str) -> Option<&App>;

    fn find_by_id(&self, id: &str) -> Option<&App>;
}

/// The apps of the configuration file, fixed for the life of the server.
pub struct StaticAppManager {
    apps: Vec<App>,
}

/// The app that a lookup of `name` gives: among the apps whose selected field (the key, or
/// the id) is `name`, the one registered last, as a later entry replaces an earlier one.
pub open spec fn spec_lookup(apps: Seq<App>, name: Seq<char>, by_key: bool) -> Option<App> {
    if exists|i: int| 0 <= i < apps.len() && app_name(#[trigger] apps[i], by_key) == name {
        let i = choose|i: int|
            0 <= i < apps.len() && app_name(#[trigger] apps[i], by_key) == name
                && forall|k: int| i < k < apps.len() ==> app_name(#[trigger] apps[k], by_key) != name;
        Some(apps[i])
    } else {
        None
    }
}

/// The app that an optional reference points to.
pub open spec fn opt_app(r: Option<&App>) -> Option<App> {
    match r {
        Some(a) => Some(*a),
        None => None,
    }
}

pub open spec fn app_name(a: App, by_key: bool) -> Seq<char> {
    if by_key { a.key@ } else { a.id@ }
}

impl StaticAppManager {
    pub closed spec fn apps(&self) -> Seq<App> {
        self.apps@
    }

    pub fn new(apps: Vec<AppConfig>) -> (r: Self)
        ensures
            r.apps() == apps@.map_values(|c: AppConfig| spec_app_from_config(c)),
    {
        let mut out: Vec<App> = Vec::new();
        let mut rest = apps;
        let ghost all = rest@;
        let mut i: usize = 0;
        let n = rest.len();
        while i < n
            invariant
                n == all.len(),
                i <= n,
                rest@ == all.skip(i as int),
                out@ == all.take(i as int).map_values(|c: AppConfig| spec_app_from_config(c)),
            decreases n - i,
        {
            let c = rest.remove(0);
            assert(all.skip(i + 1) =~= all.skip(i as int).drop_first());
            let app = App::from(c);
            out.push(app);
            assert(all.take(i + 1).map_values(|c: AppConfig| spec_app_from_config(c)) =~=
                all.take(i as int).map_values(|c: AppConfig| spec_app_from_config(c)).push(spec_app_from_config(all[i as int])));
            i = i + 1;
        }
        assert(all.take(n as int) =~= all);
        StaticAppManager { apps: out }
    }

    fn lookup(&self, name: &str, by_key: bool) -> (r: Option<&App>)
        ensures
            opt_app(r) == spec_lookup(self.apps@, name@, by_key),
    {
        let mut i = self.apps.len();
        while i > 0
            invariant
                i <= self.apps@.len(),
                forall|k: int| i <= k < self.apps@.len() ==> app_name(#[trigger] self.apps@[k], by_key) != name@,
            decreases i,
        {
            i = i - 1;
            let field = if by_key { self.apps[i].key.as_str() } else { self.apps[i].id.as_str() };
            if str_eq(field, name) {
                assert(app_name(self.apps@[i as int], by_key) == name@);
                let ghost j = choose|j: int|
                    0 <= j < self.apps@.len() && app_name(#[trigger] self.apps@[j], by_key) == name@
                        && forall|k: int| j < k < self.apps@.len() ==> app_name(#[trigger] self.apps@[k], by_key) != name@;
                assert(j == i) by {
                    if j < i {
                        assert(app_name(self.apps@[i as int], by_key) != name@);
                    } else if j > i {
                        assert(app_name(self.apps@[j], by_key) != name@);
                    }
                }
                return Some(&self.apps[i]);
            }
        }
        None
    }
}

impl AppManager for StaticAppManager {
    fn find_by_key(&self, key: &str) -> (r: Option<&App>)
        ensures
            opt_app(r) == spec_lookup(self.apps(), key@, true),
    {
        self.lookup(key, true)
    }

    fn find_by_id(&self, id: &str) -> (r: Option<&App>)
        ensures
            opt_app(r) == spec_lookup(self.apps(), id@, false),
    {
        self.lookup(id, false)
    }
}

} // verus!
