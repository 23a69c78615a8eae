use vstd::prelude::*;

verus! {

/// One app's settings, as the configuration file gives them.
#[derive(Debug)]
pub struct AppConfig {
    pub id: String,
    pub key: String,
    pub secret: String,
    pub enabled: bool,
    pub client_event_mode: String,
    pub enable_user_authentication: bool,
    pub max_connections: i64,
    pub max_backend_events_per_sec: i64,
    pub max_client_events_per_sec: i64,
    pub max_read_req_per_sec: i64,
    pub max_presence_members_per_channel: i64,
    pub max_presence_member_size_in_kb: usize,
    pub max_channel_name_length: usize,
    pub max_event_channels_at_once: i64,
    pub max_event_name_length: usize,
    pub max_event_payload_in_kb: usize,
    pub max_event_batch_size: i64,
    pub enable_cache_channels: bool,
    pub allowed_origins: Vec<String>,
    pub max_message_size_in_kb: usize,
    pub webhook_url: Option<String>,
    pub webhook_batch_ms: u64,
    pub enable_subscription_count_webhook: bool,
}

/// TLS settings.
#[derive(Debug)]
pub struct SslConfig {
    pub enabled: bool,
    pub cert_path: Option<String>,
    pub key_path: Option<String>,
}

/// Redis adapter settings.
#[derive(Debug)]
pub struct RedisConfig {
    pub url: String,
    pub prefix: String,
    pub request_timeout: u64,
}

pub fn default_client_event_mode() -> (r: String)
    ensures
        r@ == "all"@,
{
    "all".to_owned()
}

pub fn default_max_message_size_in_kb() -> (r: usize)
    ensures
        r == 40,
{
    40
}

pub fn default_true() -> (r: bool)
    ensures
        r,
{
    true
}

pub fn default_host() -> (r: String)
    ensures
        r@ == "0.0.0.0"@,
{
    "0.0.0.0".to_owned()
}

pub fn default_port() -> (r: u16)
    ensures
        r == 6001,
{
    6001
}

pub fn default_metrics_port() -> (r: u16)
    ensures
        r == 9100,
{
    9100
}

pub fn default_activity_timeout() -> (r: u64)
    ensures
        r == 120,
{
    120
}

pub fn default_server_ping_interval() -> (r: u64)
    ensures
        r == 60,
{
    60
}

pub fn default_server_pong_timeout() -> (r: u64)
    ensures
        r == 15,
{
    15
}

pub fn default_shutdown_grace_period() -> (r: u64)
    ensures
        r == 6,
{
    6
}

pub fn default_adapter() -> (r: String)
    ensures
        r@ == "local"@,
{
    "local".to_owned()
}

pub fn default_redis_url() -> (r: String)
    ensures
        r@ == "redis://127.0.0.1:6379"@,
{
    "redis://127.0.0.1:6379".to_owned()
}

pub fn default_redis_prefix() -> (r: String)
    ensures
        r@ == "rushsocket"@,
{
    "rushsocket".to_owned()
}

pub fn default_redis_request_timeout() -> (r: u64)
    ensures
        r == 5000,
{
    5000
}

pub fn default_mode() -> (r: String)
    ensures
        r@ == "full"@,
{
    "full".to_owned()
}

pub fn default_debug() -> (r: bool)
    ensures
        !r,
{
    false
}

pub fn default_cache_ttl() -> (r: u64)
    ensures
        r == 3600,
{
    3600
}

pub fn default_max_connections() -> (r: i64)
    ensures
        r == -1,
{
    -1
}

pub fn default_max_backend_events_per_sec() -> (r: i64)
    ensures
        r == -1,
{
    -1
}

pub fn default_max_client_events_per_sec() -> (r: i64)
    ensures
        r == -1,
{
    -1
}

pub fn default_max_read_req_per_sec() -> (r: i64)
    ensures
        r == -1,
{
    -1
}

pub fn default_max_presence_members_per_channel() -> (r: i64)
    ensures
        r == 200,
{
    200
}

pub fn default_max_presence_member_size_in_kb() -> (r: usize)
    ensures
        r == 2,
{
    2
}

pub fn default_max_channel_name_length() -> (r: usize)
    ensures
        r == 256,
{
    256
}

pub fn default_max_event_channels_at_once() -> (r: i64)
    ensures
        r == 200,
{
    200
}

pub fn default_max_event_name_length() -> (r: usize)
    ensures
        r == 256,
{
    256
}

pub fn default_max_event_payload_in_kb() -> (r: usize)
    ensures
        r == 32,
{
    32
}

pub fn default_max_event_batch_size() -> (r: i64)
    ensures
        r == 20,
{
    20
}

pub fn default_max_http_event_body_kb() -> (r: usize)
    ensures
        r == 64,
{
    64
}

pub fn default_max_http_batch_body_kb() -> (r: usize)
    ensures
        r == 1280,
{
    1280
}

pub fn default_max_concurrent_http_requests() -> (r: usize)
    ensures
        r == 256,
{
    256
}

pub fn default_shutdown_drain_period() -> (r: u64)
    ensures
        r == 10,
{
    10
}

pub fn default_webhook_batch_ms() -> (r: u64)
    ensures
        r == 1000,
{
    1000
}

/// The meaning of a limit as a size: negative means unlimited (`usize::MAX`).
pub open spec fn spec_limit_to_usize(v: i64) -> usize {
    if v < 0 { usize::MAX } else { v as usize }
}

/// Convert an i64 limit to usize. Negative values mean unlimited (usize::MAX).
pub fn limit_to_usize(v: i64) -> (r: usize)
    ensures
        r == spec_limit_to_usize(v),
{
    if v < 0 { usize::MAX } else { v as usize }
}

impl AppConfig {
    /// The settings of the built-in app used when no configuration file is given.
    pub open spec fn spec_default(self) -> bool {
        &&& self.id@ == "rushsocket-id"@
        &&& self.key@ == "rushsocket-key"@
        &&& self.secret@ == "rushsocket-secret"@
        &&& self.enabled
        &&& self.client_event_mode@ == "all"@
        &&& self.enable_user_authentication
        &&& self.max_connections == -1
        &&& self.max_backend_events_per_sec == -1
        &&& self.max_client_events_per_sec == -1
        &&& self.max_read_req_per_sec == -1
        &&& self.max_presence_members_per_channel == 200
        &&& self.max_presence_member_size_in_kb == 2
        &&& self.max_channel_name_length == 256
        &&& self.max_event_channels_at_once == 200
        &&& self.max_event_name_length == 256
        &&& self.max_event_payload_in_kb == 32
        &&& self.max_event_batch_size == 20
        &&& self.enable_cache_channels
        &&& self.allowed_origins@.len() == 0
        &&& self.max_message_size_in_kb == 40
        &&& self.webhook_url is None
        &&& self.webhook_batch_ms == 1000
        &&& !self.enable_subscription_count_webhook
    }
}

impl Default for AppConfig {
    fn default() -> (r: Self)
        ensures
            r.spec_default(),
    {
        AppConfig {
            id: "rushsocket-id".to_owned(),
            key: "rushsocket-key".to_owned(),
            secret: "rushsocket-secret".to_owned(),
            enabled: true,
            client_event_mode: default_client_event_mode(),
            enable_user_authentication: true,
            max_connections: -1,
            max_backend_events_per_sec: -1,
            max_client_events_per_sec: -1,
            max_read_req_per_sec: -1,
            max_presence_members_per_channel: 200,
            max_presence_member_size_in_kb: 2,
            max_channel_name_length: 256,
            max_event_channels_at_once: 200,
            max_event_name_length: 256,
            max_event_payload_in_kb: 32,
            max_event_batch_size: 20,
            enable_cache_channels: true,
            allowed_origins: Vec::new(),
            max_message_size_in_kb: 40,
            webhook_url: None,
            webhook_batch_ms: default_webhook_batch_ms(),
            enable_subscription_count_webhook: false,
        }
    }
}

impl Default for SslConfig {
    fn default() -> (r: Self)
        ensures
            !r.enabled && r.cert_path is None && r.key_path is None,
    {
        SslConfig { enabled: false, cert_path: None, key_path: None }
    }
}

impl Default for RedisConfig {
    fn default() -> (r: Self)
        ensures
            r.url@ == "redis://127.0.0.1:6379"@,
            r.prefix@ == "rushsocket"@,
            r.request_timeout == 5000,
    {
        RedisConfig {
            url: default_redis_url(),
            prefix: default_redis_prefix(),
            request_timeout: default_redis_request_timeout(),
        }
    }
}

} // verus!
