use vstd::prelude::*;

use crate::app::App;
use crate::auth::{auth_token_valid, channel_auth_message, verify_channel_auth};
use crate::json::{
    byte_len, cap, estimate, estimate_json_size, get_str_field, get_value_field, id_string, id_text, json_text, str_field, to_json_text,
    value_field, JsonValue,
};
use crate::protocol::channels::{
    is_valid_channel_name, spec_is_cache, spec_is_presence, spec_is_private, spec_kind, valid_channel_name_bytes,
    ChannelKind,
};
use crate::protocol::messages::{
    ClientMessage, opt_text,
    channel_message, member_added_data, member_removed_data, presence_message, presence_succeeded, signin_data,
};
use crate::sorted::pair_views;
use crate::rate_limit::{keys_after_check, quota_of, quotas_after_check, LocalRateLimiter};
use vstd::string::StringSliceAdditionalSpecFns;
use crate::protocol::error_codes::{ACTIVITY_TIMEOUT, APP_DISABLED, GENERIC_ERROR, OVER_CAPACITY, UNKNOWN_APP};
use crate::protocol::messages::{error_message, MessageView, ServerMessage, PONG_JSON};
use crate::text::{concat, has_prefix, starts_with, str_eq, to_string};
use crate::webhook::{webhook_view, WebhookEvent, WebhookView};
use crate::auth::{signin_auth_message, verify_signin_auth};
use crate::websocket::connection::UserInfo;
use crate::websocket::connection::WsConnection;
use crate::websocket::{opt_view, spec_validate_origin, validate_origin};

verus! {

/// What handling a client's message asks the server to do, in order.
#[derive(Debug)]
pub enum Effect {
    /// Send a message to this connection.
    Send(ServerMessage),
    /// Send a ready JSON text to this connection.
    SendRaw(String),
    /// Send a message to the subscribers of a channel, but the excepted socket.
    Broadcast(String, ServerMessage, Option<String>),
    /// Report an event to the app's webhook, if it has one.
    Webhook(WebhookEvent),
    /// The channel got its first subscriber on this node: report `channel_occupied` if it
    /// has no other subscriber in the cluster.
    OccupiedWebhook(String),
    /// The channel lost its last subscriber on this node: report `channel_vacated` if it
    /// has no other subscriber in the cluster.
    VacatedWebhook(String),
    /// Report the channel's `subscription_count`, counted after the change.
    SubscriptionCountWebhook(String),
    /// Replay the channel's cached event to this connection (see `cache_replay`).
    ReplayCache(String),
    /// Record that this socket belongs to the user.
    AddUser(String),
}

/// What an effect says, as texts.
pub enum EffectView {
    Send(MessageView),
    SendRaw(Seq<char>),
    Broadcast(Seq<char>, MessageView, Option<Seq<char>>),
    Webhook(WebhookView),
    OccupiedWebhook(Seq<char>),
    VacatedWebhook(Seq<char>),
    SubscriptionCountWebhook(Seq<char>),
    ReplayCache(Seq<char>),
    AddUser(Seq<char>),
}

impl View for Effect {
    type V = EffectView;

    open spec fn view(&self) -> EffectView {
        match self {
            Effect::Send(m) => EffectView::Send(m@),
            Effect::SendRaw(t) => EffectView::SendRaw(t@),
            Effect::Broadcast(c, m, e) => EffectView::Broadcast(c@, m@, crate::protocol::messages::opt_text(*e)),
            Effect::Webhook(w) => EffectView::Webhook(w@),
            Effect::OccupiedWebhook(c) => EffectView::OccupiedWebhook(c@),
            Effect::VacatedWebhook(c) => EffectView::VacatedWebhook(c@),
            Effect::SubscriptionCountWebhook(c) => EffectView::SubscriptionCountWebhook(c@),
            Effect::ReplayCache(c) => EffectView::ReplayCache(c@),
            Effect::AddUser(u) => EffectView::AddUser(u@),
        }
    }
}

/// The views of a list of effects.
pub open spec fn effects_view(es: Seq<Effect>) -> Seq<EffectView> {
    es.map_values(|e: Effect| e@)
}

/// Sending an error with the generic code.
pub open spec fn err(text: Seq<char>) -> EffectView {
    EffectView::Send(error_message(text, Some(GENERIC_ERROR)))
}

/// Sending an error with a given code.
pub open spec fn err_code(text: Seq<char>, code: u16) -> EffectView {
    EffectView::Send(error_message(text, Some(code)))
}

/// A list of effects with one more at the end.
fn push_effect(es: &mut Vec<Effect>, e: Effect)
    ensures
        effects_view(final(es)@) == effects_view(old(es)@).push(e@),
{
    let ghost before = es@;
    es.push(e);
    assert(effects_view(es@) =~= effects_view(before).push(e@));
}

/// The single effect of sending an error with the generic code, such as the refusal of a
/// subscription.
pub fn error_effects(text: &str) -> (r: Vec<Effect>)
    ensures
        effects_view(r@) == seq![err(text@)],
{
    error_code_effects(text, GENERIC_ERROR)
}

/// The single effect of sending an error with a code.
fn error_code_effects(text: &str, code: u16) -> (r: Vec<Effect>)
    ensures
        effects_view(r@) == seq![err_code(text@, code)],
{
    let mut r: Vec<Effect> = Vec::new();
    push_effect(&mut r, Effect::Send(ServerMessage::error(text, Some(code))));
    assert(effects_view(r@) =~= seq![err_code(text@, code)]);
    r
}

/// Where a client's message goes, by its event name.
#[derive(Debug, Clone, Copy, PartialEq, Eq, Structural)]
pub enum Route {
    Ping,
    Subscribe,
    Unsubscribe,
    Signin,
    ClientEvent,
    Unknown,
}

pub open spec fn spec_route(event: Seq<char>) -> Route {
    if event == "pusher:ping"@ {
        Route::Ping
    } else if event == "pusher:subscribe"@ {
        Route::Subscribe
    } else if event == "pusher:unsubscribe"@ {
        Route::Unsubscribe
    } else if event == "pusher:signin"@ {
        Route::Signin
    } else if has_prefix(event, "client-"@) {
        Route::ClientEvent
    } else {
        Route::Unknown
    }
}

/// Where a client's message goes, by its event name.
pub fn route(event: &str) -> (r: Route)
    ensures
        r == spec_route(event@),
{
    if str_eq(event, "pusher:ping") {
        Route::Ping
    } else if str_eq(event, "pusher:subscribe") {
        Route::Subscribe
    } else if str_eq(event, "pusher:unsubscribe") {
        Route::Unsubscribe
    } else if str_eq(event, "pusher:signin") {
        Route::Signin
    } else if starts_with(event, "client-") {
        Route::ClientEvent
    } else {
        Route::Unknown
    }
}

/// The answer to a message that is not JSON.
pub fn invalid_json_effects() -> (r: Vec<Effect>)
    ensures
        effects_view(r@) == seq![err("Invalid JSON"@)],
{
    error_effects("Invalid JSON")
}

/// The answer to a message with an event the server does not know.
pub fn unknown_event_effects(event: &str) -> (r: Vec<Effect>)
    ensures
        effects_view(r@) == seq![err("Unknown event: "@ + event@)],
{
    let text = concat("Unknown event: ", event);
    error_effects(text.as_str())
}

/// The answer to a client's ping: a pong.
pub fn pong_effects() -> (r: Vec<Effect>)
    ensures
        effects_view(r@) == seq![EffectView::SendRaw(PONG_JSON@)],
{
    let mut r: Vec<Effect> = Vec::new();
    push_effect(&mut r, Effect::SendRaw(to_string(PONG_JSON)));
    assert(effects_view(r@) =~= seq![EffectView::SendRaw(PONG_JSON@)]);
    r
}

/// The replay of a cache channel's last event: the cached JSON text when there is one,
/// else a `pusher:cache_miss` and a `cache_miss` webhook.
pub open spec fn spec_cache_replay(channel: Seq<char>, cached: Option<Seq<char>>) -> Seq<EffectView> {
    match cached {
        Some(t) => seq![EffectView::SendRaw(t)],
        None => seq![
            EffectView::Send(MessageView { event: "pusher:cache_miss"@, data: None, channel: Some(channel), user_id: None }),
            EffectView::Webhook(crate::webhook::webhook_view("cache_miss"@, channel, None)),
        ],
    }
}

/// Replays a cache channel's last event, found or not in the cache.
pub fn cache_replay(channel: &str, cached: Option<String>) -> (r: Vec<Effect>)
    ensures
        effects_view(r@) == spec_cache_replay(channel@, crate::protocol::messages::opt_text(cached)),
{
    let mut r: Vec<Effect> = Vec::new();
    match cached {
        Some(t) => {
            push_effect(&mut r, Effect::SendRaw(t));
        },
        None => {
            push_effect(&mut r, Effect::Send(ServerMessage::cache_miss(channel)));
            push_effect(&mut r, Effect::Webhook(WebhookEvent::cache_miss(channel)));
        },
    }
    assert(effects_view(r@) =~= spec_cache_replay(channel@, crate::protocol::messages::opt_text(cached)));
    r
}

/// What becomes of a new WebSocket connection.
#[derive(Debug)]
pub enum Admission {
    /// The server is closing: drop it without a word.
    Ignore,
    /// Send this error and close.
    Refuse(ServerMessage),
    /// Go on with the connection.
    Accept,
}

/// What an admission says.
pub enum AdmissionView {
    Ignore,
    Refuse(MessageView),
    Accept,
}

impl View for Admission {
    type V = AdmissionView;

    open spec fn view(&self) -> AdmissionView {
        match self {
            Admission::Ignore => AdmissionView::Ignore,
            Admission::Refuse(m) => AdmissionView::Refuse(m@),
            Admission::Accept => AdmissionView::Accept,
        }
    }
}

/// Admission of a connection: refused when the server closes, the app is unknown or
/// disabled, the origin is not allowed, or memory runs short, in that order.
pub open spec fn spec_admission(closing: bool, app: Option<App>, origin: Option<Seq<char>>, memory_too_high: bool) -> AdmissionView {
    if closing {
        AdmissionView::Ignore
    } else {
        match app {
            None => AdmissionView::Refuse(error_message("Could not find app"@, Some(UNKNOWN_APP))),
            Some(a) => if !a.enabled {
                AdmissionView::Refuse(error_message("Application is disabled"@, Some(APP_DISABLED)))
            } else if !spec_validate_origin(origin, crate::text::views(a.allowed_origins@)) {
                AdmissionView::Refuse(error_message("Origin not allowed"@, Some(GENERIC_ERROR)))
            } else if memory_too_high {
                AdmissionView::Refuse(error_message("Memory usage too high"@, Some(GENERIC_ERROR)))
            } else {
                AdmissionView::Accept
            },
        }
    }
}

/// Decides whether a new connection is admitted. `app` is the app that the connection's key
/// names, and `memory_too_high` tells whether a memory limit is set and reached.
pub fn admission(closing: bool, app: Option<&App>, origin: Option<&str>, memory_too_high: bool) -> (r: Admission)
    ensures
        r@ == spec_admission(closing, match app { Some(a) => Some(*a), None => None }, opt_view(origin), memory_too_high),
{
    if closing {
        return Admission::Ignore;
    }
    match app {
        None => Admission::Refuse(ServerMessage::error("Could not find app", Some(UNKNOWN_APP))),
        Some(a) => {
            if !a.enabled {
                Admission::Refuse(ServerMessage::error("Application is disabled", Some(APP_DISABLED)))
            } else if !validate_origin(origin, &a.allowed_origins) {
                Admission::Refuse(ServerMessage::error("Origin not allowed", Some(GENERIC_ERROR)))
            } else if memory_too_high {
                Admission::Refuse(ServerMessage::error("Memory usage too high", Some(GENERIC_ERROR)))
            } else {
                Admission::Accept
            }
        },
    }
}

/// The error sent when the app has as many connections as it may.
pub fn over_quota_error() -> (r: ServerMessage)
    ensures
        r@ == error_message("Over connection quota"@, Some(crate::protocol::error_codes::APP_OVER_CONNECTION_QUOTA)),
{
    ServerMessage::error("Over connection quota", Some(crate::protocol::error_codes::APP_OVER_CONNECTION_QUOTA))
}

/// A data frame from the client: too large ones close the connection with an error, others
/// count as activity.
pub fn on_data_frame(conn: &mut WsConnection, size: usize, max_message_size_in_kb: usize) -> (r: Option<ServerMessage>)
    ensures
        (size as int) > (max_message_size_in_kb as int) * 1024 ==> {
            &&& r matches Some(m) && m@ == error_message("Message too large"@, Some(GENERIC_ERROR))
            &&& *final(conn) == *old(conn)
        },
        (size as int) <= (max_message_size_in_kb as int) * 1024 ==> {
            &&& r is None
            &&& !final(conn).is_pinged()
            &&& final(conn).socket_id == old(conn).socket_id
            &&& final(conn).channels() == old(conn).channels()
            &&& final(conn).presence_of() == old(conn).presence_of()
            &&& final(conn).user == old(conn).user
            &&& final(conn).user_authenticated == old(conn).user_authenticated
            &&& final(conn).closing() == old(conn).closing()
            &&& final(conn).wf() == old(conn).wf()
        },
{
    if (size as u128) > (max_message_size_in_kb as u128) * 1024 {
        return Some(ServerMessage::error("Message too large", Some(GENERIC_ERROR)));
    }
    conn.clear_pinged();
    None
}

/// What to do when the activity timer fires.
#[derive(Debug)]
pub enum TimerAction {
    /// A ping went unanswered: send this error and close.
    Close(ServerMessage),
    /// Send a server ping and wait for the pong.
    Ping,
}

/// The activity timer fired: a connection that was pinged and did not answer is closed,
/// any other is pinged.
pub fn on_activity_timeout(conn: &mut WsConnection) -> (r: TimerAction)
    ensures
        old(conn).is_pinged() ==> {
            &&& r matches TimerAction::Close(m) && m@ == error_message("Pong reply not received"@, Some(ACTIVITY_TIMEOUT))
            &&& *final(conn) == *old(conn)
        },
        !old(conn).is_pinged() ==> {
            &&& r is Ping
            &&& final(conn).is_pinged()
            &&& final(conn).socket_id == old(conn).socket_id
            &&& final(conn).channels() == old(conn).channels()
            &&& final(conn).presence_of() == old(conn).presence_of()
            &&& final(conn).user == old(conn).user
            &&& final(conn).user_authenticated == old(conn).user_authenticated
            &&& final(conn).closing() == old(conn).closing()
            &&& final(conn).wf() == old(conn).wf()
        },
{
    if conn.is_stale() {
        TimerAction::Close(ServerMessage::error("Pong reply not received", Some(ACTIVITY_TIMEOUT)))
    } else {
        conn.mark_pinged();
        TimerAction::Ping
    }
}


/// How a subscription begins.
#[derive(Debug)]
pub enum SubscribeStart {
    /// Already subscribed: nothing to do.
    Ignore,
    /// Refused with this error text (generic code).
    Reject(String),
    /// A public or private channel: add the socket to it, then `finish_join`.
    Join(String, ChannelKind),
    /// A presence channel: add the member under the channel's limit (`try_add_presence_member`),
    /// then the socket, then `finish_presence_join`.
    JoinPresence(PresenceJoin),
}

/// A presence subscription that passed its checks.
#[derive(Debug)]
pub struct PresenceJoin {
    pub channel: String,
    pub kind: ChannelKind,
    pub user_id: String,
    /// The JSON text of the member's `user_info`.
    pub user_info: String,
    pub max_members: usize,
}

/// What a subscription's beginning says, as texts.
pub enum StartView {
    Ignore,
    Reject(Seq<char>),
    Join(Seq<char>, ChannelKind),
    JoinPresence(Seq<char>, ChannelKind, Seq<char>, Seq<char>, usize),
}

impl View for SubscribeStart {
    type V = StartView;

    open spec fn view(&self) -> StartView {
        match self {
            SubscribeStart::Ignore => StartView::Ignore,
            SubscribeStart::Reject(t) => StartView::Reject(t@),
            SubscribeStart::Join(c, k) => StartView::Join(c@, *k),
            SubscribeStart::JoinPresence(p) => StartView::JoinPresence(p.channel@, p.kind, p.user_id@, p.user_info@, p.max_members),
        }
    }
}

/// The JSON text of a presence member's info: its `user_info`, or `{}` when it has none.
pub open spec fn user_info_text(channel_data: JsonValue) -> Seq<char> {
    match value_field(channel_data, "user_info"@) {
        Some(info) => json_text(info),
        None => "{}"@,
    }
}

/// The checks of a presence subscription once the channel is known, in order: the token,
/// `channel_data` (whose decoded value the caller gives), its `user_id`, and its size.
pub open spec fn spec_presence_start(
    app: App,
    socket_id: Seq<char>,
    channel: Seq<char>,
    kind: ChannelKind,
    data: Seq<(String, JsonValue)>,
    channel_data: Option<JsonValue>,
) -> StartView {
    match str_field(data, "auth"@) {
        None => StartView::Reject("Authorization required"@),
        Some(auth) => match str_field(data, "channel_data"@) {
            None => StartView::Reject("Presence channel requires channel_data"@),
            Some(cd_text) => if !auth_token_valid(app.key@, app.secret@, channel_auth_message(socket_id, channel, Some(cd_text)), auth) {
                StartView::Reject("Authorization failed"@)
            } else {
                match channel_data {
                    None => StartView::Reject("Invalid channel_data JSON"@),
                    Some(cd) => match value_field(cd, "user_id"@) {
                        None => StartView::Reject("channel_data must contain user_id"@),
                        Some(uid) => match id_text(uid) {
                            None => StartView::Reject("channel_data must contain user_id"@),
                            Some(user_id) => if byte_len(json_text(cd)) > (app.max_presence_member_size_in_kb as int) * 1024 {
                                StartView::Reject("Member data too large"@)
                            } else {
                                StartView::JoinPresence(channel, kind, user_id, user_info_text(cd), app.max_presence_members_per_channel)
                            },
                        },
                    },
                }
            },
        },
    }
}

/// How a subscription begins, from the message's data object and, for presence channels,
/// the decoded `channel_data`: the checks of the data, the channel name and, by the kind of
/// channel, of the auth token, in the order the protocol makes them.
pub open spec fn spec_begin_subscribe(
    app: App,
    socket_id: Seq<char>,
    subscribed: Set<Seq<char>>,
    data: Option<Seq<(String, JsonValue)>>,
    channel_data: Option<JsonValue>,
) -> StartView {
    match data {
        None => StartView::Reject("Invalid data"@),
        Some(d) => match str_field(d, "channel"@) {
            None => StartView::Reject("No channel provided"@),
            Some(channel) => if !valid_channel_name_bytes(vstd::utf8::encode_utf8(channel))
                || byte_len(channel) > app.max_channel_name_length {
                StartView::Reject("Invalid channel name"@)
            } else if subscribed.contains(channel) {
                StartView::Ignore
            } else {
                let kind = spec_kind(channel);
                if spec_is_presence(kind) {
                    spec_presence_start(app, socket_id, channel, kind, d, channel_data)
                } else if spec_is_private(kind) {
                    match str_field(d, "auth"@) {
                        None => StartView::Reject("Authorization required"@),
                        Some(auth) => if !auth_token_valid(app.key@, app.secret@, channel_auth_message(socket_id, channel, None), auth) {
                            StartView::Reject("Authorization failed"@)
                        } else {
                            StartView::Join(channel, kind)
                        },
                    }
                } else {
                    StartView::Join(channel, kind)
                }
            },
        },
    }
}

fn reject(text: &str) -> (r: SubscribeStart)
    ensures
        r@ == StartView::Reject(text@),
{
    SubscribeStart::Reject(to_string(text))
}

fn presence_start(
    app: &App,
    socket_id: &str,
    channel: String,
    kind: ChannelKind,
    data: &Vec<(String, JsonValue)>,
    channel_data: Option<&JsonValue>,
) -> (r: SubscribeStart)
    ensures
        r@ == spec_presence_start(*app, socket_id@, channel@, kind, data@, crate::protocol::messages::deref_value(channel_data)),
{
    let auth = match get_str_field(data, "auth") {
        Some(a) => a,
        None => return reject("Authorization required"),
    };
    let cd_text = match get_str_field(data, "channel_data") {
        Some(d) => d,
        None => return reject("Presence channel requires channel_data"),
    };
    if !verify_channel_auth(app.key.as_str(), app.secret.as_str(), socket_id, channel.as_str(), Some(cd_text.as_str()), auth.as_str()) {
        return reject("Authorization failed");
    }
    let cd = match channel_data {
        Some(v) => v,
        None => return reject("Invalid channel_data JSON"),
    };
    let user_id = match get_value_field(cd, "user_id") {
        Some(v) => match id_string(v) {
            Some(id) => id,
            None => return reject("channel_data must contain user_id"),
        },
        None => return reject("channel_data must contain user_id"),
    };
    let member_json = to_json_text(cd);
    if (member_json.as_str().len() as u128) > (app.max_presence_member_size_in_kb as u128) * 1024 {
        return reject("Member data too large");
    }
    let user_info = match get_value_field(cd, "user_info") {
        Some(info) => to_json_text(info),
        None => to_string("{}"),
    };
    SubscribeStart::JoinPresence(PresenceJoin {
        channel,
        kind,
        user_id,
        user_info,
        max_members: app.max_presence_members_per_channel,
    })
}

/// Begins a subscription: checks the data object (see `ClientMessage::extract_data`), the
/// channel, and the auth token by the kind of channel. `channel_data` is the value that the
/// data's `channel_data` text decodes to, if it decodes.
pub fn begin_subscribe(
    app: &App,
    conn: &WsConnection,
    data: Option<&Vec<(String, JsonValue)>>,
    channel_data: Option<&JsonValue>,
) -> (r: SubscribeStart)
    requires
        conn.wf(),
    ensures
        r@ == spec_begin_subscribe(
            *app,
            conn.socket_id@,
            conn.channels(),
            match data { Some(d) => Some(d@), None => None },
            crate::protocol::messages::deref_value(channel_data),
        ),
{
    let d = match data {
        Some(d) => d,
        None => return reject("Invalid data"),
    };
    let channel = match get_str_field(d, "channel") {
        Some(c) => c,
        None => return reject("No channel provided"),
    };
    if !is_valid_channel_name(channel.as_str()) || channel.as_str().len() > app.max_channel_name_length {
        return reject("Invalid channel name");
    }
    if conn.is_subscribed(channel.as_str()) {
        return SubscribeStart::Ignore;
    }
    let kind = ChannelKind::from_name(channel.as_str());
    if kind.is_presence() {
        presence_start(app, conn.socket_id.as_str(), channel.clone(), kind, d, channel_data)
    } else if kind.is_private() {
        let auth = match get_str_field(d, "auth") {
            Some(a) => a,
            None => return reject("Authorization required"),
        };
        if !verify_channel_auth(app.key.as_str(), app.secret.as_str(), conn.socket_id.as_str(), channel.as_str(), None, auth.as_str()) {
            return reject("Authorization failed");
        }
        SubscribeStart::Join(channel.clone(), kind)
    } else {
        SubscribeStart::Join(channel.clone(), kind)
    }
}

/// After the socket joined a public or private channel: the confirmation, then the
/// `channel_occupied` check when it was the first subscriber here, the subscription count
/// when the app reports it, and the cache replay for cache channels of apps that cache.
pub open spec fn spec_join_effects(app: App, channel: Seq<char>, kind: ChannelKind, occupied: bool) -> Seq<EffectView> {
    seq![EffectView::Send(channel_message("pusher_internal:subscription_succeeded"@, channel, "{}"@))]
        + (if occupied { seq![EffectView::OccupiedWebhook(channel)] } else { Seq::empty() })
        + (if app.enable_subscription_count_webhook && !spec_is_presence(kind) {
            seq![EffectView::SubscriptionCountWebhook(channel)]
        } else {
            Seq::empty()
        })
        + (if spec_is_cache(kind) && app.enable_cache_channels { seq![EffectView::ReplayCache(channel)] } else { Seq::empty() })
}

/// Finishes a public or private subscription once the socket is in the channel; `occupied`
/// tells whether it is the channel's first subscriber on this node.
pub fn finish_join(app: &App, conn: &mut WsConnection, channel: String, kind: ChannelKind, occupied: bool) -> (r: Vec<Effect>)
    requires
        old(conn).wf(),
        kind == spec_kind(channel@),
    ensures
        final(conn).wf(),
        final(conn).channels() == old(conn).channels().insert(channel@),
        final(conn).user_authenticated == (old(conn).user_authenticated || spec_is_private(kind)),
        final(conn).socket_id == old(conn).socket_id,
        final(conn).presence_of() == old(conn).presence_of(),
        final(conn).user == old(conn).user,
        final(conn).is_pinged() == old(conn).is_pinged(),
        final(conn).closing() == old(conn).closing(),
        effects_view(r@) == spec_join_effects(*app, channel@, kind, occupied),
{
    let mut r: Vec<Effect> = Vec::new();
    conn.add_channel(channel.clone());
    if kind.is_private() {
        conn.user_authenticated = true;
    }
    push_effect(&mut r, Effect::Send(ServerMessage::subscription_succeeded(channel.as_str())));
    if occupied {
        push_effect(&mut r, Effect::OccupiedWebhook(channel.clone()));
    }
    if crate::webhook::wants_subscription_count_webhook(app.enable_subscription_count_webhook, channel.as_str()) {
        push_effect(&mut r, Effect::SubscriptionCountWebhook(channel.clone()));
    }
    if kind.is_cache() && app.enable_cache_channels {
        push_effect(&mut r, Effect::ReplayCache(channel.clone()));
    }
    assert(effects_view(r@) =~= spec_join_effects(*app, channel@, kind, occupied));
    r
}

/// The refusal of a presence member over the channel's limit.
pub fn presence_limit_effects() -> (r: Vec<Effect>)
    ensures
        effects_view(r@) == seq![err("Over presence member limit"@)],
{
    error_effects("Over presence member limit")
}

/// After a member joined a presence channel and the socket the channel: the `channel_occupied`
/// webhook when it was the first subscriber here, the member list, then, for a new member,
/// `member_added` to the others and as a webhook, and the cache replay.
pub open spec fn spec_presence_join_effects(
    app: App,
    socket_id: Seq<char>,
    channel: Seq<char>,
    kind: ChannelKind,
    user_id: Seq<char>,
    user_info: Seq<char>,
    is_new: bool,
    members: Seq<(Seq<char>, Seq<char>)>,
    occupied: bool,
) -> Seq<EffectView> {
    (if occupied {
        seq![EffectView::Webhook(crate::webhook::webhook_view("channel_occupied"@, channel, None))]
    } else {
        Seq::empty()
    }) + seq![EffectView::Send(presence_message(channel, members))] + (if is_new {
        seq![
            EffectView::Broadcast(
                channel,
                channel_message("pusher_internal:member_added"@, channel, member_added_data(user_id, user_info)),
                Some(socket_id),
            ),
            EffectView::Webhook(crate::webhook::webhook_view("member_added"@, channel, Some(user_id))),
        ]
    } else {
        Seq::empty()
    }) + (if spec_is_cache(kind) && app.enable_cache_channels { seq![EffectView::ReplayCache(channel)] } else { Seq::empty() })
}

/// Finishes a presence subscription: the member was added (`is_new` when the user had no
/// socket in the channel before), `members` are the channel's members after it, and the
/// socket joined the channel (`occupied` when it was the first subscriber on this node).
pub fn finish_presence_join(
    app: &App,
    conn: &mut WsConnection,
    join: PresenceJoin,
    is_new: bool,
    members: &Vec<(&String, &String)>,
    occupied: bool,
) -> (r: Vec<Effect>)
    requires
        old(conn).wf(),
    ensures
        final(conn).wf(),
        final(conn).channels() == old(conn).channels().insert(join.channel@),
        final(conn).presence_of() == old(conn).presence_of().insert(join.channel@, (join.user_id, join.user_info)),
        final(conn).user_authenticated,
        final(conn).socket_id == old(conn).socket_id,
        final(conn).user == old(conn).user,
        final(conn).is_pinged() == old(conn).is_pinged(),
        final(conn).closing() == old(conn).closing(),
        effects_view(r@) == spec_presence_join_effects(
            *app,
            old(conn).socket_id@,
            join.channel@,
            join.kind,
            join.user_id@,
            join.user_info@,
            is_new,
            pair_views(members@),
            occupied,
        ),
{
    let mut r: Vec<Effect> = Vec::new();
    let channel = join.channel;
    conn.add_channel(channel.clone());
    conn.set_presence(channel.clone(), join.user_id.clone(), join.user_info.clone());
    conn.user_authenticated = true;
    if occupied {
        push_effect(&mut r, Effect::Webhook(WebhookEvent::channel_occupied(channel.as_str())));
    }
    push_effect(&mut r, Effect::Send(presence_succeeded(channel.as_str(), members)));
    if is_new {
        let added = ServerMessage::member_added(channel.as_str(), join.user_id.as_str(), join.user_info.as_str());
        push_effect(&mut r, Effect::Broadcast(channel.clone(), added, Some(conn.socket_id.clone())));
        push_effect(&mut r, Effect::Webhook(WebhookEvent::member_added(channel.as_str(), join.user_id.as_str())));
    }
    if join.kind.is_cache() && app.enable_cache_channels {
        push_effect(&mut r, Effect::ReplayCache(channel.clone()));
    }
    assert(effects_view(r@) =~= spec_presence_join_effects(
        *app,
        old(conn).socket_id@,
        channel@,
        join.kind,
        join.user_id@,
        join.user_info@,
        is_new,
        pair_views(members@),
        occupied,
    ));
    r
}


/// A socket leaving a channel: the channel, and the user whose presence membership the
/// socket held there, if any.
#[derive(Debug)]
pub struct Leave {
    pub channel: String,
    pub user_id: Option<String>,
}

/// The user that a connection is a presence member as in a channel, if the channel is a
/// presence channel and it is one.
pub open spec fn presence_user(conn: WsConnection, channel: Seq<char>) -> Option<Seq<char>> {
    if spec_is_presence(spec_kind(channel)) && conn.presence_of().contains_key(channel) {
        Some(conn.presence_of()[channel].0@)
    } else {
        None
    }
}

/// The channel that an unsubscribe names, if the data is an object naming, as a string, a
/// channel the connection is subscribed to.
pub open spec fn unsubscribe_channel(conn: WsConnection, data: Option<Seq<(String, JsonValue)>>) -> Option<Seq<char>> {
    match data {
        None => None,
        Some(d) => match str_field(d, "channel"@) {
            None => None,
            Some(c) => if conn.channels().contains(c) { Some(c) } else { None },
        },
    }
}

/// Begins an unsubscribe: the connection forgets the channel and its presence membership
/// there. Nothing happens when the data names no channel the connection is subscribed to.
pub fn begin_unsubscribe(conn: &mut WsConnection, data: Option<&Vec<(String, JsonValue)>>) -> (r: Option<Leave>)
    requires
        old(conn).wf(),
    ensures
        final(conn).wf(),
        final(conn).socket_id == old(conn).socket_id,
        final(conn).user == old(conn).user,
        final(conn).user_authenticated == old(conn).user_authenticated,
        final(conn).is_pinged() == old(conn).is_pinged(),
        final(conn).closing() == old(conn).closing(),
        match unsubscribe_channel(*old(conn), match data { Some(d) => Some(d@), None => None }) {
            None => r is None && final(conn).channels() == old(conn).channels()
                && final(conn).presence_of() == old(conn).presence_of(),
            Some(c) => r matches Some(l) && l.channel@ == c
                && crate::protocol::messages::opt_text(l.user_id) == presence_user(*old(conn), c)
                && final(conn).channels() == old(conn).channels().remove(c)
                && final(conn).presence_of() == (if spec_is_presence(spec_kind(c)) {
                    old(conn).presence_of().remove(c)
                } else {
                    old(conn).presence_of()
                }),
        },
{
    let d = match data {
        Some(d) => d,
        None => return None,
    };
    let channel = match get_str_field(d, "channel") {
        Some(c) => c,
        None => return None,
    };
    if !conn.is_subscribed(channel.as_str()) {
        return None;
    }
    let kind = ChannelKind::from_name(channel.as_str());
    let mut user_id: Option<String> = None;
    if kind.is_presence() {
        match conn.remove_presence(channel.as_str()) {
            Some((uid, _)) => {
                user_id = Some(uid);
            },
            None => {},
        }
    }
    conn.remove_channel(channel.as_str());
    Some(Leave { channel: channel.clone(), user_id })
}

/// The channels that a closing connection leaves, each with the user whose presence
/// membership it held there.
pub fn closing_leaves(conn: &WsConnection) -> (r: Vec<Leave>)
    requires
        conn.wf(),
    ensures
        r@.len() == conn.channels().len(),
        forall|i: int| 0 <= i < r@.len() ==> conn.channels().contains(#[trigger] r@[i].channel@)
            && crate::protocol::messages::opt_text(r@[i].user_id) == presence_user(*conn, r@[i].channel@),
        forall|i: int, j: int| 0 <= i < j < r@.len() ==> (#[trigger] r@[i]).channel@ != (#[trigger] r@[j]).channel@,
{
    let channels = conn.get_channels();
    let ghost cs = crate::text::views(channels@);
    proof {
        cs.unique_seq_to_set();
    }
    let mut r: Vec<Leave> = Vec::new();
    let mut i: usize = 0;
    while i < channels.len()
        invariant
            i <= channels@.len(),
            cs == crate::text::views(channels@),
            cs.to_set() == conn.channels(),
            cs.no_duplicates(),
            conn.wf(),
            r@.len() == i,
            forall|k: int| 0 <= k < i ==> (#[trigger] r@[k]).channel@ == cs[k]
                && crate::protocol::messages::opt_text(r@[k].user_id) == presence_user(*conn, cs[k]),
        decreases channels@.len() - i,
    {
        let channel = &channels[i];
        let kind = ChannelKind::from_name(channel.as_str());
        let mut user_id: Option<String> = None;
        if kind.is_presence() {
            match conn.get_presence(channel.as_str()) {
                Some(m) => {
                    user_id = Some(m.0.clone());
                },
                None => {},
            }
        }
        r.push(Leave { channel: channel.clone(), user_id });
        i = i + 1;
    }
    proof {
        assert forall|k: int| 0 <= k < r@.len() implies conn.channels().contains(#[trigger] r@[k].channel@) by {
            assert(cs.contains(cs[k]));
        }
    }
    r
}

/// After a socket left a channel: `member_removed` to the others and as a webhook when it
/// held the last socket of its user there (`user_gone`), the `channel_vacated` check when it
/// was the channel's last subscriber here, and the subscription count when the app reports it.
pub open spec fn spec_leave_effects(
    app: App,
    socket_id: Seq<char>,
    channel: Seq<char>,
    user_id: Option<Seq<char>>,
    user_gone: bool,
    vacated: bool,
) -> Seq<EffectView> {
    (match user_id {
        Some(u) => if user_gone {
            seq![
                EffectView::Broadcast(
                    channel,
                    channel_message("pusher_internal:member_removed"@, channel, member_removed_data(u)),
                    Some(socket_id),
                ),
                EffectView::Webhook(webhook_view("member_removed"@, channel, Some(u))),
            ]
        } else {
            Seq::empty()
        },
        None => Seq::empty(),
    }) + (if vacated { seq![EffectView::VacatedWebhook(channel)] } else { Seq::empty() }) + (
    if app.enable_subscription_count_webhook && !spec_is_presence(spec_kind(channel)) {
        seq![EffectView::SubscriptionCountWebhook(channel)]
    } else {
        Seq::empty()
    })
}

/// The effects of a socket leaving a channel, by unsubscribe or by closing.
pub fn leave_effects(app: &App, socket_id: &str, leave: &Leave, user_gone: bool, vacated: bool) -> (r: Vec<Effect>)
    ensures
        effects_view(r@) == spec_leave_effects(
            *app,
            socket_id@,
            leave.channel@,
            crate::protocol::messages::opt_text(leave.user_id),
            user_gone,
            vacated,
        ),
{
    let mut r: Vec<Effect> = Vec::new();
    let channel = leave.channel.as_str();
    match &leave.user_id {
        Some(u) => {
            if user_gone {
                let removed = ServerMessage::member_removed(channel, u.as_str());
                push_effect(&mut r, Effect::Broadcast(leave.channel.clone(), removed, Some(to_string(socket_id))));
                push_effect(&mut r, Effect::Webhook(WebhookEvent::member_removed(channel, u.as_str())));
            }
        },
        None => {},
    }
    if vacated {
        push_effect(&mut r, Effect::VacatedWebhook(leave.channel.clone()));
    }
    if crate::webhook::wants_subscription_count_webhook(app.enable_subscription_count_webhook, channel) {
        push_effect(&mut r, Effect::SubscriptionCountWebhook(leave.channel.clone()));
    }
    assert(effects_view(r@) =~= spec_leave_effects(
        *app,
        socket_id@,
        leave.channel@,
        crate::protocol::messages::opt_text(leave.user_id),
        user_gone,
        vacated,
    ));
    r
}

/// The outcome of a signin, in the order of its checks: user authentication enabled, the
/// data object, its `auth` and `user_data` strings, the token, the decoded `user_data` and
/// its `id`. On success the user is recorded and confirmed.
pub open spec fn spec_signin(
    app: App,
    socket_id: Seq<char>,
    data: Option<Seq<(String, JsonValue)>>,
    user_data: Option<JsonValue>,
) -> Result<(Seq<char>, JsonValue, Seq<char>), Seq<char>> {
    if !app.enable_user_authentication {
        Err("User authentication is not enabled"@)
    } else {
        match data {
            None => Err("Invalid signin data"@),
            Some(d) => match str_field(d, "auth"@) {
                None => Err("No auth provided"@),
                Some(auth) => match str_field(d, "user_data"@) {
                    None => Err("No user_data provided"@),
                    Some(ud) => if !auth_token_valid(app.key@, app.secret@, signin_auth_message(socket_id, ud), auth) {
                        Err("Signin authentication failed"@)
                    } else {
                        match user_data {
                            None => Err("Invalid user_data JSON"@),
                            Some(v) => match value_field(v, "id"@) {
                                None => Err("user_data must contain id"@),
                                Some(idv) => match id_text(idv) {
                                    None => Err("user_data must contain id"@),
                                    Some(id) => Ok((id, v, ud)),
                                },
                            },
                        }
                    },
                },
            },
        }
    }
}

/// Signs a connection in as a user. `user_data` is the value that the data's `user_data`
/// text decodes to, if it decodes. A refusal leaves the connection as it was.
pub fn signin(app: &App, conn: &mut WsConnection, data: Option<&Vec<(String, JsonValue)>>, user_data: Option<JsonValue>) -> (r: Vec<Effect>)
    ensures
        final(conn).socket_id == old(conn).socket_id,
        final(conn).channels() == old(conn).channels(),
        final(conn).presence_of() == old(conn).presence_of(),
        final(conn).is_pinged() == old(conn).is_pinged(),
        final(conn).closing() == old(conn).closing(),
        final(conn).wf() == old(conn).wf(),
        match spec_signin(*app, old(conn).socket_id@, match data { Some(d) => Some(d@), None => None }, user_data) {
            Err(text) => effects_view(r@) == seq![err(text)] && final(conn).user == old(conn).user
                && final(conn).user_authenticated == old(conn).user_authenticated,
            Ok((id, v, ud)) => {
                &&& effects_view(r@) == seq![
                    EffectView::AddUser(id),
                    EffectView::Send(
                        (MessageView {
                            event: "pusher:signin_success"@,
                            data: Some(crate::json::json_str(signin_data(ud))),
                            channel: None,
                            user_id: None,
                        }),
                    ),
                ]
                &&& final(conn).user matches Some(u) && u.id@ == id && u.user_data == v
                &&& final(conn).user_authenticated
            },
        },
{
    if !app.enable_user_authentication {
        return error_effects("User authentication is not enabled");
    }
    let d = match data {
        Some(d) => d,
        None => return error_effects("Invalid signin data"),
    };
    let auth = match get_str_field(d, "auth") {
        Some(a) => a,
        None => return error_effects("No auth provided"),
    };
    let ud = match get_str_field(d, "user_data") {
        Some(u) => u,
        None => return error_effects("No user_data provided"),
    };
    if !verify_signin_auth(app.key.as_str(), app.secret.as_str(), conn.socket_id.as_str(), ud.as_str(), auth.as_str()) {
        return error_effects("Signin authentication failed");
    }
    let value = match user_data {
        Some(v) => v,
        None => return error_effects("Invalid user_data JSON"),
    };
    let id = match get_value_field(&value, "id") {
        Some(idv) => match id_string(idv) {
            Some(id) => id,
            None => return error_effects("user_data must contain id"),
        },
        None => return error_effects("user_data must contain id"),
    };
    let mut r: Vec<Effect> = Vec::new();
    push_effect(&mut r, Effect::AddUser(id.clone()));
    push_effect(&mut r, Effect::Send(ServerMessage::signin_success(ud.as_str())));
    conn.user = Some(UserInfo { id, user_data: value });
    conn.user_authenticated = true;
    r
}


/// The checks of a client event before its rate limit, in order: client events enabled for
/// the app, a channel given, subscribed to it, and, when the app lets only members send,
/// a presence member there. The refusal, if one applies.
pub open spec fn spec_client_precheck(app: App, conn: WsConnection, channel: Option<Seq<char>>) -> Option<EffectView> {
    if app.client_event_mode@ == "none"@ {
        Some(err_code("Client events are not enabled for this app"@, OVER_CAPACITY))
    } else {
        match channel {
            None => Some(err("No channel provided"@)),
            Some(c) => if !conn.channels().contains(c) {
                Some(err("Not subscribed to channel"@))
            } else if app.client_event_mode@ == "members"@ && (!spec_is_presence(spec_kind(c))
                || !conn.presence_of().contains_key(c)) {
                Some(err_code("Client events require presence channel membership"@, OVER_CAPACITY))
            } else {
                None
            },
        }
    }
}

/// A client event past its prechecks, with the rate limiter's answer: refused when over
/// the rate, for a name without `client-` or too long, or for too large a payload;
/// otherwise reported as a webhook and sent to the channel's other subscribers, with the
/// sender's presence user.
pub open spec fn spec_client_send(
    app: App,
    conn: WsConnection,
    event: Seq<char>,
    channel: Seq<char>,
    data: JsonValue,
    rate_ok: bool,
) -> Seq<EffectView> {
    let user_id = if conn.presence_of().contains_key(channel) { Some(conn.presence_of()[channel].0@) } else { None };
    if !rate_ok {
        seq![err_code("Rate limit exceeded"@, OVER_CAPACITY)]
    } else if !has_prefix(event, "client-"@) {
        seq![err("Client event must start with 'client-'"@)]
    } else if byte_len(event) > app.max_event_name_length {
        seq![err("Event name too long"@)]
    } else if cap(estimate(data)) > (app.max_event_payload_in_kb as int) * 1024 {
        seq![err("Event payload too large"@)]
    } else {
        seq![
            EffectView::Webhook(WebhookView {
                name: "client_event"@,
                channel,
                user_id,
                data: Some(json_text(data)),
                event: Some(event),
                socket_id: Some(conn.socket_id@),
                subscription_count: None,
            }),
            EffectView::Broadcast(
                channel,
                MessageView { event, data: Some(json_text(data)), channel: Some(channel), user_id },
                Some(conn.socket_id@),
            ),
        ]
    }
}

/// A client event handled with a given answer of the rate limiter.
pub open spec fn spec_client_event(app: App, conn: WsConnection, msg: ClientMessage, rate_ok: bool) -> Seq<EffectView> {
    match spec_client_precheck(app, conn, opt_text(msg.channel)) {
        Some(e) => seq![e],
        None => spec_client_send(app, conn, msg.event@, opt_text(msg.channel)->0, msg.data, rate_ok),
    }
}

fn client_precheck(app: &App, conn: &WsConnection, channel: &Option<String>) -> (r: Option<Vec<Effect>>)
    requires
        conn.wf(),
    ensures
        match spec_client_precheck(*app, *conn, opt_text(*channel)) {
            Some(e) => r matches Some(es) && effects_view(es@) == seq![e],
            None => r is None,
        },
{
    if str_eq(app.client_event_mode.as_str(), "none") {
        return Some(error_code_effects("Client events are not enabled for this app", OVER_CAPACITY));
    }
    let c = match channel {
        Some(c) => c,
        None => return Some(error_effects("No channel provided")),
    };
    if !conn.is_subscribed(c.as_str()) {
        return Some(error_effects("Not subscribed to channel"));
    }
    if str_eq(app.client_event_mode.as_str(), "members") {
        let kind = ChannelKind::from_name(c.as_str());
        if !kind.is_presence() || conn.get_presence(c.as_str()).is_none() {
            return Some(error_code_effects("Client events require presence channel membership", OVER_CAPACITY));
        }
    }
    None
}

/// The effects of a client event, given the rate limiter's answer.
pub fn client_event_effects(app: &App, conn: &WsConnection, msg: &ClientMessage, rate_ok: bool) -> (r: Vec<Effect>)
    requires
        conn.wf(),
    ensures
        effects_view(r@) == spec_client_event(*app, *conn, *msg, rate_ok),
{
    match client_precheck(app, conn, &msg.channel) {
        Some(es) => return es,
        None => {},
    }
    let channel = match &msg.channel {
        Some(c) => c,
        None => return Vec::new(),
    };
    if !rate_ok {
        return error_code_effects("Rate limit exceeded", OVER_CAPACITY);
    }
    if !starts_with(msg.event.as_str(), "client-") {
        return error_effects("Client event must start with 'client-'");
    }
    if msg.event.as_str().len() > app.max_event_name_length {
        return error_effects("Event name too long");
    }
    if (estimate_json_size(&msg.data) as u128) > (app.max_event_payload_in_kb as u128) * 1024 {
        return error_effects("Event payload too large");
    }
    let user_id: Option<String> = match conn.get_presence(channel.as_str()) {
        Some(m) => Some(m.0.clone()),
        None => None,
    };
    let data_text = to_json_text(&msg.data);
    let mut r: Vec<Effect> = Vec::new();
    let user_ref: Option<&str> = match &user_id {
        Some(u) => Some(u.as_str()),
        None => None,
    };
    push_effect(&mut r, Effect::Webhook(WebhookEvent::client_event(
        channel.as_str(),
        msg.event.as_str(),
        data_text.as_str(),
        conn.socket_id.as_str(),
        user_ref,
    )));
    let forward = ServerMessage::channel_event(msg.event.as_str(), channel.as_str(), data_text, user_id);
    push_effect(&mut r, Effect::Broadcast(channel.clone(), forward, Some(conn.socket_id.clone())));
    assert(effects_view(r@) =~= spec_client_event(*app, *conn, *msg, rate_ok));
    r
}

/// Handles a client event: after the prechecks, the socket's rate limiter is asked, then
/// the event is checked and forwarded (`client_event_effects`). An unlimited app, and a
/// socket without a limiter yet, always pass the limiter; otherwise the effects are those of
/// the limiter's answer, whichever it is. The limiter is only asked, and only gets a limiter
/// for the socket (with the quota of the app's limit), when the prechecks pass.
pub fn handle_client_event(app: &App, conn: &WsConnection, limiter: &mut LocalRateLimiter, msg: &ClientMessage) -> (r: Vec<Effect>)
    requires
        conn.wf(),
        app.max_client_events_per_sec > 0 && !old(limiter).client().contains(conn.socket_id@)
            ==> quota_of(app.max_client_events_per_sec) != 0,
    ensures
        exists|ok: bool| effects_view(r@) == spec_client_event(*app, *conn, *msg, ok),
        app.max_client_events_per_sec <= 0 || !old(limiter).client().contains(conn.socket_id@)
            ==> effects_view(r@) == spec_client_event(*app, *conn, *msg, true),
        final(limiter).client() == (if spec_client_precheck(*app, *conn, opt_text(msg.channel)) is Some {
            old(limiter).client()
        } else {
            keys_after_check(old(limiter).client(), conn.socket_id@, app.max_client_events_per_sec)
        }),
        final(limiter).client_quotas() == (if spec_client_precheck(*app, *conn, opt_text(msg.channel)) is Some {
            old(limiter).client_quotas()
        } else {
            quotas_after_check(old(limiter).client_quotas(), old(limiter).client(), conn.socket_id@, app.max_client_events_per_sec)
        }),
        final(limiter).backend() == old(limiter).backend(),
        final(limiter).read() == old(limiter).read(),
        final(limiter).backend_quotas() == old(limiter).backend_quotas(),
        final(limiter).read_quotas() == old(limiter).read_quotas(),
{
    match client_precheck(app, conn, &msg.channel) {
        Some(es) => {
            assert(effects_view(es@) == spec_client_event(*app, *conn, *msg, true));
            return es;
        },
        None => {},
    }
    let ok = limiter.check_client_event(conn.socket_id.as_str(), app.max_client_events_per_sec);
    client_event_effects(app, conn, msg, ok)
}


/// A subscription goes ahead only on a valid channel name that the connection is not yet
/// subscribed to, with the kind the name gives; a private channel only with a valid token
/// for the socket and channel, a presence channel only with a valid token that also signs
/// its `channel_data`.
pub proof fn law_join_needs_valid_channel_and_token(
    app: App,
    socket_id: Seq<char>,
    subscribed: Set<Seq<char>>,
    data: Option<Seq<(String, JsonValue)>>,
    channel_data: Option<JsonValue>,
)
    ensures
        match spec_begin_subscribe(app, socket_id, subscribed, data, channel_data) {
            StartView::Join(c, k) => {
                &&& valid_channel_name_bytes(vstd::utf8::encode_utf8(c))
                &&& !subscribed.contains(c)
                &&& k == spec_kind(c)
                &&& !spec_is_presence(k)
                &&& spec_is_private(k) ==> (data matches Some(d) && str_field(d, "auth"@) matches Some(a)
                    && auth_token_valid(app.key@, app.secret@, channel_auth_message(socket_id, c, None), a))
            },
            StartView::JoinPresence(c, k, _, _, _) => {
                &&& valid_channel_name_bytes(vstd::utf8::encode_utf8(c))
                &&& !subscribed.contains(c)
                &&& k == spec_kind(c)
                &&& spec_is_presence(k)
                &&& data matches Some(d) && str_field(d, "auth"@) matches Some(a)
                    && str_field(d, "channel_data"@) matches Some(cd)
                    && auth_token_valid(app.key@, app.secret@, channel_auth_message(socket_id, c, Some(cd)), a)
            },
            _ => true,
        },
{
}

/// A client event is never sent back to its sender: every broadcast it makes excepts the
/// sending socket.
pub proof fn law_client_event_not_echoed(app: App, conn: WsConnection, msg: ClientMessage, rate_ok: bool)
    ensures
        forall|i: int| 0 <= i < spec_client_event(app, conn, msg, rate_ok).len() ==>
            (#[trigger] spec_client_event(app, conn, msg, rate_ok)[i] matches EffectView::Broadcast(_, _, ex)
                ==> ex == Some(conn.socket_id@)),
{
}

/// Subscribing to a channel and unsubscribing from it again leaves the connection's channels
/// as they were.
pub proof fn law_subscribe_then_unsubscribe(channels: Set<Seq<char>>, channel: Seq<char>)
    requires
        !channels.contains(channel),
    ensures
        channels.insert(channel).remove(channel) == channels,
{
    assert(channels.insert(channel).remove(channel) =~= channels);
}


/// An effect that reports a presence member as gone: the `pusher_internal:member_removed`
/// message to a channel, or the `member_removed` webhook.
pub open spec fn reports_member_removed(e: EffectView) -> bool {
    ||| (e matches EffectView::Broadcast(_, m, _) && m.event == "pusher_internal:member_removed"@)
    ||| (e matches EffectView::Webhook(w) && w.name == "member_removed"@)
}

/// A socket leaving a channel reports its user as removed exactly when it held the user's
/// last socket there: with a user and `user_gone`, there is such a report, the message goes
/// to that channel past the leaving socket, and the webhook names that user; without
/// `user_gone` (the user is still present through another socket) or without a user, there
/// is none.
pub proof fn law_member_removed_only_when_user_gone(
    app: App,
    socket_id: Seq<char>,
    channel: Seq<char>,
    user_id: Option<Seq<char>>,
    user_gone: bool,
    vacated: bool,
)
    ensures
        ({
            let es = spec_leave_effects(app, socket_id, channel, user_id, user_gone, vacated);
            &&& (exists|i: int| 0 <= i < es.len() && #[trigger] reports_member_removed(es[i]))
                <==> (user_gone && user_id is Some)
            &&& forall|i: int| 0 <= i < es.len() ==> match #[trigger] es[i] {
                EffectView::Broadcast(c, m, ex) => m.event == "pusher_internal:member_removed"@ && c == channel
                    && ex == Some(socket_id),
                EffectView::Webhook(w) => w.name == "member_removed"@ && w.channel == channel && w.user_id == user_id,
                EffectView::VacatedWebhook(c) => c == channel,
                _ => true,
            }
            &&& (exists|i: int| 0 <= i < es.len() && #[trigger] es[i] is VacatedWebhook) <==> vacated
        }),
{
    let es = spec_leave_effects(app, socket_id, channel, user_id, user_gone, vacated);
    if user_gone && user_id is Some {
        assert(reports_member_removed(es[0]));
    }
    if vacated {
        let k = if user_gone && user_id is Some { 2int } else { 0int };
        assert(es[k] is VacatedWebhook);
    }
}

/// Joining a channel whose name starts with `cache-`, in an app that enables cache
/// channels, ends with the replay of the channel's cached event, whatever the rest of the
/// name (public, private, encrypted or presence); a channel without that prefix, or an app
/// without cache channels, gets no replay at all. The same holds of presence joins.
pub proof fn law_cache_channels_replay(
    app: App,
    socket_id: Seq<char>,
    channel: Seq<char>,
    occupied: bool,
    user_id: Seq<char>,
    user_info: Seq<char>,
    is_new: bool,
    members: Seq<(Seq<char>, Seq<char>)>,
)
    ensures
        ({
            let kind = spec_kind(channel);
            let es = spec_join_effects(app, channel, kind, occupied);
            let ps = spec_presence_join_effects(app, socket_id, channel, kind, user_id, user_info, is_new, members, occupied);
            &&& has_prefix(channel, "cache-"@) && app.enable_cache_channels ==> es.last() == EffectView::ReplayCache(channel)
                && ps.last() == EffectView::ReplayCache(channel)
            &&& !(has_prefix(channel, "cache-"@) && app.enable_cache_channels) ==>
                (forall|i: int| 0 <= i < es.len() ==> !(#[trigger] es[i] is ReplayCache))
                && (forall|i: int| 0 <= i < ps.len() ==> !(#[trigger] ps[i] is ReplayCache))
        }),
{
    let kind = spec_kind(channel);
    if has_prefix(channel, "cache-"@) {
        assert(spec_is_cache(kind));
    } else {
        assert(!spec_is_cache(kind));
    }
}

/// A forwarded client event, and its `client_event` webhook, carry the sender's presence
/// user id in the channel when the sender is a presence member there, and no user id
/// otherwise; the message goes to that channel past the sender.
pub proof fn law_client_event_carries_sender_user(app: App, conn: WsConnection, msg: ClientMessage, rate_ok: bool)
    ensures
        msg.channel matches Some(c) ==> ({
            let es = spec_client_event(app, conn, msg, rate_ok);
            let user = if conn.presence_of().contains_key(c@) { Some(conn.presence_of()[c@].0@) } else { None };
            forall|i: int| 0 <= i < es.len() ==> match #[trigger] es[i] {
                EffectView::Broadcast(ch, m, ex) => ch == c@ && m.user_id == user && m.channel == Some(c@)
                    && m.event == msg.event@ && ex == Some(conn.socket_id@),
                EffectView::Webhook(w) => w.user_id == user && w.channel == c@,
                _ => true,
            }
        }),
{
}

} // verus!
