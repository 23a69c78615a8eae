use vstd::prelude::*;

use crate::auth::{sign, spec_sign};
use crate::json::{json_str, push_json_str};
use crate::protocol::channels::{spec_is_presence, spec_kind, ChannelKind};
use crate::protocol::messages::{opt_str_field, opt_text};
use crate::text::{append, decimal, push_decimal, to_string};

verus! {

/// An event reported to an app's webhook.
#[derive(Debug, Clone)]
pub struct WebhookEvent {
    pub name: String,
    pub channel: String,
    pub user_id: Option<String>,
    /// The JSON text of a client event's data.
    pub data: Option<String>,
    pub event: Option<String>,
    pub socket_id: Option<String>,
    pub subscription_count: Option<usize>,
}

/// What a webhook event says, as texts.
pub struct WebhookView {
    pub name: Seq<char>,
    pub channel: Seq<char>,
    pub user_id: Option<Seq<char>>,
    pub data: Option<Seq<char>>,
    pub event: Option<Seq<char>>,
    pub socket_id: Option<Seq<char>>,
    pub subscription_count: Option<usize>,
}

impl View for WebhookEvent {
    type V = WebhookView;

    open spec fn view(&self) -> WebhookView {
        WebhookView {
            name: self.name@,
            channel: self.channel@,
            user_id: opt_text(self.user_id),
            data: opt_text(self.data),
            event: opt_text(self.event),
            socket_id: opt_text(self.socket_id),
            subscription_count: self.subscription_count,
        }
    }
}

/// An event with a name, a channel and, when given, a user.
pub open spec fn webhook_view(name: Seq<char>, channel: Seq<char>, user_id: Option<Seq<char>>) -> WebhookView {
    WebhookView {
        name,
        channel,
        user_id,
        data: None,
        event: None,
        socket_id: None,
        subscription_count: None,
    }
}

/// The JSON text of a webhook event: `name`, `channel`, then each present optional field
/// in the order `user_id`, `data`, `event`, `socket_id`, `subscription_count`.
pub open spec fn event_json(e: WebhookEvent) -> Seq<char> {
    "{\"name\":"@ + json_str(e.name@) + ",\"channel\":"@ + json_str(e.channel@) + opt_str_field(
        ",\"user_id\":"@,
        opt_text(e.user_id),
    ) + opt_str_field(",\"data\":"@, opt_text(e.data)) + opt_str_field(",\"event\":"@, opt_text(e.event))
        + opt_str_field(",\"socket_id\":"@, opt_text(e.socket_id)) + match e.subscription_count {
        Some(n) => ",\"subscription_count\":"@ + decimal(n as nat),
        None => Seq::empty(),
    } + "}"@
}

/// The JSON texts of events joined with commas.
pub open spec fn events_json(es: Seq<WebhookEvent>) -> Seq<char>
    decreases es.len(),
{
    if es.len() == 0 {
        Seq::empty()
    } else if es.len() == 1 {
        event_json(es[0])
    } else {
        events_json(es.drop_last()) + ","@ + event_json(es.last())
    }
}

/// The body posted to a webhook: the time in milliseconds and the batch of events.
pub open spec fn payload_json(time_ms: nat, es: Seq<WebhookEvent>) -> Seq<char> {
    "{\"time_ms\":"@ + decimal(time_ms) + ",\"events\":["@ + events_json(es) + "]}"@
}

/// An event with a name and a channel and nothing else.
pub open spec fn plain_event(e: WebhookEvent, name: Seq<char>, channel: Seq<char>) -> bool {
    e@ == webhook_view(name, channel, None)
}

fn opt_push(s: &mut String, head: &str, v: &Option<String>)
    ensures
        final(s)@ == old(s)@ + opt_str_field(head@, opt_text(*v)),
{
    match v {
        Some(t) => {
            append(s, head);
            push_json_str(s, t.as_str());
        },
        None => {
            assert(old(s)@ + Seq::<char>::empty() =~= old(s)@);
        },
    }
}

fn event_text(s: &mut String, e: &WebhookEvent)
    ensures
        final(s)@ == old(s)@ + event_json(*e),
{
    let ghost s0 = s@;
    append(s, "{\"name\":");
    push_json_str(s, e.name.as_str());
    append(s, ",\"channel\":");
    push_json_str(s, e.channel.as_str());
    opt_push(s, ",\"user_id\":", &e.user_id);
    opt_push(s, ",\"data\":", &e.data);
    opt_push(s, ",\"event\":", &e.event);
    opt_push(s, ",\"socket_id\":", &e.socket_id);
    let ghost s1 = s@;
    match e.subscription_count {
        Some(n) => {
            append(s, ",\"subscription_count\":");
            push_decimal(s, n as u64);
        },
        None => {},
    }
    append(s, "}");
    proof {
        match e.subscription_count {
            Some(n) => assert(s@ =~= s0 + event_json(*e)),
            None => assert(s@ =~= s0 + event_json(*e)),
        }
    }
}

/// The body posted to a webhook for a batch of events.
pub fn webhook_body(time_ms: u64, events: &Vec<WebhookEvent>) -> (r: String)
    ensures
        r@ == payload_json(time_ms as nat, events@),
{
    let mut s = to_string("{\"time_ms\":");
    push_decimal(&mut s, time_ms);
    append(&mut s, ",\"events\":[");
    let ghost prefix = s@;
    let mut i: usize = 0;
    assert(events@.take(0) =~= Seq::<WebhookEvent>::empty());
    while i < events.len()
        invariant
            i <= events@.len(),
            s@ == prefix + events_json(events@.take(i as int)),
        decreases events@.len() - i,
    {
        if i > 0 {
            append(&mut s, ",");
        }
        event_text(&mut s, &events[i]);
        proof {
            let t = events@.take(i + 1);
            assert(t.drop_last() =~= events@.take(i as int));
            assert(t.last() == events@[i as int]);
            assert(s@ =~= prefix + events_json(t));
        }
        i = i + 1;
    }
    assert(events@.take(i as int) =~= events@);
    append(&mut s, "]}");
    s
}

/// The `X-Pusher-Signature` of a webhook body: its hex HMAC-SHA256 under the app secret.
pub fn webhook_signature(secret: &str, body: &str) -> (r: String)
    ensures
        r@ == spec_sign(secret@, body@),
        r@.len() == 64,
{
    sign(secret, body)
}

/// How many times a webhook delivery is tried before the batch is dropped: the first try and
/// up to three retries.
pub const WEBHOOK_ATTEMPTS: u32 = 4;

/// The pause in seconds before delivery attempt `attempt` (counted from 0): none before
/// the first, then `2^attempt` (2, 4 and 8 seconds before the retries).
pub fn retry_delay_secs(attempt: u32) -> (r: u64)
    requires
        attempt < WEBHOOK_ATTEMPTS,
    ensures
        attempt == 0 ==> r == 0,
        attempt == 1 ==> r == 2,
        attempt == 2 ==> r == 4,
        attempt == 3 ==> r == 8,
        r == spec_retry_delay(attempt),
{
    if attempt == 0 {
        0
    } else if attempt == 1 {
        2
    } else if attempt == 2 {
        4
    } else {
        8
    }
}

/// The pause in seconds before delivery attempt `attempt`: none before the first, then
/// 2, 4 and 8 seconds.
pub open spec fn spec_retry_delay(attempt: u32) -> u64 {
    if attempt == 0 {
        0
    } else if attempt == 1 {
        2
    } else if attempt == 2 {
        4
    } else {
        8
    }
}

/// What a delivery does after one attempt.
#[derive(Debug, Clone, Copy, PartialEq, Eq, Structural)]
pub enum DeliveryStep {
    /// The batch was delivered: stop.
    Delivered,
    /// Try again: attempt `attempt`, after `delay_secs` seconds.
    Retry { attempt: u32, delay_secs: u64 },
    /// Every attempt failed: drop the batch.
    GiveUp,
}

/// The step after delivery attempt `attempt`, given the HTTP status of the answer (none
/// when the request itself failed): a 2xx answer ends the delivery; otherwise the next
/// attempt follows after its pause, until `WEBHOOK_ATTEMPTS` attempts have failed.
pub fn after_attempt(attempt: u32, status: Option<u16>) -> (r: DeliveryStep)
    requires
        attempt < WEBHOOK_ATTEMPTS,
    ensures
        (status matches Some(code) && 200 <= code < 300) ==> r == DeliveryStep::Delivered,
        !(status matches Some(code) && 200 <= code < 300) && attempt + 1 < WEBHOOK_ATTEMPTS ==> r == (DeliveryStep::Retry {
            attempt: (attempt + 1) as u32,
            delay_secs: spec_retry_delay((attempt + 1) as u32),
        }),
        !(status matches Some(code) && 200 <= code < 300) && attempt + 1 >= WEBHOOK_ATTEMPTS ==> r == DeliveryStep::GiveUp,
{
    let delivered = match status {
        Some(code) => 200 <= code && code < 300,
        None => false,
    };
    if delivered {
        DeliveryStep::Delivered
    } else if attempt + 1 < WEBHOOK_ATTEMPTS {
        let next = attempt + 1;
        DeliveryStep::Retry { attempt: next, delay_secs: retry_delay_secs(next) }
    } else {
        DeliveryStep::GiveUp
    }
}

/// Whether a `subscription_count` webhook is sent for a channel: only when the app
/// enables it, and never for presence channels.
pub fn wants_subscription_count_webhook(enabled: bool, channel: &str) -> (r: bool)
    ensures
        r == (enabled && !spec_is_presence(spec_kind(channel@))),
{
    if !enabled {
        return false;
    }
    !ChannelKind::from_name(channel).is_presence()
}

impl WebhookEvent {
    fn plain(name: &str, channel: &str) -> (r: Self)
        ensures
            plain_event(r, name@, channel@),
    {
        WebhookEvent {
            name: to_string(name),
            channel: to_string(channel),
            user_id: None,
            data: None,
            event: None,
            socket_id: None,
            subscription_count: None,
        }
    }

    pub fn channel_occupied(channel: &str) -> (r: Self)
        ensures
            plain_event(r, "channel_occupied"@, channel@),
    {
        Self::plain("channel_occupied", channel)
    }

    pub fn channel_vacated(channel: &str) -> (r: Self)
        ensures
            plain_event(r, "channel_vacated"@, channel@),
    {
        Self::plain("channel_vacated", channel)
    }

    pub fn cache_miss(channel: &str) -> (r: Self)
        ensures
            plain_event(r, "cache_miss"@, channel@),
    {
        Self::plain("cache_miss", channel)
    }

    pub fn member_added(channel: &str, user_id: &str) -> (r: Self)
        ensures
            r@ == webhook_view("member_added"@, channel@, Some(user_id@)),
    {
        let mut e = Self::plain("member_added", channel);
        e.user_id = Some(to_string(user_id));
        e
    }

    pub fn member_removed(channel: &str, user_id: &str) -> (r: Self)
        ensures
            r@ == webhook_view("member_removed"@, channel@, Some(user_id@)),
    {
        let mut e = Self::plain("member_removed", channel);
        e.user_id = Some(to_string(user_id));
        e
    }

    /// A client event; `data` is the JSON text of the event's data.
    pub fn client_event(channel: &str, event_name: &str, data: &str, socket_id: &str, user_id: Option<&str>) -> (r: Self)
        ensures
            r.name@ == "client_event"@,
            r.channel@ == channel@,
            opt_text(r.user_id) == crate::websocket::opt_view(user_id),
            opt_text(r.data) == Some(data@),
            opt_text(r.event) == Some(event_name@),
            opt_text(r.socket_id) == Some(socket_id@),
            r.subscription_count is None,
    {
        let mut e = Self::plain("client_event", channel);
        e.user_id = match user_id {
            Some(u) => Some(to_string(u)),
            None => None,
        };
        e.data = Some(to_string(data));
        e.event = Some(to_string(event_name));
        e.socket_id = Some(to_string(socket_id));
        e
    }

    pub fn subscription_count(channel: &str, count: usize) -> (r: Self)
        ensures
            r.name@ == "subscription_count"@,
            r.channel@ == channel@,
            r.subscription_count == Some(count),
            r.user_id is None && r.data is None && r.event is None && r.socket_id is None,
    {
        let mut e = Self::plain("subscription_count", channel);
        e.subscription_count = Some(count);
        e
    }
}

} // verus!
