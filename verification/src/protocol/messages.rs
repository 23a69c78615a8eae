use vstd::prelude::*;

use crate::json::{json_str, push_json_str, JsonValue};
use crate::sorted::{list_map, pair_views, sorted_from_pairs, sorted_listing, SortedStrMap};
use crate::text::{append, decimal, push_decimal, to_string};

verus! {

/// The pong that answers a client's ping, as sent on the wire.
pub const PONG_JSON: &'static str = "{\"event\":\"pusher:pong\"}";
/// The ping that the server sends to an idle client, as sent on the wire.
pub const PING_JSON: &'static str = "{\"event\":\"pusher:ping\"}";

/// A message received from a WebSocket client, as decoded from its JSON text.
/// `data` is `Null` when the message has none.
#[derive(Debug)]
pub struct ClientMessage {
    pub event: String,
    pub data: JsonValue,
    pub channel: Option<String>,
}

/// A message sent to WebSocket clients. `data` holds the JSON text of the payload;
/// the protocol's own payloads are JSON objects written into a JSON string.
#[derive(Debug, Clone)]
pub struct ServerMessage {
    pub event: String,
    pub data: Option<String>,
    pub channel: Option<String>,
    pub user_id: Option<String>,
}

/// What a server message says, as texts.
pub struct MessageView {
    pub event: Seq<char>,
    pub data: Option<Seq<char>>,
    pub channel: Option<Seq<char>>,
    pub user_id: Option<Seq<char>>,
}

impl View for ServerMessage {
    type V = MessageView;

    open spec fn view(&self) -> MessageView {
        MessageView {
            event: self.event@,
            data: opt_text(self.data),
            channel: opt_text(self.channel),
            user_id: opt_text(self.user_id),
        }
    }
}

/// The `pusher:error` message with a text and, when given, a code.
pub open spec fn error_message(message: Seq<char>, code: Option<u16>) -> MessageView {
    MessageView {
        event: "pusher:error"@,
        data: Some(json_str(error_data(message, code))),
        channel: None,
        user_id: None,
    }
}

/// A message about a channel whose data is a JSON object written into a string.
pub open spec fn channel_message(event: Seq<char>, channel: Seq<char>, inner: Seq<char>) -> MessageView {
    MessageView { event, data: Some(json_str(inner)), channel: Some(channel), user_id: None }
}

/// The text of an optional string.
pub open spec fn opt_text(o: Option<String>) -> Option<Seq<char>> {
    match o {
        Some(s) => Some(s@),
        None => None,
    }
}

/// A string field of a JSON object when there is a value: its `,"name":` head, then the
/// value as a JSON string.
pub open spec fn opt_str_field(head: Seq<char>, value: Option<Seq<char>>) -> Seq<char> {
    match value {
        Some(v) => head + json_str(v),
        None => Seq::empty(),
    }
}

/// The JSON text of a message: its fields in the order `event`, `data`, `channel`,
/// `user_id`, each absent one left out.
pub open spec fn message_json(
    event: Seq<char>,
    data: Option<Seq<char>>,
    channel: Option<Seq<char>>,
    user_id: Option<Seq<char>>,
) -> Seq<char> {
    "{\"event\":"@ + json_str(event) + match data {
        Some(d) => ",\"data\":"@ + d,
        None => Seq::empty(),
    } + opt_str_field(",\"channel\":"@, channel) + opt_str_field(",\"user_id\":"@, user_id) + "}"@
}

/// The payload of `pusher:connection_established`.
pub open spec fn established_data(socket_id: Seq<char>, activity_timeout: nat) -> Seq<char> {
    "{\"activity_timeout\":"@ + decimal(activity_timeout) + ",\"socket_id\":"@ + json_str(socket_id) + "}"@
}

/// The payload of `pusher:error`.
pub open spec fn error_data(message: Seq<char>, code: Option<u16>) -> Seq<char> {
    match code {
        Some(c) => "{\"code\":"@ + decimal(c as nat) + ",\"message\":"@ + json_str(message) + "}"@,
        None => "{\"message\":"@ + json_str(message) + "}"@,
    }
}

/// Texts written as JSON strings and joined with commas.
pub open spec fn json_str_items(ids: Seq<Seq<char>>) -> Seq<char>
    decreases ids.len(),
{
    if ids.len() == 0 {
        Seq::empty()
    } else if ids.len() == 1 {
        json_str(ids[0])
    } else {
        json_str_items(ids.drop_last()) + ","@ + json_str(ids.last())
    }
}

/// The members of a JSON object, `"key":value`, joined with commas; the values are JSON texts.
pub open spec fn json_members(es: Seq<(Seq<char>, Seq<char>)>) -> Seq<char>
    decreases es.len(),
{
    if es.len() == 0 {
        Seq::empty()
    } else if es.len() == 1 {
        json_str(es[0].0) + ":"@ + es[0].1
    } else {
        json_members(es.drop_last()) + ","@ + json_str(es.last().0) + ":"@ + es.last().1
    }
}

/// The payload of a presence channel's `subscription_succeeded`.
pub open spec fn presence_data(ids: Seq<Seq<char>>, hash: Seq<char>, count: nat) -> Seq<char> {
    "{\"presence\":{\"count\":"@ + decimal(count) + ",\"hash\":"@ + hash + ",\"ids\":["@ + json_str_items(ids)
        + "]}}"@
}

/// The payload of `member_added`; the user info is a JSON text.
pub open spec fn member_added_data(user_id: Seq<char>, user_info: Seq<char>) -> Seq<char> {
    "{\"user_id\":"@ + json_str(user_id) + ",\"user_info\":"@ + user_info + "}"@
}

/// The payload of `member_removed`.
pub open spec fn member_removed_data(user_id: Seq<char>) -> Seq<char> {
    "{\"user_id\":"@ + json_str(user_id) + "}"@
}

/// The payload of `pusher:signin_success`.
pub open spec fn signin_data(user_data: Seq<char>) -> Seq<char> {
    "{\"user_data\":"@ + json_str(user_data) + "}"@
}

/// The JSON text of the string `s`, as a new string.
fn json_text_of(s: &str) -> (r: String)
    ensures
        r@ == json_str(s@),
{
    crate::json::json_string(s)
}

/// A JSON string literal holding `s`, wrapped as message data.
fn string_data(s: String) -> (r: Option<String>)
    ensures
        r matches Some(d) && d@ == json_str(s@),
{
    Some(json_text_of(s.as_str()))
}

/// The members of a sorted map as a JSON object whose values are the map's JSON texts.
pub fn json_object_text(members: &SortedStrMap) -> (r: String)
    ensures
        r@ == "{"@ + json_members(members.entries()) + "}"@,
{
    let ghost es = members.entries();
    let mut s = to_string("{");
    let n = members.len();
    let mut i: usize = 0;
    assert(es.take(0) =~= Seq::<(Seq<char>, Seq<char>)>::empty());
    while i < n
        invariant
            n == es.len(),
            es == members.entries(),
            i <= n,
            s@ == "{"@ + json_members(es.take(i as int)),
        decreases n - i,
    {
        let ghost s0 = s@;
        let (k, v) = members.entry_at(i);
        if i > 0 {
            append(&mut s, ",");
        }
        push_json_str(&mut s, k.as_str());
        append(&mut s, ":");
        append(&mut s, v.as_str());
        proof {
            let t = es.take(i + 1);
            assert(t.drop_last() =~= es.take(i as int));
            assert(t.last() == es[i as int]);
            if i == 0 {
                assert(s@ =~= "{"@ + json_members(t));
            } else {
                assert(s@ =~= "{"@ + json_members(t));
            }
        }
        i = i + 1;
    }
    assert(es.take(n as int) =~= es);
    append(&mut s, "}");
    s
}

impl ServerMessage {
    /// Connection established response; its data is a JSON object written into a string.
    pub fn connection_established(socket_id: &str, activity_timeout: u32) -> (r: Self)
        ensures
            r.event@ == "pusher:connection_established"@,
            opt_text(r.data) == Some(json_str(established_data(socket_id@, activity_timeout as nat))),
            r.channel is None,
            r.user_id is None,
    {
        let mut inner = to_string("{\"activity_timeout\":");
        push_decimal(&mut inner, activity_timeout as u64);
        append(&mut inner, ",\"socket_id\":");
        push_json_str(&mut inner, socket_id);
        append(&mut inner, "}");
        ServerMessage {
            event: to_string("pusher:connection_established"),
            data: string_data(inner),
            channel: None,
            user_id: None,
        }
    }

    pub fn pong() -> (r: Self)
        ensures
            r.event@ == "pusher:pong"@,
            r.data is None,
            r.channel is None,
            r.user_id is None,
    {
        ServerMessage { event: to_string("pusher:pong"), data: None, channel: None, user_id: None }
    }

    pub fn ping() -> (r: Self)
        ensures
            r.event@ == "pusher:ping"@,
            r.data is None,
            r.channel is None,
            r.user_id is None,
    {
        ServerMessage { event: to_string("pusher:ping"), data: None, channel: None, user_id: None }
    }

    /// A `pusher:error` with a message and, when given, a code.
    pub fn error(message: &str, code: Option<u16>) -> (r: Self)
        ensures
            r@ == error_message(message@, code),
    {
        let mut inner = String::new();
        match code {
            Some(c) => {
                append(&mut inner, "{\"code\":");
                push_decimal(&mut inner, c as u64);
                append(&mut inner, ",\"message\":");
            },
            None => {
                append(&mut inner, "{\"message\":");
            },
        }
        push_json_str(&mut inner, message);
        append(&mut inner, "}");
        proof {
            match code {
                Some(c) => assert(inner@ =~= error_data(message@, code)),
                None => assert(inner@ =~= error_data(message@, code)),
            }
        }
        ServerMessage { event: to_string("pusher:error"), data: string_data(inner), channel: None, user_id: None }
    }

    pub fn subscription_succeeded(channel: &str) -> (r: Self)
        ensures
            r@ == channel_message("pusher_internal:subscription_succeeded"@, channel@, "{}"@),
    {
        ServerMessage {
            event: to_string("pusher_internal:subscription_succeeded"),
            data: string_data(to_string("{}")),
            channel: Some(to_string(channel)),
            user_id: None,
        }
    }

    /// The presence `subscription_succeeded`: the member ids, the JSON object of their
    /// infos and their number.
    pub fn presence_subscription_succeeded(channel: &str, ids: &Vec<String>, hash: &str, count: usize) -> (r: Self)
        ensures
            r@ == channel_message(
                "pusher_internal:subscription_succeeded"@,
                channel@,
                presence_data(crate::text::views(ids@), hash@, count as nat),
            ),
    {
        let ghost vs = crate::text::views(ids@);
        let mut inner = to_string("{\"presence\":{\"count\":");
        push_decimal(&mut inner, count as u64);
        append(&mut inner, ",\"hash\":");
        append(&mut inner, hash);
        append(&mut inner, ",\"ids\":[");
        let ghost prefix = inner@;
        let mut i: usize = 0;
        assert(vs.take(0) =~= Seq::<Seq<char>>::empty());
        while i < ids.len()
            invariant
                i <= ids@.len(),
                vs == crate::text::views(ids@),
                inner@ == prefix + json_str_items(vs.take(i as int)),
            decreases ids@.len() - i,
        {
            if i > 0 {
                append(&mut inner, ",");
            }
            push_json_str(&mut inner, ids[i].as_str());
            proof {
                let t = vs.take(i + 1);
                assert(t.drop_last() =~= vs.take(i as int));
                assert(t.last() == vs[i as int]);
                assert(inner@ =~= prefix + json_str_items(t));
            }
            i = i + 1;
        }
        assert(vs.take(i as int) =~= vs);
        append(&mut inner, "]}}");
        assert(inner@ =~= presence_data(vs, hash@, count as nat));
        ServerMessage {
            event: to_string("pusher_internal:subscription_succeeded"),
            data: string_data(inner),
            channel: Some(to_string(channel)),
            user_id: None,
        }
    }

    /// `member_added`, with the JSON text of the user info.
    pub fn member_added(channel: &str, user_id: &str, user_info: &str) -> (r: Self)
        ensures
            r@ == channel_message("pusher_internal:member_added"@, channel@, member_added_data(user_id@, user_info@)),
    {
        let mut inner = to_string("{\"user_id\":");
        push_json_str(&mut inner, user_id);
        append(&mut inner, ",\"user_info\":");
        append(&mut inner, user_info);
        append(&mut inner, "}");
        ServerMessage {
            event: to_string("pusher_internal:member_added"),
            data: string_data(inner),
            channel: Some(to_string(channel)),
            user_id: None,
        }
    }

    pub fn member_removed(channel: &str, user_id: &str) -> (r: Self)
        ensures
            r@ == channel_message("pusher_internal:member_removed"@, channel@, member_removed_data(user_id@)),
    {
        let mut inner = to_string("{\"user_id\":");
        push_json_str(&mut inner, user_id);
        append(&mut inner, "}");
        ServerMessage {
            event: to_string("pusher_internal:member_removed"),
            data: string_data(inner),
            channel: Some(to_string(channel)),
            user_id: None,
        }
    }

    /// An event on a channel, with the JSON text of its data.
    pub fn channel_event(event: &str, channel: &str, data: String, user_id: Option<String>) -> (r: Self)
        ensures
            r.event@ == event@,
            opt_text(r.data) == Some(data@),
            opt_text(r.channel) == Some(channel@),
            r.user_id == user_id,
    {
        ServerMessage { event: to_string(event), data: Some(data), channel: Some(to_string(channel)), user_id }
    }

    pub fn cache_miss(channel: &str) -> (r: Self)
        ensures
            r@ == (MessageView { event: "pusher:cache_miss"@, data: None, channel: Some(channel@), user_id: None }),
    {
        ServerMessage {
            event: to_string("pusher:cache_miss"),
            data: None,
            channel: Some(to_string(channel)),
            user_id: None,
        }
    }

    pub fn signin_success(user_data: &str) -> (r: Self)
        ensures
            r@ == (MessageView {
                event: "pusher:signin_success"@,
                data: Some(json_str(signin_data(user_data@))),
                channel: None,
                user_id: None,
            }),
    {
        let mut inner = to_string("{\"user_data\":");
        push_json_str(&mut inner, user_data);
        append(&mut inner, "}");
        ServerMessage { event: to_string("pusher:signin_success"), data: string_data(inner), channel: None, user_id: None }
    }

    /// The JSON text sent on the wire.
    pub fn to_json(&self) -> (r: String)
        ensures
            r@ == message_json(self@.event, self@.data, self@.channel, self@.user_id),
    {
        let mut s = to_string("{\"event\":");
        push_json_str(&mut s, self.event.as_str());
        let ghost s1 = s@;
        match &self.data {
            Some(d) => {
                append(&mut s, ",\"data\":");
                append(&mut s, d.as_str());
            },
            None => {},
        }
        let ghost s2 = s@;
        match &self.channel {
            Some(c) => {
                append(&mut s, ",\"channel\":");
                push_json_str(&mut s, c.as_str());
            },
            None => {},
        }
        let ghost s3 = s@;
        match &self.user_id {
            Some(u) => {
                append(&mut s, ",\"user_id\":");
                push_json_str(&mut s, u.as_str());
            },
            None => {},
        }
        let ghost s4 = s@;
        append(&mut s, "}");
        assert(s@ =~= message_json(self.event@, opt_text(self.data), opt_text(self.channel), opt_text(self.user_id)));
        s
    }
}


/// The object that `data` is, when it is one; when it is a string, the object that its text
/// decodes to, given by the caller as `decoded`.
pub open spec fn data_object(data: JsonValue, decoded: Option<JsonValue>) -> Option<Seq<(String, JsonValue)>> {
    match data {
        JsonValue::Object(ms) => Some(ms@),
        JsonValue::Str(_) => match decoded {
            Some(JsonValue::Object(ms)) => Some(ms@),
            _ => None,
        },
        _ => None,
    }
}

/// The value behind an optional reference.
pub open spec fn deref_value(o: Option<&JsonValue>) -> Option<JsonValue> {
    match o {
        Some(v) => Some(*v),
        None => None,
    }
}

impl ClientMessage {
    /// The message's data as an object: the data itself, or, when it is a string, the
    /// decoded text (`decoded`), if that is an object.
    pub fn extract_data<'a>(&'a self, decoded: Option<&'a JsonValue>) -> (r: Option<&'a Vec<(String, JsonValue)>>)
        ensures
            match r {
                Some(ms) => data_object(self.data, deref_value(decoded)) == Some(ms@),
                None => data_object(self.data, deref_value(decoded)) is None,
            },
    {
        match &self.data {
            JsonValue::Object(ms) => Some(ms),
            JsonValue::Str(_) => match decoded {
                Some(JsonValue::Object(ms)) => Some(ms),
                _ => None,
            },
            _ => None,
        }
    }
}

/// The ids of a member list.
pub open spec fn member_ids(ms: Seq<(Seq<char>, Seq<char>)>) -> Seq<Seq<char>> {
    ms.map_values(|m: (Seq<char>, Seq<char>)| m.0)
}

/// The presence `subscription_succeeded` for a list of members (id, JSON text of the info):
/// the ids in list order, the infos as an object in key order, and the number of members.
pub open spec fn presence_message(channel: Seq<char>, ms: Seq<(Seq<char>, Seq<char>)>) -> MessageView {
    channel_message(
        "pusher_internal:subscription_succeeded"@,
        channel,
        presence_data(member_ids(ms), "{"@ + json_members(sorted_listing(list_map(ms))) + "}"@, ms.len()),
    )
}

/// The presence `subscription_succeeded` for the members of a channel.
pub fn presence_succeeded(channel: &str, members: &Vec<(&String, &String)>) -> (r: ServerMessage)
    ensures
        r@ == presence_message(channel@, pair_views(members@)),
{
    let mut ids: Vec<String> = Vec::new();
    let mut i: usize = 0;
    while i < members.len()
        invariant
            i <= members@.len(),
            crate::text::views(ids@) == member_ids(pair_views(members@)).take(i as int),
        decreases members@.len() - i,
    {
        let ghost before = ids@;
        let id: String = members[i].0.clone();
        assert(id@ == pair_views(members@)[i as int].0);
        ids.push(id);
        assert(crate::text::views(ids@) =~= crate::text::views(before).push(id@));
        assert(member_ids(pair_views(members@)).take(i + 1) =~= member_ids(pair_views(members@)).take(i as int).push(id@));
        i = i + 1;
    }
    assert(member_ids(pair_views(members@)).take(i as int) =~= member_ids(pair_views(members@)));
    let sorted = sorted_from_pairs(members);
    proof {
        sorted.lemma_sorted_listing();
    }
    let hash = json_object_text(&sorted);
    ServerMessage::presence_subscription_succeeded(channel, &ids, hash.as_str(), members.len())
}

} // verus!
