use vstd::prelude::*;

use crate::app::App;
use crate::auth::{http_request_message, spec_hex_lower, spec_sign};
use crate::http::auth::{body_md5, signed_query, spec_md5, verify_http_signature};
use crate::json::{json_str, json_string, push_json_str};
use crate::protocol::channels::{spec_is_cache, spec_is_presence, spec_kind, ChannelKind};
use crate::protocol::messages::{json_members, json_object_text, MessageView, ServerMessage};
use crate::sorted::{sorted_listing, SortedStrMap};
use crate::text::{append, concat, decimal, has_prefix, push_char, push_decimal, starts_with, str_eq, to_string, views};

verus! {

/// A refused HTTP API request: its status code and error message.
#[derive(Debug)]
pub struct ApiError {
    pub status: u16,
    pub message: String,
}

/// A refusal as plain values.
pub open spec fn api_error(e: ApiError) -> (u16, Seq<char>) {
    (e.status, e.message@)
}

fn api_err(status: u16, message: &str) -> (r: ApiError)
    ensures
        api_error(r) == (status, message@),
{
    ApiError { status, message: to_string(message) }
}

/// The outcome of a check as plain values.
pub open spec fn outcome<T>(r: Result<T, ApiError>) -> Result<(), (u16, Seq<char>)> {
    match r {
        Ok(_) => Ok(()),
        Err(e) => Err(api_error(e)),
    }
}

/// The checks that every signed API request passes, in order: the app exists, the request
/// carries `auth_signature`, the signature is right, and, when the request has a body and
/// a `body_md5` parameter, the body's MD5 matches it.
pub open spec fn spec_authenticate(
    app: Option<App>,
    params: SortedStrMap,
    method: Seq<char>,
    path: Seq<char>,
    body: Option<Seq<u8>>,
) -> Result<(), (u16, Seq<char>)> {
    match app {
        None => Err((404, "App not found"@)),
        Some(a) => if !params@.contains_key("auth_signature"@) {
            Err((401, "Missing auth_signature"@))
        } else if spec_sign(a.secret@, http_request_message(method, path, signed_query(params.entries())))
            != params@["auth_signature"@] {
            Err((401, "Invalid signature"@))
        } else {
            match body {
                Some(b) => if params@.contains_key("body_md5"@) && spec_hex_lower(spec_md5(b)) != params@["body_md5"@] {
                    Err((400, "body_md5 mismatch"@))
                } else {
                    Ok(())
                },
                None => Ok(()),
            }
        },
    }
}

/// Authenticates an API request to an app (`None` when no app has the request's id).
/// `body` is given for the requests whose body is checked against `body_md5`.
pub fn authenticate_request(
    app: Option<&App>,
    params: &SortedStrMap,
    method: &str,
    path: &str,
    body: Option<&[u8]>,
) -> (r: Result<(), ApiError>)
    requires
        params.wf(),
    ensures
        outcome(r) == spec_authenticate(
            match app { Some(a) => Some(*a), None => None },
            *params,
            method@,
            path@,
            match body { Some(b) => Some(b@), None => None },
        ),
{
    let a = match app {
        Some(a) => a,
        None => return Err(api_err(404, "App not found")),
    };
    let sig = match params.get("auth_signature") {
        Some(s) => s,
        None => return Err(api_err(401, "Missing auth_signature")),
    };
    if !verify_http_signature(a.secret.as_str(), method, path, params, sig.as_str()) {
        return Err(api_err(401, "Invalid signature"));
    }
    match body {
        Some(b) => {
            match params.get("body_md5") {
                Some(expected) => {
                    let actual = body_md5(b);
                    if !str_eq(actual.as_str(), expected.as_str()) {
                        return Err(api_err(400, "body_md5 mismatch"));
                    }
                },
                None => {},
            }
            Ok(())
        },
        None => Ok(()),
    }
}

/// The message that an event published through the API sends to a channel: its data, a
/// text, as a JSON string.
pub fn api_event_message(name: &str, channel: &str, data: &str) -> (r: ServerMessage)
    ensures
        r@ == (MessageView { event: name@, data: Some(json_str(data@)), channel: Some(channel@), user_id: None }),
{
    ServerMessage::channel_event(name, channel, json_string(data), None)
}

/// Whether an event published to `channel` is kept as the channel's cached event.
pub fn caches_event(app: &App, channel: &str) -> (r: bool)
    ensures
        r == (spec_is_cache(spec_kind(channel@)) && app.enable_cache_channels),
{
    ChannelKind::from_name(channel).is_cache() && app.enable_cache_channels
}

/// The refusal of a request over the app's rate limit.
pub fn rate_limit_error() -> (r: ApiError)
    ensures
        api_error(r) == (429u16, "Rate limit exceeded"@),
{
    api_err(429, "Rate limit exceeded")
}

/// `/apps/{app_id}` followed by `tail`.
pub open spec fn app_path(app_id: Seq<char>, tail: Seq<char>) -> Seq<char> {
    "/apps/"@ + app_id + tail
}

/// The path that a request to an app's endpoint signs: `/apps/{app_id}` and the endpoint.
pub fn api_path(app_id: &str, tail: &str) -> (r: String)
    ensures
        r@ == app_path(app_id@, tail@),
{
    let mut s = concat("/apps/", app_id);
    append(&mut s, tail);
    s
}

/// The characters that `char::is_whitespace` accepts: Unicode's White_Space.
pub open spec fn is_ws(c: char) -> bool {
    ||| c == '\t' || c == '\n' || c == '\u{0B}' || c == '\u{0C}' || c == '\r' || c == ' '
    ||| c == '\u{85}' || c == '\u{A0}' || c == '\u{1680}'
    ||| ('\u{2000}' as int <= c as int && c as int <= '\u{200A}' as int)
    ||| c == '\u{2028}' || c == '\u{2029}' || c == '\u{202F}' || c == '\u{205F}' || c == '\u{3000}'
}

pub(crate) fn ws(c: char) -> (r: bool)
    ensures
        r == is_ws(c),
{
    c == '\t' || c == '\n' || c == '\u{0B}' || c == '\u{0C}' || c == '\r' || c == ' ' || c == '\u{85}'
        || c == '\u{A0}' || c == '\u{1680}' || ('\u{2000}' <= c && c <= '\u{200A}') || c == '\u{2028}'
        || c == '\u{2029}' || c == '\u{202F}' || c == '\u{205F}' || c == '\u{3000}'
}

/// A text without its leading white space.
pub open spec fn trim_start(t: Seq<char>) -> Seq<char>
    decreases t.len(),
{
    if t.len() > 0 && is_ws(t[0]) { trim_start(t.drop_first()) } else { t }
}

/// A text without its trailing white space.
pub open spec fn trim_end(t: Seq<char>) -> Seq<char>
    decreases t.len(),
{
    if t.len() > 0 && is_ws(t.last()) { trim_end(t.drop_last()) } else { t }
}

/// A text without white space at either end, as `str::trim` gives it.
pub open spec fn trim(t: Seq<char>) -> Seq<char> {
    trim_end(trim_start(t))
}

/// The pieces of a text between commas, as `str::split(',')` gives them: one more than
/// there are commas.
pub open spec fn split_commas(s: Seq<char>) -> Seq<Seq<char>>
    decreases s.len(),
{
    if s.len() == 0 {
        seq![Seq::empty()]
    } else {
        let p = split_commas(s.drop_last());
        if s.last() == ',' {
            p.push(Seq::empty())
        } else {
            p.update(p.len() - 1, p.last().push(s.last()))
        }
    }
}

/// The attributes that an `info` parameter asks for: its comma-separated pieces, trimmed.
pub open spec fn info_attrs(s: Seq<char>) -> Seq<Seq<char>> {
    split_commas(s).map_values(|p: Seq<char>| trim(p))
}

proof fn lemma_split_nonempty(s: Seq<char>)
    ensures
        split_commas(s).len() >= 1,
    decreases s.len(),
{
    if s.len() > 0 {
        lemma_split_nonempty(s.drop_last());
    }
}

/// A part of a text, trimmed.
fn trimmed(t: &Vec<char>) -> (r: String)
    ensures
        r@ == trim(t@),
{
    let n = t.len();
    let mut start: usize = 0;
    assert(t@.skip(0) =~= t@);
    while start < n && ws(t[start])
        invariant
            n == t@.len(),
            start <= n,
            trim_start(t@) == trim_start(t@.skip(start as int)),
        decreases n - start,
    {
        assert(t@.skip(start as int).drop_first() =~= t@.skip(start + 1));
        start = start + 1;
    }
    let ghost u = t@.skip(start as int);
    assert(trim_start(t@) == u);
    let mut end: usize = n;
    assert(u.take(u.len() as int) =~= u);
    while end > start && ws(t[end - 1])
        invariant
            n == t@.len(),
            start <= end <= n,
            u == t@.skip(start as int),
            trim_end(u) == trim_end(u.take(end - start)),
        decreases end - start,
    {
        assert(u.take(end - start).drop_last() =~= u.take(end - start - 1));
        assert(u.take(end - start).last() == t@[end - 1]);
        end = end - 1;
    }
    let mut r = String::new();
    let mut i = start;
    while i < end
        invariant
            start <= i <= end <= n,
            n == t@.len(),
            r@ == t@.subrange(start as int, i as int),
        decreases end - i,
    {
        push_char(&mut r, t[i]);
        assert(t@.subrange(start as int, i + 1) =~= t@.subrange(start as int, i as int).push(t@[i as int]));
        i = i + 1;
    }
    assert(u.take(end - start) =~= t@.subrange(start as int, end as int));
    r
}

/// The attributes that an `info` parameter asks for.
pub fn parse_info(s: &str) -> (r: Vec<String>)
    ensures
        views(r@) == info_attrs(s@),
{
    let sc = crate::text::chars_of(s);
    let mut done: Vec<String> = Vec::new();
    let mut cur: Vec<char> = Vec::new();
    let mut i: usize = 0;
    assert(sc@.take(0) =~= Seq::<char>::empty());
    while i < sc.len()
        invariant
            i <= sc@.len(),
            sc@ == s@,
            split_commas(sc@.take(i as int)).len() >= 1,
            views(done@) == split_commas(sc@.take(i as int)).drop_last().map_values(|p: Seq<char>| trim(p)),
            cur@ == split_commas(sc@.take(i as int)).last(),
        decreases sc@.len() - i,
    {
        let c = sc[i];
        let ghost p = split_commas(sc@.take(i as int));
        assert(sc@.take(i + 1).drop_last() =~= sc@.take(i as int));
        if c == ',' {
            let part = trimmed(&cur);
            let ghost d0 = done@;
            done.push(part);
            assert(views(done@) =~= views(d0).push(trim(p.last())));
            assert(p.push(Seq::<char>::empty()).drop_last() =~= p);
            assert(p.drop_last().map_values(|q: Seq<char>| trim(q)).push(trim(p.last())) =~= p.map_values(|q: Seq<char>| trim(q)));
            cur = Vec::new();
            assert(cur@ =~= Seq::<char>::empty());
        } else {
            cur.push(c);
            assert(p.update(p.len() - 1, p.last().push(c)).drop_last() =~= p.drop_last());
        }
        proof {
            lemma_split_nonempty(sc@.take(i + 1));
        }
        i = i + 1;
    }
    assert(sc@.take(i as int) =~= s@);
    let last = trimmed(&cur);
    let ghost d0 = done@;
    done.push(last);
    proof {
        let p = split_commas(s@);
        assert(views(done@) =~= views(d0).push(trim(p.last())));
        assert(p.drop_last().map_values(|q: Seq<char>| trim(q)).push(trim(p.last())) =~= p.map_values(|q: Seq<char>| trim(q)));
    }
    done
}

/// Whether an `info` parameter asks for `attr`.
pub fn info_has(info: &Vec<String>, attr: &str) -> (r: bool)
    ensures
        r == views(info@).contains(attr@),
{
    let mut i: usize = 0;
    while i < info.len()
        invariant
            i <= info@.len(),
            forall|j: int| 0 <= j < i ==> views(info@)[j] != attr@,
        decreases info@.len() - i,
    {
        if str_eq(info[i].as_str(), attr) {
            assert(views(info@)[i as int] == attr@);
            return true;
        }
        i = i + 1;
    }
    false
}


/// An event published through the HTTP API, as its JSON body gives it.
#[derive(Debug)]
pub struct TriggerRequest {
    pub name: String,
    pub data: String,
    pub channels: Option<Vec<String>>,
    pub channel: Option<String>,
    pub socket_id: Option<String>,
    pub info: Option<String>,
}

/// One event of a batch.
#[derive(Debug)]
pub struct BatchEvent {
    pub name: String,
    pub data: String,
    pub channel: String,
    pub socket_id: Option<String>,
    pub info: Option<String>,
}

/// The JSON body of a batch publish.
#[derive(Debug)]
pub struct BatchRequest {
    pub batch: Vec<BatchEvent>,
}

/// The refusal of an event whose data is over the app's limit.
pub open spec fn payload_too_large(limit: nat) -> (u16, Seq<char>) {
    (413, "The data content of this event exceeds the allowed maximum ("@ + decimal(limit) + ")"@)
}

fn payload_error(limit: usize) -> (r: ApiError)
    ensures
        api_error(r) == payload_too_large(limit as nat),
{
    let mut m = to_string("The data content of this event exceeds the allowed maximum (");
    push_decimal(&mut m, limit as u64);
    append(&mut m, ")");
    ApiError { status: 413, message: m }
}

/// The channels of a published event: its `channels`, or else its one `channel`. Refused
/// when it names none, too many, or when its name or its data is over the app's limits.
pub open spec fn spec_trigger_channels(app: App, req: TriggerRequest) -> Result<Seq<Seq<char>>, (u16, Seq<char>)> {
    let chs: Option<Seq<Seq<char>>> = match req.channels {
        Some(cs) => Some(views(cs@)),
        None => match req.channel {
            Some(c) => Some(seq![c@]),
            None => None,
        },
    };
    match chs {
        None => Err((400, "No channels specified"@)),
        Some(cs) => if cs.len() > app.max_event_channels_at_once {
            Err((400, "Too many channels"@))
        } else if crate::json::byte_len(req.name@) > app.max_event_name_length {
            Err((400, "Event name too long"@))
        } else if crate::json::byte_len(req.data@) > (app.max_event_payload_in_kb as int) * 1024 {
            Err(payload_too_large((app.max_event_payload_in_kb as nat) * 1024))
        } else {
            Ok(cs)
        },
    }
}

/// The channels that an event published through the API goes to, after its checks.
pub fn trigger_channels(app: &App, req: &TriggerRequest) -> (r: Result<Vec<String>, ApiError>)
    requires
        (app.max_event_payload_in_kb as int) * 1024 <= usize::MAX,
    ensures
        match spec_trigger_channels(*app, *req) {
            Ok(cs) => r matches Ok(v) && views(v@) == cs,
            Err(e) => r matches Err(x) && api_error(x) == e,
        },
{
    let channels: Vec<String> = match &req.channels {
        Some(cs) => cs.clone(),
        None => match &req.channel {
            Some(c) => {
                let mut v: Vec<String> = Vec::new();
                v.push(c.clone());
                assert(views(v@) =~= seq![c@]);
                v
            },
            None => return Err(api_err(400, "No channels specified")),
        },
    };
    proof {
        match &req.channels {
            Some(cs) => assert(views(channels@) =~= views(cs@)),
            None => {},
        }
    }
    if channels.len() > app.max_event_channels_at_once {
        return Err(api_err(400, "Too many channels"));
    }
    if req.name.as_str().len() > app.max_event_name_length {
        return Err(api_err(400, "Event name too long"));
    }
    let limit = app.max_event_payload_in_kb * 1024;
    if req.data.as_str().len() > limit {
        return Err(payload_error(limit));
    }
    Ok(channels)
}

/// Which channel counts a response reports: the subscription count when asked for, the user
/// count when asked for and the channel is a presence channel.
pub open spec fn spec_info_fields(want_subscription_count: bool, want_user_count: bool, channel: Seq<char>) -> (bool, bool) {
    (want_subscription_count, want_user_count && spec_is_presence(spec_kind(channel)))
}

/// Which channel counts a response reports for a channel.
pub fn info_fields(want_subscription_count: bool, want_user_count: bool, channel: &str) -> (r: (bool, bool))
    ensures
        r == spec_info_fields(want_subscription_count, want_user_count, channel@),
{
    (want_subscription_count, want_user_count && ChannelKind::from_name(channel).is_presence())
}

/// What an `info` text asks for: the subscription count and the user count.
pub open spec fn spec_wanted(info: Option<Seq<char>>) -> (bool, bool) {
    match info {
        Some(s) => (info_attrs(s).contains("subscription_count"@), info_attrs(s).contains("user_count"@)),
        None => (false, false),
    }
}

/// What an `info` text asks for.
pub fn wanted(info: Option<&str>) -> (r: (bool, bool))
    ensures
        r == spec_wanted(opt_str(info)),
{
    match info {
        Some(s) => {
            let attrs = parse_info(s);
            (info_has(&attrs, "subscription_count"), info_has(&attrs, "user_count"))
        },
        None => (false, false),
    }
}

/// The text of an optional string slice.
pub open spec fn opt_str(o: Option<&str>) -> Option<Seq<char>> {
    match o {
        Some(s) => Some(s@),
        None => None,
    }
}

/// The `info` of a published event: the body's, else the query's.
pub fn trigger_info<'a>(req: &'a TriggerRequest, params: &'a SortedStrMap) -> (r: Option<&'a str>)
    requires
        params.wf(),
    ensures
        opt_str(r) == match req.info {
            Some(i) => Some(i@),
            None => if params@.contains_key("info"@) { Some(params@["info"@]) } else { None },
        },
{
    match &req.info {
        Some(i) => Some(i.as_str()),
        None => match params.get("info") {
            Some(i) => Some(i.as_str()),
            None => None,
        },
    }
}

/// The checks of a batch: its size, then the data of each event.
pub open spec fn spec_validate_batch(app: App, batch: Seq<BatchEvent>) -> Result<(), (u16, Seq<char>)> {
    if batch.len() > app.max_event_batch_size {
        Err((400, "Batch too large"@))
    } else if exists|i: int| 0 <= i < batch.len() && crate::json::byte_len((#[trigger] batch[i]).data@) > (app.max_event_payload_in_kb as int) * 1024 {
        Err(payload_too_large((app.max_event_payload_in_kb as nat) * 1024))
    } else {
        Ok(())
    }
}

/// Checks a batch of events against the app's limits.
pub fn validate_batch(app: &App, batch: &Vec<BatchEvent>) -> (r: Result<(), ApiError>)
    requires
        (app.max_event_payload_in_kb as int) * 1024 <= usize::MAX,
    ensures
        outcome(r) == spec_validate_batch(*app, batch@),
{
    if batch.len() > app.max_event_batch_size {
        return Err(api_err(400, "Batch too large"));
    }
    let limit = app.max_event_payload_in_kb * 1024;
    let mut i: usize = 0;
    while i < batch.len()
        invariant
            i <= batch@.len(),
            batch@.len() <= app.max_event_batch_size,
            limit == (app.max_event_payload_in_kb as int) * 1024,
            forall|j: int| 0 <= j < i ==> crate::json::byte_len((#[trigger] batch@[j]).data@) <= limit,
        decreases batch@.len() - i,
    {
        if batch[i].data.as_str().len() > limit {
            assert(crate::json::byte_len(batch@[i as int].data@) > (app.max_event_payload_in_kb as int) * 1024);
            return Err(payload_error(limit));
        }
        i = i + 1;
    }
    Ok(())
}

/// The `info` of one event of a batch: its own, else the query's.
pub fn batch_event_info<'a>(event: &'a BatchEvent, global: Option<&'a str>) -> (r: Option<&'a str>)
    ensures
        opt_str(r) == match event.info {
            Some(i) => Some(i@),
            None => opt_str(global),
        },
{
    match &event.info {
        Some(i) => Some(i.as_str()),
        None => global,
    }
}

/// A channel listing request: the prefix that the channels must have, and the counts asked for.
#[derive(Debug)]
pub struct ChannelListQuery {
    pub prefix: Option<String>,
    pub subscription_count: bool,
    pub user_count: bool,
}

/// A channel listing request as its query gives it: the user count may be asked only of
/// channels filtered by the `presence-` prefix.
pub open spec fn spec_channel_list_query(params: SortedStrMap) -> Result<(Option<Seq<char>>, bool, bool), (u16, Seq<char>)> {
    let prefix = if params@.contains_key("filter_by_prefix"@) { Some(params@["filter_by_prefix"@]) } else { None };
    let attrs = if params@.contains_key("info"@) { info_attrs(params@["info"@]) } else { Seq::empty() };
    if attrs.contains("user_count"@) && !(prefix matches Some(p) && has_prefix(p, "presence-"@)) {
        Err((400, "user_count is only available for presence channels (use filter_by_prefix=presence-)"@))
    } else {
        Ok((prefix, attrs.contains("subscription_count"@), attrs.contains("user_count"@)))
    }
}

/// Reads a channel listing request from its query.
pub fn channel_list_query(params: &SortedStrMap) -> (r: Result<ChannelListQuery, ApiError>)
    requires
        params.wf(),
    ensures
        match spec_channel_list_query(*params) {
            Ok((p, s, u)) => r matches Ok(q) && crate::protocol::messages::opt_text(q.prefix) == p
                && q.subscription_count == s && q.user_count == u,
            Err(e) => r matches Err(x) && api_error(x) == e,
        },
{
    let prefix: Option<String> = match params.get("filter_by_prefix") {
        Some(p) => Some(p.clone()),
        None => None,
    };
    let attrs: Vec<String> = match params.get("info") {
        Some(i) => parse_info(i.as_str()),
        None => {
            let v: Vec<String> = Vec::new();
            assert(views(v@) =~= Seq::<Seq<char>>::empty());
            v
        },
    };
    let user_count = info_has(&attrs, "user_count");
    if user_count {
        let presence_prefix = match &prefix {
            Some(p) => starts_with(p.as_str(), "presence-"),
            None => false,
        };
        if !presence_prefix {
            return Err(api_err(400, "user_count is only available for presence channels (use filter_by_prefix=presence-)"));
        }
    }
    Ok(ChannelListQuery { prefix, subscription_count: info_has(&attrs, "subscription_count"), user_count })
}

/// Whether a channel is listed under a prefix filter.
pub fn channel_listed(channel: &str, prefix: Option<&str>) -> (r: bool)
    ensures
        r == match prefix {
            Some(p) => has_prefix(channel@, p@),
            None => true,
        },
{
    match prefix {
        Some(p) => starts_with(channel, p),
        None => true,
    }
}

/// The users of a channel can be listed only for presence channels.
pub fn users_channel_check(channel: &str) -> (r: Result<(), ApiError>)
    ensures
        outcome(r) == if spec_is_presence(spec_kind(channel@)) { Ok(()) } else { Err((400u16, "Not a presence channel"@)) },
{
    if ChannelKind::from_name(channel).is_presence() {
        Ok(())
    } else {
        Err(api_err(400, "Not a presence channel"))
    }
}

/// The JSON object of a channel's counts, with `subscription_count` and `user_count` where given.
pub open spec fn counts_json(subscription_count: Option<usize>, user_count: Option<usize>) -> Seq<char> {
    "{"@ + match (subscription_count, user_count) {
        (Some(s), Some(u)) => "\"subscription_count\":"@ + decimal(s as nat) + ",\"user_count\":"@ + decimal(u as nat),
        (Some(s), None) => "\"subscription_count\":"@ + decimal(s as nat),
        (None, Some(u)) => "\"user_count\":"@ + decimal(u as nat),
        (None, None) => Seq::empty(),
    } + "}"@
}

/// The counts that a published event reports for one channel.
pub fn channel_counts_json(subscription_count: Option<usize>, user_count: Option<usize>) -> (r: String)
    ensures
        r@ == counts_json(subscription_count, user_count),
{
    let mut s = to_string("{");
    match subscription_count {
        Some(n) => {
            append(&mut s, "\"subscription_count\":");
            push_decimal(&mut s, n as u64);
            if let Some(u) = user_count {
                append(&mut s, ",\"user_count\":");
                push_decimal(&mut s, u as u64);
            }
        },
        None => {
            if let Some(u) = user_count {
                append(&mut s, "\"user_count\":");
                push_decimal(&mut s, u as u64);
            }
        },
    }
    append(&mut s, "}");
    s
}

/// The answer to a publish: `{}` when no channel reports counts, else the counts of
/// each channel in key order under `channels`.
pub fn trigger_response(channels_info: &SortedStrMap) -> (r: String)
    requires
        channels_info.wf(),
    ensures
        r@ == if channels_info@ == Map::<Seq<char>, Seq<char>>::empty() {
            "{}"@
        } else {
            "{\"channels\":"@ + "{"@ + json_members(sorted_listing(channels_info@)) + "}"@ + "}"@
        },
{
    proof {
        channels_info.lemma_sorted_listing();
    }
    if channels_info.len() == 0 {
        assert(channels_info@ =~= Map::<Seq<char>, Seq<char>>::empty());
        return to_string("{}");
    }
    assert(channels_info@.contains_key(channels_info.entries()[0].0));
    let mut s = to_string("{\"channels\":");
    let inner = json_object_text(channels_info);
    append(&mut s, inner.as_str());
    append(&mut s, "}");
    s
}

/// The answer to a channel listing: the counts of each listed channel in key order under
/// `channels`.
pub fn channels_response(channels_info: &SortedStrMap) -> (r: String)
    requires
        channels_info.wf(),
    ensures
        r@ == "{\"channels\":"@ + "{"@ + json_members(sorted_listing(channels_info@)) + "}"@ + "}"@,
{
    proof {
        channels_info.lemma_sorted_listing();
    }
    let mut s = to_string("{\"channels\":");
    let inner = json_object_text(channels_info);
    append(&mut s, inner.as_str());
    append(&mut s, "}");
    s
}

/// The user objects of a presence channel's members, `{"id":...}`, joined by commas.
pub open spec fn user_items(ids: Seq<Seq<char>>) -> Seq<char>
    decreases ids.len(),
{
    if ids.len() == 0 {
        Seq::empty()
    } else if ids.len() == 1 {
        "{\"id\":"@ + json_str(ids[0]) + "}"@
    } else {
        user_items(ids.drop_last()) + ","@ + "{\"id\":"@ + json_str(ids.last()) + "}"@
    }
}

/// The answer to a presence channel's user listing: one object per member id, in the
/// order given, under `users`.
pub fn users_response(ids: &Vec<String>) -> (r: String)
    ensures
        r@ == "{\"users\":["@ + user_items(views(ids@)) + "]}"@,
{
    let ghost vs = views(ids@);
    let mut s = to_string("{\"users\":[");
    let n = ids.len();
    let mut i: usize = 0;
    assert(vs.take(0) =~= Seq::<Seq<char>>::empty());
    while i < n
        invariant
            n == ids@.len(),
            vs == views(ids@),
            i <= n,
            s@ == "{\"users\":["@ + user_items(vs.take(i as int)),
        decreases n - i,
    {
        let ghost s0 = s@;
        if i > 0 {
            append(&mut s, ",");
        }
        append(&mut s, "{\"id\":");
        push_json_str(&mut s, ids[i].as_str());
        append(&mut s, "}");
        proof {
            assert(vs[i as int] == ids@[i as int]@);
            assert(vs.take(i + 1).drop_last() =~= vs.take(i as int));
            assert(vs.take(i + 1).last() == vs[i as int]);
            if i == 0 {
                assert(vs.take(0) =~= Seq::<Seq<char>>::empty());
                assert(user_items(vs.take(0)) =~= Seq::<char>::empty());
            }
            assert(s@ =~= "{\"users\":["@ + user_items(vs.take(i + 1)));
        }
        i = i + 1;
    }
    assert(vs.take(n as int) =~= vs);
    append(&mut s, "]}");
    assert(s@ =~= "{\"users\":["@ + user_items(views(ids@)) + "]}"@);
    s
}

/// Whether the readiness probe answers OK: always for the single-node adapter; for a
/// cluster adapter, once its subscriptions stand and while the server is not closing.
pub fn ready_ok(local_adapter: bool, adapter_ready: bool, closing: bool) -> (r: bool)
    ensures
        r == (local_adapter || (adapter_ready && !closing)),
{
    local_adapter || (adapter_ready && !closing)
}

/// The text of one batch result: its counts, or `{}` for an event without them.
pub open spec fn batch_item(o: Option<Seq<char>>) -> Seq<char> {
    match o {
        Some(t) => t,
        None => "{}"@,
    }
}

/// The batch results joined by commas.
pub open spec fn batch_items(rs: Seq<Option<Seq<char>>>) -> Seq<char>
    decreases rs.len(),
{
    if rs.len() == 0 {
        Seq::empty()
    } else if rs.len() == 1 {
        batch_item(rs[0])
    } else {
        batch_items(rs.drop_last()) + ","@ + batch_item(rs.last())
    }
}

/// The results of a batch as texts.
pub open spec fn result_views(rs: Seq<Option<String>>) -> Seq<Option<Seq<char>>> {
    rs.map_values(|o: Option<String>| match o {
        Some(t) => Some(t@),
        None => None,
    })
}

/// The answer to a batch publish: `{}` when no event asked for counts, else every
/// event's result in order under `batch`.
pub fn batch_response(results: &Vec<Option<String>>) -> (r: String)
    ensures
        r@ == if exists|i: int| 0 <= i < results@.len() && #[trigger] results@[i] is Some {
            "{\"batch\":["@ + batch_items(result_views(results@)) + "]}"@
        } else {
            "{}"@
        },
{
    let ghost rv = result_views(results@);
    let mut any = false;
    let mut items = String::new();
    let mut i: usize = 0;
    while i < results.len()
        invariant
            i <= results@.len(),
            rv == result_views(results@),
            items@ == batch_items(rv.take(i as int)),
            any == exists|j: int| 0 <= j < i && #[trigger] results@[j] is Some,
        decreases results@.len() - i,
    {
        if i > 0 {
            append(&mut items, ",");
        }
        match &results[i] {
            Some(t) => {
                any = true;
                append(&mut items, t.as_str());
            },
            None => append(&mut items, "{}"),
        }
        proof {
            let t = rv.take(i + 1);
            assert(t.drop_last() =~= rv.take(i as int));
            assert(t.last() == rv[i as int]);
            if i == 0 {
                assert(t.len() == 1);
            }
            if results@[i as int] is Some {
                assert(exists|j: int| 0 <= j < i + 1 && #[trigger] results@[j] is Some);
            }
        }
        i = i + 1;
    }
    assert(rv.take(i as int) =~= rv);
    if any {
        let mut s = to_string("{\"batch\":[");
        append(&mut s, items.as_str());
        append(&mut s, "]}");
        s
    } else {
        to_string("{}")
    }
}


/// Splitting at commas two texts joined by a comma gives the pieces of the first, then
/// those of the second.
proof fn lemma_split_join(s: Seq<char>, t: Seq<char>)
    ensures
        split_commas(s + seq![','] + t) == split_commas(s) + split_commas(t),
    decreases t.len(),
{
    let x = s + seq![','] + t;
    if t.len() == 0 {
        assert(x =~= s.push(','));
        assert(x.drop_last() =~= s);
        assert(split_commas(x) =~= split_commas(s) + split_commas(t));
    } else {
        let td = t.drop_last();
        assert(x.drop_last() =~= s + seq![','] + td);
        lemma_split_join(s, td);
        lemma_split_nonempty(td);
        let a = split_commas(s);
        let q = split_commas(td);
        if t.last() == ',' {
            assert(split_commas(x) =~= a + split_commas(t));
        } else {
            assert((a + q).update((a + q).len() - 1, (a + q).last().push(t.last()))
                =~= a + q.update(q.len() - 1, q.last().push(t.last())));
            assert(split_commas(x) =~= a + split_commas(t));
        }
    }
}

/// Whether some comma-separated piece of a text, trimmed, is `attr`.
pub open spec fn has_piece(s: Seq<char>, attr: Seq<char>) -> bool {
    exists|i: int| 0 <= i < split_commas(s).len() && trim(#[trigger] split_commas(s)[i]) == attr
}

proof fn lemma_attrs_has_piece(s: Seq<char>, attr: Seq<char>)
    ensures
        info_attrs(s).contains(attr) == has_piece(s, attr),
{
    if info_attrs(s).contains(attr) {
        let i = choose|i: int| 0 <= i < info_attrs(s).len() && info_attrs(s)[i] == attr;
        assert(trim(split_commas(s)[i]) == attr);
    }
    if has_piece(s, attr) {
        let i = choose|i: int| 0 <= i < split_commas(s).len() && trim(#[trigger] split_commas(s)[i]) == attr;
        assert(info_attrs(s)[i] == attr);
    }
}

/// An attribute is among the pieces of two texts joined by a comma exactly when it is
/// among the pieces of one of them.
pub proof fn law_pieces_of_join(s: Seq<char>, t: Seq<char>, attr: Seq<char>)
    ensures
        has_piece(s + ","@ + t, attr) == (has_piece(s, attr) || has_piece(t, attr)),
{
    reveal_strlit(",");
    assert(","@ =~= seq![',']);
    lemma_split_join(s, t);
    let a = split_commas(s);
    let b = split_commas(t);
    let x = split_commas(s + ","@ + t);
    assert(x == a + b);
    if has_piece(s + ","@ + t, attr) {
        let i = choose|i: int| 0 <= i < x.len() && trim(#[trigger] x[i]) == attr;
        if i < a.len() {
            assert(x[i] == a[i]);
        } else {
            assert(x[i] == b[i - a.len()]);
        }
    }
    if has_piece(s, attr) {
        let i = choose|i: int| 0 <= i < a.len() && trim(#[trigger] a[i]) == attr;
        assert(x[i] == a[i]);
    }
    if has_piece(t, attr) {
        let i = choose|i: int| 0 <= i < b.len() && trim(#[trigger] b[i]) == attr;
        assert(x[i + a.len()] == b[i]);
    }
}

/// An `info` text asks for the subscription count exactly when one of its comma-separated
/// pieces, trimmed, is `subscription_count`, and for the user count exactly when one is
/// `user_count`, each whatever the other pieces are; so the two asks of texts joined by a
/// comma are those of either text. No `info` asks for nothing.
pub proof fn law_wanted_by_pieces(s: Seq<char>, t: Seq<char>)
    ensures
        spec_wanted(Some(s)).0 == has_piece(s, "subscription_count"@),
        spec_wanted(Some(s)).1 == has_piece(s, "user_count"@),
        spec_wanted(Some(s + ","@ + t)).0 == (spec_wanted(Some(s)).0 || spec_wanted(Some(t)).0),
        spec_wanted(Some(s + ","@ + t)).1 == (spec_wanted(Some(s)).1 || spec_wanted(Some(t)).1),
        spec_wanted(None) == (false, false),
{
    lemma_attrs_has_piece(s, "subscription_count"@);
    lemma_attrs_has_piece(s, "user_count"@);
    lemma_attrs_has_piece(t, "subscription_count"@);
    lemma_attrs_has_piece(t, "user_count"@);
    lemma_attrs_has_piece(s + ","@ + t, "subscription_count"@);
    lemma_attrs_has_piece(s + ","@ + t, "user_count"@);
    law_pieces_of_join(s, t, "subscription_count"@);
    law_pieces_of_join(s, t, "user_count"@);
}

/// A channel listing asks for each channel's subscription count exactly when a piece of
/// its `info` is `subscription_count`, and for the user count exactly when one is
/// `user_count`, whether or not a `filter_by_prefix` is given; the prefix is the one given.
/// A listing is refused exactly when it asks for the user count without a `presence-`
/// prefix filter.
pub proof fn law_listing_query_by_pieces(params: SortedStrMap)
    ensures
        ({
            let info = params@.contains_key("info"@);
            let sc = info && has_piece(params@["info"@], "subscription_count"@);
            let uc = info && has_piece(params@["info"@], "user_count"@);
            let prefix = if params@.contains_key("filter_by_prefix"@) { Some(params@["filter_by_prefix"@]) } else { None };
            &&& spec_channel_list_query(params) matches Ok(q) ==> q == (prefix, sc, uc)
            &&& spec_channel_list_query(params) is Ok
                <==> (!uc || (prefix matches Some(p) && has_prefix(p, "presence-"@)))
        }),
{
    if params@.contains_key("info"@) {
        lemma_attrs_has_piece(params@["info"@], "subscription_count"@);
        lemma_attrs_has_piece(params@["info"@], "user_count"@);
    }
}

} // verus!
