use vstd::prelude::*;

use dashmap::DashMap;

use crate::adapter::local::{ns_or_empty, spec_channel_info, LocalAdapter};
use crate::adapter::namespace::{lists_connections, live_ids, members_or_empty, set_or_empty};
use crate::adapter::ChannelInfo;
use crate::collections::StrSet;
use crate::json::{value_field, get_value_field, JsonNumber, JsonValue};
use crate::protocol::messages::{error_message, json_members, json_object_text, MessageView, ServerMessage};
use crate::sorted::{sorted_from_lists, sorted_listing};
use crate::text::{decimal, u64_to_string, views};
use crate::text::{append, concat, str_eq, to_string};

verus! {

/// `{prefix}:{kind}:{app_id}:{channel}`, the Redis key of a channel's cluster state.
pub open spec fn channel_key(prefix: Seq<char>, kind: Seq<char>, app_id: Seq<char>, channel: Seq<char>) -> Seq<char> {
    prefix + ":"@ + kind + ":"@ + app_id + ":"@ + channel
}

fn key_of(prefix: &str, kind: &str, app_id: &str, channel: &str) -> (r: String)
    ensures
        r@ == channel_key(prefix@, kind@, app_id@, channel@),
{
    let mut s = concat(prefix, ":");
    append(&mut s, kind);
    append(&mut s, ":");
    append(&mut s, app_id);
    append(&mut s, ":");
    append(&mut s, channel);
    s
}

/// The key that the first node to hold a channel's subscribers claims.
pub fn occupancy_key(prefix: &str, app_id: &str, channel: &str) -> (r: String)
    ensures
        r@ == channel_key(prefix@, "occupied"@, app_id@, channel@),
{
    key_of(prefix, "occupied", app_id, channel)
}

/// The key of the hash of a presence channel's members and their infos.
pub fn presence_key(prefix: &str, app_id: &str, channel: &str) -> (r: String)
    ensures
        r@ == channel_key(prefix@, "presence"@, app_id@, channel@),
{
    key_of(prefix, "presence", app_id, channel)
}

/// The key of the hash of a presence channel's members and their socket counts.
pub fn presence_sockets_key(prefix: &str, app_id: &str, channel: &str) -> (r: String)
    ensures
        r@ == channel_key(prefix@, "psock"@, app_id@, channel@),
{
    key_of(prefix, "psock", app_id, channel)
}

/// The key under which a node keeps its stats.
pub fn node_stats_key(prefix: &str, node_id: &str) -> (r: String)
    ensures
        r@ == prefix@ + ":node_stats:"@ + node_id@,
{
    let mut s = concat(prefix, ":node_stats:");
    append(&mut s, node_id);
    s
}

/// The pub/sub channel of broadcasts.
pub fn broadcast_channel(prefix: &str) -> (r: String)
    ensures
        r@ == prefix@ + "#broadcast"@,
{
    concat(prefix, "#broadcast")
}

/// The pub/sub channel of requests.
pub fn request_channel(prefix: &str) -> (r: String)
    ensures
        r@ == prefix@ + "#request"@,
{
    concat(prefix, "#request")
}

/// The pub/sub channel on which a node gets the answers to its requests.
pub fn response_channel(prefix: &str, node_id: &str) -> (r: String)
    ensures
        r@ == prefix@ + "#response"@ + ":"@ + node_id@,
{
    let mut s = concat(prefix, "#response");
    append(&mut s, ":");
    append(&mut s, node_id);
    s
}

/// A node handles the broadcasts of the other nodes, not its own.
pub fn should_handle_broadcast(sender_node: &str, own_node: &str) -> (r: bool)
    ensures
        r == (sender_node@ != own_node@),
{
    !str_eq(sender_node, own_node)
}

/// Whether a channel that lost its last subscriber here has none left in the cluster: none
/// here any more, and no peer reports one (`remote_counts` is `None` when the peers could not
/// be asked, which counts as none).
pub fn globally_vacated(locally_vacated: bool, local_count: usize, remote_counts: Option<&Vec<usize>>) -> (r: bool)
    ensures
        r == (locally_vacated && local_count == 0 && match remote_counts {
            Some(cs) => all_zero(cs@),
            None => true,
        }),
{
    if !locally_vacated || local_count > 0 {
        return false;
    }
    match remote_counts {
        Some(cs) => none_positive(cs),
        None => true,
    }
}

/// Every count is zero.
pub open spec fn all_zero(cs: Seq<usize>) -> bool {
    forall|i: int| 0 <= i < cs.len() ==> cs[i] == 0
}

fn none_positive(cs: &Vec<usize>) -> (r: bool)
    ensures
        r == all_zero(cs@),
{
    let mut i: usize = 0;
    while i < cs.len()
        invariant
            i <= cs@.len(),
            forall|j: int| 0 <= j < i ==> cs@[j] == 0,
        decreases cs@.len() - i,
    {
        if cs[i] > 0 {
            return false;
        }
        i = i + 1;
    }
    true
}

/// The answers gathered for one request to the other nodes; complete once as many came as
/// there were peers.
#[derive(Debug)]
pub struct PendingResponses<P> {
    pub responses: Vec<P>,
    pub expected_count: usize,
    /// Whether the answers were handed to the waiting requester.
    pub delivered: bool,
}

impl<P> PendingResponses<P> {
    pub fn new(expected_count: usize) -> (r: Self)
        ensures
            r.responses@ == Seq::<P>::empty(),
            r.expected_count == expected_count,
            !r.delivered,
    {
        PendingResponses { responses: Vec::new(), expected_count, delivered: false }
    }

    /// Adds an answer; true when this one completes the set, which is then delivered. An
    /// answer after the delivery is kept but delivers nothing.
    pub fn add(&mut self, p: P) -> (r: bool)
        ensures
            final(self).responses@ == old(self).responses@.push(p),
            final(self).expected_count == old(self).expected_count,
            r == (!old(self).delivered && old(self).responses@.len() + 1 >= old(self).expected_count),
            final(self).delivered == (old(self).delivered || r),
    {
        self.responses.push(p);
        if !self.delivered && self.responses.len() >= self.expected_count {
            self.delivered = true;
            true
        } else {
            false
        }
    }
}

/// How long a peer counts as alive after its last message, in milliseconds: two heartbeats.
pub const PEER_TIMEOUT_MS: u64 = 60_000;

/// The peers a node has heard from, with the time (milliseconds of a monotonic clock) of
/// their last message.
pub struct PeerRegistry {
    known_nodes: PeerTimes,
}

/// The concurrent map from peer ids to the time they were last heard from.
pub type PeerTimes = DashMap<String, u64>;

/// What a map of peer times holds.
pub uninterp spec fn peer_times(m: PeerTimes) -> Map<Seq<char>, u64>;

/// `DashMap::new`: no peer known.
#[verifier::external_body]
fn peers_new() -> (r: PeerTimes)
    ensures
        peer_times(r).dom() == Set::<Seq<char>>::empty(),
{
    DashMap::new()
}

/// `DashMap::insert`: the peer was last heard from at `at`.
#[verifier::external_body]
fn peers_insert(m: &mut PeerTimes, node_id: &str, at: u64)
    ensures
        peer_times(*final(m)) == peer_times(*old(m)).insert(node_id@, at),
{
    m.insert(node_id.to_string(), at);
}

/// `DashMap::retain`: keeps exactly the peers alive at `now`.
#[verifier::external_body]
fn peers_retain_alive(m: &mut PeerTimes, now: u64)
    ensures
        peer_times(*final(m)) == peer_times(*old(m)).restrict(
            peer_times(*old(m)).dom().filter(|k: Seq<char>| peer_alive(peer_times(*old(m))[k], now)),
        ),
{
    m.retain(|_, last_seen| is_alive(*last_seen, now));
}

/// `DashMap::iter` over the keys: each known peer once, in the map's order.
#[verifier::external_body]
fn peers_keys(m: &PeerTimes) -> (r: Vec<String>)
    ensures
        crate::text::views(r@).to_set() == peer_times(*m).dom(),
        crate::text::views(r@).no_duplicates(),
{
    m.iter().map(|e| e.key().clone()).collect()
}

/// A peer is alive at `now` if it was heard from less than the timeout ago.
pub open spec fn peer_alive(last_seen: u64, now: u64) -> bool {
    (if now >= last_seen { now - last_seen } else { 0 }) < PEER_TIMEOUT_MS
}

fn is_alive(last_seen: u64, now: u64) -> (r: bool)
    ensures
        r == peer_alive(last_seen, now),
{
    (if now >= last_seen { now - last_seen } else { 0 }) < PEER_TIMEOUT_MS
}

impl PeerRegistry {
    pub closed spec fn nodes(&self) -> Map<Seq<char>, u64> {
        peer_times(self.known_nodes)
    }

    pub fn new() -> (r: Self)
        ensures
            r.nodes() == Map::<Seq<char>, u64>::empty(),
    {
        let r = PeerRegistry { known_nodes: peers_new() };
        assert(r.nodes() =~= Map::<Seq<char>, u64>::empty());
        r
    }

    /// A message came from a peer at `now`.
    pub fn record_peer(&mut self, node_id: &str, now: u64)
        ensures
            final(self).nodes() == old(self).nodes().insert(node_id@, now),
    {
        peers_insert(&mut self.known_nodes, node_id, now);
    }

    /// Forgets the peers not alive at `now` and returns the ids of the others.
    pub fn live_peers(&mut self, now: u64) -> (r: Vec<String>)
        ensures
            final(self).nodes() == old(self).nodes().restrict(
                old(self).nodes().dom().filter(|k: Seq<char>| peer_alive(old(self).nodes()[k], now)),
            ),
            crate::text::views(r@).to_set() == final(self).nodes().dom(),
            crate::text::views(r@).no_duplicates(),
    {
        peers_retain_alive(&mut self.known_nodes, now);
        peers_keys(&self.known_nodes)
    }
}

/// A message that one node publishes for all the others.
#[derive(Debug)]
pub enum BroadcastMessage {
    /// A channel message to deliver to the local subscribers, except one socket.
    ChannelMessage { app_id: String, channel: String, message: String, excepting_id: Option<String> },
    /// Close every connection of a signed-in user.
    TerminateUser { app_id: String, user_id: String },
    /// Keeps the pub/sub connections alive.
    Heartbeat,
}

/// A cross-node question with the node that asks it and the id its answer carries back.
#[derive(Debug)]
pub struct Request {
    pub request_id: String,
    pub sender_node: String,
    pub request_type: RequestType,
}

/// What a node does with a broadcast it received.
pub enum BroadcastAction<'a, C> {
    /// Write the broadcast's message to these connections.
    Deliver(Vec<&'a C>),
    /// Send this error frame to these connections, then close them.
    Terminate(Vec<&'a C>, ServerMessage),
    /// Nothing: a heartbeat, or a message this node published itself.
    Ignore,
}

/// The frame sent to a connection that the server terminates.
pub open spec fn terminated_message() -> MessageView {
    error_message("Connection terminated by server"@, Some(4009u16))
}

/// The error frame sent to a connection before the server closes it.
pub fn terminated_error() -> (r: ServerMessage)
    ensures
        r@ == terminated_message(),
{
    ServerMessage::error("Connection terminated by server", Some(4009))
}

/// The local work a broadcast from `sender_node` asks of the node `own_node`.
pub fn handle_broadcast<'a, C, U>(
    local: &'a LocalAdapter<C, U>,
    own_node: &str,
    sender_node: &str,
    payload: &BroadcastMessage,
) -> (r: BroadcastAction<'a, C>)
    requires
        local.wf(),
    ensures
        sender_node@ == own_node@ ==> r is Ignore,
        sender_node@ != own_node@ ==> match payload {
            BroadcastMessage::ChannelMessage { app_id, channel, excepting_id, .. } => r matches BroadcastAction::Deliver(v)
                && lists_connections(v@, live_ids(
                    set_or_empty(ns_or_empty(local@, app_id@).channels, channel@),
                    ns_or_empty(local@, app_id@).sockets,
                    match excepting_id {
                        Some(e) => Some(e@),
                        None => None,
                    },
                ), ns_or_empty(local@, app_id@).sockets),
            BroadcastMessage::TerminateUser { app_id, user_id } => r matches BroadcastAction::Terminate(v, m)
                && m@ == terminated_message()
                && lists_connections(v@, live_ids(
                    set_or_empty(ns_or_empty(local@, app_id@).users, user_id@),
                    ns_or_empty(local@, app_id@).sockets,
                    None,
                ), ns_or_empty(local@, app_id@).sockets),
            BroadcastMessage::Heartbeat => r is Ignore,
        },
{
    if str_eq(sender_node, own_node) {
        return BroadcastAction::Ignore;
    }
    match payload {
        BroadcastMessage::ChannelMessage { app_id, channel, excepting_id, .. } => {
            let except: Option<&str> = match excepting_id {
                Some(e) => Some(e.as_str()),
                None => None,
            };
            BroadcastAction::Deliver(local.channel_recipients(app_id.as_str(), channel.as_str(), except))
        },
        BroadcastMessage::TerminateUser { app_id, user_id } => {
            let m = terminated_error();
            BroadcastAction::Terminate(local.get_sockets_for_user(app_id.as_str(), user_id.as_str()), m)
        },
        BroadcastMessage::Heartbeat => BroadcastAction::Ignore,
    }
}

/// Whether a user may join a presence channel whose members the cluster keeps: a member
/// already, or the channel is under its member limit.
pub fn presence_admits(already_member: bool, member_count: usize, max_members: usize) -> (r: bool)
    ensures
        r == (already_member || member_count < max_members),
{
    already_member || member_count < max_members
}

/// Whether a socket that joined made its user a new member: the user's socket count in the
/// cluster is now one.
pub fn presence_first_socket(sockets_after: i64) -> (r: bool)
    ensures
        r == (sockets_after == 1),
{
    sockets_after == 1
}

/// Whether a socket that left took its user out of the channel: the user has no socket
/// left in the cluster.
pub fn presence_last_socket(sockets_after: i64) -> (r: bool)
    ensures
        r == (sockets_after <= 0),
{
    sockets_after <= 0
}

/// A question that one node asks the others about their local state.
#[derive(Debug)]
pub enum RequestType {
    GetConnectionCount { app_id: String },
    GetChannels { app_id: String },
    GetChannelSocketCount { app_id: String, channel: String },
    GetChannelInfo { app_id: String, channel: String },
    GetPresenceMembers { app_id: String, channel: String },
    GetPresenceUserCount { app_id: String, channel: String },
    GetChannelSockets { app_id: String, channel: String },
    GetMetrics,
    /// A ping by which a node finds its peers.
    DiscoverPeers,
}

/// A node's answer.
#[derive(Debug)]
pub enum ResponsePayload {
    Count(usize),
    Channels(Vec<String>),
    ChannelInfo { occupied: bool, subscription_count: usize, user_count: Option<usize> },
    /// The members of a presence channel with the JSON text of their infos.
    PresenceMembers(Vec<(String, String)>),
    SocketIds(Vec<String>),
    /// The JSON text of the node's counters.
    Metrics(String),
    Ack,
}

/// `r` lists the presence members `m` as texts: each user once, with the user's info.
pub open spec fn lists_member_texts(r: Seq<(String, String)>, m: Map<Seq<char>, (String, Set<Seq<char>>)>) -> bool {
    &&& r.map_values(|e: (String, String)| e.0@).no_duplicates()
    &&& r.map_values(|e: (String, String)| e.0@).to_set() == m.dom()
    &&& forall|i: int| 0 <= i < r.len() ==> (#[trigger] r[i]).1@ == m[r[i].0@].0@
}

/// The answer that the local state gives to a request; `metrics` is the JSON text of the
/// node's counters, if it keeps them.
pub open spec fn answers<C>(
    local: Map<Seq<char>, crate::adapter::namespace::NamespaceView<C, String>>,
    request: RequestType,
    metrics: Option<Seq<char>>,
    r: ResponsePayload,
) -> bool {
    match request {
        RequestType::GetConnectionCount { app_id } => r matches ResponsePayload::Count(n)
            && n == ns_or_empty(local, app_id@).connection_count,
        RequestType::GetChannels { app_id } => r matches ResponsePayload::Channels(cs)
            && crate::text::views(cs@).no_duplicates()
            && crate::text::views(cs@).to_set() == ns_or_empty(local, app_id@).channels.dom(),
        RequestType::GetChannelSocketCount { app_id, channel } => r matches ResponsePayload::Count(n)
            && n == set_or_empty(ns_or_empty(local, app_id@).channels, channel@).len(),
        RequestType::GetChannelInfo { app_id, channel } => r matches ResponsePayload::ChannelInfo {
            occupied,
            subscription_count,
            user_count,
        } && (ChannelInfo { occupied, subscription_count, user_count }) == (if local.contains_key(app_id@) {
            spec_channel_info(local[app_id@], channel@)
        } else {
            ChannelInfo::spec_default()
        }),
        RequestType::GetPresenceMembers { app_id, channel } => r matches ResponsePayload::PresenceMembers(ms)
            && lists_member_texts(ms@, members_or_empty(ns_or_empty(local, app_id@).presence, channel@)),
        RequestType::GetPresenceUserCount { app_id, channel } => r matches ResponsePayload::Count(n)
            && n == members_or_empty(ns_or_empty(local, app_id@).presence, channel@).len(),
        RequestType::GetChannelSockets { app_id, channel } => r matches ResponsePayload::SocketIds(ids)
            && crate::text::views(ids@).no_duplicates()
            && crate::text::views(ids@).to_set() == set_or_empty(ns_or_empty(local, app_id@).channels, channel@),
        RequestType::GetMetrics => r matches ResponsePayload::Metrics(t) && t@ == match metrics {
            Some(m) => m,
            None => "{}"@,
        },
        RequestType::DiscoverPeers => r is Ack,
    }
}

/// Answers another node's request from the local state.
pub fn handle_request<C>(local: &LocalAdapter<C, String>, request: &RequestType, metrics: Option<String>) -> (r: ResponsePayload)
    requires
        local.wf(),
    ensures
        answers(local@, *request, crate::protocol::messages::opt_text(metrics), r),
{
    match request {
        RequestType::GetConnectionCount { app_id } => ResponsePayload::Count(local.get_connection_count(app_id.as_str())),
        RequestType::GetChannels { app_id } => ResponsePayload::Channels(local.get_channels(app_id.as_str())),
        RequestType::GetChannelSocketCount { app_id, channel } => ResponsePayload::Count(
            local.get_channel_socket_count(app_id.as_str(), channel.as_str()),
        ),
        RequestType::GetChannelInfo { app_id, channel } => {
            let info = local.get_channel_info(app_id.as_str(), channel.as_str());
            ResponsePayload::ChannelInfo {
                occupied: info.occupied,
                subscription_count: info.subscription_count,
                user_count: info.user_count,
            }
        },
        RequestType::GetPresenceMembers { app_id, channel } => {
            let members = local.get_presence_members(app_id.as_str(), channel.as_str());
            let ms = owned_members(&members);
            proof {
                assert(ms@.map_values(|e: (String, String)| e.0@) =~= members@.map_values(|e: (&String, &String)| e.0@));
                let m = members_or_empty(ns_or_empty(local@, app_id@).presence, channel@);
                assert forall|i: int| 0 <= i < ms@.len() implies (#[trigger] ms@[i]).1@ == m[ms@[i].0@].0@ by {
                    assert(*members@[i].1 == m[members@[i].0@].0);
                }
            }
            ResponsePayload::PresenceMembers(ms)
        },
        RequestType::GetPresenceUserCount { app_id, channel } => ResponsePayload::Count(
            local.get_presence_user_count(app_id.as_str(), channel.as_str()),
        ),
        RequestType::GetChannelSockets { app_id, channel } => ResponsePayload::SocketIds(
            local.get_channel_sockets(app_id.as_str(), channel.as_str()),
        ),
        RequestType::GetMetrics => ResponsePayload::Metrics(
            match metrics {
                Some(m) => m,
                None => to_string("{}"),
            },
        ),
        RequestType::DiscoverPeers => ResponsePayload::Ack,
    }
}

/// The members with their infos, as new strings.
fn owned_members(members: &Vec<(&String, &String)>) -> (r: Vec<(String, String)>)
    ensures
        r@.len() == members@.len(),
        forall|i: int| 0 <= i < r@.len() ==> (#[trigger] r@[i]).0@ == members@[i].0@ && r@[i].1@ == members@[i].1@,
{
    let mut r: Vec<(String, String)> = Vec::new();
    let mut i: usize = 0;
    while i < members.len()
        invariant
            i <= members@.len(),
            r@.len() == i,
            forall|j: int| 0 <= j < i ==> (#[trigger] r@[j]).0@ == members@[j].0@ && r@[j].1@ == members@[j].1@,
        decreases members@.len() - i,
    {
        let (k, v) = members[i];
        r.push((k.clone(), v.clone()));
        i = i + 1;
    }
    r
}


/// The gathered answers are delivered once: of two answers added one after the other, at
/// most one delivers.
pub proof fn law_delivered_once(delivered: bool, received: nat, expected: nat)
    ensures
        ({
            let first = !delivered && received + 1 >= expected;
            let second = !(delivered || first) && received + 2 >= expected;
            !(first && second)
        }),
{
}

/// A peer that was just heard from is alive.
pub proof fn law_recorded_peer_alive(now: u64)
    ensures
        peer_alive(now, now),
{
}


/// The members of an object written out: `{` members `}`.
pub open spec fn json_object(es: Seq<(Seq<char>, Seq<char>)>) -> Seq<char> {
    "{"@ + json_members(es) + "}"@
}

/// The socket count of each channel of a namespace, in decimal.
pub open spec fn channel_counts<C, U>(ns: crate::adapter::namespace::NamespaceView<C, U>) -> Map<Seq<char>, Seq<char>> {
    ns.channels.map_values(|s: Set<Seq<char>>| decimal(s.len()))
}

/// An app's stats: its channels' socket counts and its connection count.
pub open spec fn app_stats_json<C, U>(ns: crate::adapter::namespace::NamespaceView<C, U>) -> Seq<char> {
    "{\"channels\":"@ + json_object(sorted_listing(channel_counts(ns))) + ",\"connections\":"@ + decimal(
        ns.connection_count,
    ) + "}"@
}

/// A node's stats, which it publishes for its peers: each app's stats, apps in key order.
pub open spec fn stats_json<C, U>(m: Map<Seq<char>, crate::adapter::namespace::NamespaceView<C, U>>) -> Seq<char> {
    json_object(sorted_listing(m.map_values(|ns: crate::adapter::namespace::NamespaceView<C, U>| app_stats_json(ns))))
}

/// The stats of an app as JSON text.
fn app_stats<C, U>(local: &LocalAdapter<C, U>, app_id: &str) -> (r: String)
    requires
        local.wf(),
    ensures
        r@ == app_stats_json(ns_or_empty(local@, app_id@)),
{
    let ghost ns = ns_or_empty(local@, app_id@);
    let channels = local.get_channels(app_id);
    let mut counts: Vec<String> = Vec::new();
    let mut i: usize = 0;
    while i < channels.len()
        invariant
            local.wf(),
            ns == ns_or_empty(local@, app_id@),
            i <= channels@.len(),
            counts@.len() == i,
            forall|j: int| 0 <= j < i ==> (#[trigger] counts@[j])@ == decimal(set_or_empty(ns.channels, channels@[j]@).len()),
        decreases channels@.len() - i,
    {
        let n = local.get_channel_socket_count(app_id, channels[i].as_str());
        counts.push(u64_to_string(n as u64));
        i = i + 1;
    }
    let m = sorted_from_lists(&channels, &counts);
    proof {
        assert forall|k: Seq<char>| #[trigger] m@.contains_key(k) == channel_counts(ns).contains_key(k) by {
            if m@.contains_key(k) {
                assert(views(channels@).contains(k));
                assert(views(channels@).to_set().contains(k));
            }
            if channel_counts(ns).contains_key(k) {
                assert(views(channels@).to_set().contains(k));
                let j = choose|j: int| 0 <= j < channels@.len() && views(channels@)[j] == k;
                assert(m@.contains_key(channels@[j]@));
            }
        }
        assert forall|k: Seq<char>| #[trigger] m@.contains_key(k) implies m@[k] == channel_counts(ns)[k] by {
            assert(views(channels@).contains(k));
            let j = choose|j: int| 0 <= j < channels@.len() && views(channels@)[j] == k;
            assert(m@.contains_key(channels@[j]@) && m@[channels@[j]@] == counts@[j]@);
            assert(views(channels@).to_set().contains(k));
        }
        assert(m@ =~= channel_counts(ns));
        m.lemma_sorted_listing();
    }
    let cs = json_object_text(&m);
    let mut s = crate::text::to_string("{\"channels\":");
    crate::text::append(&mut s, cs.as_str());
    crate::text::append(&mut s, ",\"connections\":");
    crate::text::push_decimal(&mut s, local.get_connection_count(app_id) as u64);
    crate::text::append(&mut s, "}");
    s
}

/// This node's stats as JSON text, as it publishes them for its peers.
pub fn local_stats_json<C, U>(local: &LocalAdapter<C, U>) -> (r: String)
    requires
        local.wf(),
    ensures
        r@ == stats_json(local@),
{
    let ids = local.get_app_ids();
    let mut texts: Vec<String> = Vec::new();
    let mut i: usize = 0;
    while i < ids.len()
        invariant
            local.wf(),
            i <= ids@.len(),
            texts@.len() == i,
            views(ids@).to_set() == local@.dom(),
            forall|j: int| 0 <= j < i ==> (#[trigger] texts@[j])@ == app_stats_json(ns_or_empty(local@, ids@[j]@)),
        decreases ids@.len() - i,
    {
        texts.push(app_stats(local, ids[i].as_str()));
        i = i + 1;
    }
    let m = sorted_from_lists(&ids, &texts);
    let ghost target = local@.map_values(|ns: crate::adapter::namespace::NamespaceView<C, U>| app_stats_json(ns));
    proof {
        assert forall|k: Seq<char>| #[trigger] m@.contains_key(k) == target.contains_key(k) by {
            if m@.contains_key(k) {
                assert(views(ids@).contains(k));
                assert(views(ids@).to_set().contains(k));
            }
            if target.contains_key(k) {
                assert(views(ids@).to_set().contains(k));
                let j = choose|j: int| 0 <= j < ids@.len() && views(ids@)[j] == k;
                assert(m@.contains_key(ids@[j]@));
            }
        }
        assert forall|k: Seq<char>| #[trigger] m@.contains_key(k) implies m@[k] == target[k] by {
            assert(views(ids@).contains(k));
            let j = choose|j: int| 0 <= j < ids@.len() && views(ids@)[j] == k;
            assert(m@.contains_key(ids@[j]@) && m@[ids@[j]@] == texts@[j]@);
            assert(views(ids@).to_set().contains(k));
        }
        assert(m@ =~= target);
        m.lemma_sorted_listing();
    }
    json_object_text(&m)
}

/// The number that a node's stats give for an app's `connections`: a non-negative integer,
/// else none.
pub open spec fn stats_connections(s: JsonValue, app_id: Seq<char>) -> nat {
    match value_field(s, app_id) {
        Some(a) => match value_field(a, "connections"@) {
            Some(JsonValue::Number(JsonNumber::PosInt(u))) => u as nat,
            _ => 0,
        },
        None => 0,
    }
}

/// The number that a node's stats give for a channel's socket count.
pub open spec fn stats_channel_count(s: JsonValue, app_id: Seq<char>, channel: Seq<char>) -> nat {
    match value_field(s, app_id) {
        Some(a) => match value_field(a, "channels"@) {
            Some(cs) => match value_field(cs, channel) {
                Some(JsonValue::Number(JsonNumber::PosInt(u))) => u as nat,
                _ => 0,
            },
            None => 0,
        },
        None => 0,
    }
}

/// The sum of the first `n` numbers.
pub open spec fn sum_first(xs: Seq<nat>, n: nat) -> nat
    decreases n,
{
    if n == 0 || n > xs.len() { 0 } else { sum_first(xs, (n - 1) as nat) + xs[n - 1] }
}

/// `n` capped at the largest `u64`.
pub open spec fn cap64(n: nat) -> u64 {
    if n <= u64::MAX { n as u64 } else { u64::MAX }
}

fn stat_number(v: Option<&JsonValue>) -> (r: u64)
    ensures
        r == match v {
            Some(JsonValue::Number(JsonNumber::PosInt(u))) => *u,
            _ => 0,
        },
{
    match v {
        Some(JsonValue::Number(JsonNumber::PosInt(u))) => *u,
        _ => 0,
    }
}

/// The connections of an app on the peers, from their stats; the sum stops at the largest
/// `u64`.
pub fn remote_connection_count(stats: &Vec<JsonValue>, app_id: &str) -> (r: u64)
    ensures
        r == cap64(sum_first(stats@.map_values(|s: JsonValue| stats_connections(s, app_id@)), stats@.len() as nat)),
{
    let ghost xs = stats@.map_values(|s: JsonValue| stats_connections(s, app_id@));
    let mut total: u64 = 0;
    let mut i: usize = 0;
    while i < stats.len()
        invariant
            i <= stats@.len(),
            xs == stats@.map_values(|s: JsonValue| stats_connections(s, app_id@)),
            total == cap64(sum_first(xs, i as nat)),
        decreases stats@.len() - i,
    {
        let c = match get_value_field(&stats[i], app_id) {
            Some(a) => stat_number(get_value_field(a, "connections")),
            None => 0,
        };
        assert(c == xs[i as int]);
        total = total.saturating_add(c);
        i = i + 1;
    }
    total
}

/// The sockets of a channel on the peers, from their stats; the sum stops at the largest
/// `u64`.
pub fn remote_channel_socket_count(stats: &Vec<JsonValue>, app_id: &str, channel: &str) -> (r: u64)
    ensures
        r == cap64(sum_first(stats@.map_values(|s: JsonValue| stats_channel_count(s, app_id@, channel@)), stats@.len() as nat)),
{
    let ghost xs = stats@.map_values(|s: JsonValue| stats_channel_count(s, app_id@, channel@));
    let mut total: u64 = 0;
    let mut i: usize = 0;
    while i < stats.len()
        invariant
            i <= stats@.len(),
            xs == stats@.map_values(|s: JsonValue| stats_channel_count(s, app_id@, channel@)),
            total == cap64(sum_first(xs, i as nat)),
        decreases stats@.len() - i,
    {
        let c = match get_value_field(&stats[i], app_id) {
            Some(a) => match get_value_field(a, "channels") {
                Some(cs) => stat_number(get_value_field(cs, channel)),
                None => 0,
            },
            None => 0,
        };
        assert(c == xs[i as int]);
        total = total.saturating_add(c);
        i = i + 1;
    }
    total
}


/// The channels that a node's stats list for an app.
pub open spec fn stats_channel_names(s: JsonValue, app_id: Seq<char>) -> Set<Seq<char>> {
    match value_field(s, app_id) {
        Some(a) => match value_field(a, "channels"@) {
            Some(JsonValue::Object(ms)) => ms@.map_values(|m: (String, JsonValue)| m.0@).to_set(),
            _ => Set::empty(),
        },
        None => Set::empty(),
    }
}

/// The channels of the first `n` peers' stats together.
pub open spec fn union_first(stats: Seq<JsonValue>, app_id: Seq<char>, n: nat) -> Set<Seq<char>>
    decreases n,
{
    if n == 0 || n > stats.len() {
        Set::empty()
    } else {
        union_first(stats, app_id, (n - 1) as nat).union(stats_channel_names(stats[n - 1], app_id))
    }
}

/// The channels of an app in the cluster: this node's and those that the peers' stats list,
/// each once.
pub fn cluster_channels(local: &Vec<String>, stats: &Vec<JsonValue>, app_id: &str) -> (r: Vec<String>)
    ensures
        views(r@).no_duplicates(),
        views(r@).to_set() == views(local@).to_set().union(union_first(stats@, app_id@, stats@.len() as nat)),
{
    let mut all = StrSet::new();
    let mut i: usize = 0;
    while i < local.len()
        invariant
            i <= local@.len(),
            all.wf(),
            all@ == views(local@).take(i as int).to_set(),
        decreases local@.len() - i,
    {
        let _ = all.insert(local[i].clone());
        proof {
            assert(views(local@).take(i + 1) =~= views(local@).take(i as int).push(local@[i as int]@));
            views(local@).take(i as int).lemma_push_to_set_commute(local@[i as int]@);
            assert(all@ =~= views(local@).take(i + 1).to_set());
        }
        i = i + 1;
    }
    assert(views(local@).take(local@.len() as int) =~= views(local@));
    let ghost base = all@;
    let mut j: usize = 0;
    while j < stats.len()
        invariant
            j <= stats@.len(),
            all.wf(),
            all@ == base.union(union_first(stats@, app_id@, j as nat)),
        decreases stats@.len() - j,
    {
        let ghost before = all@;
        match get_value_field(&stats[j], app_id) {
            Some(a) => match get_value_field(a, "channels") {
                Some(JsonValue::Object(ms)) => {
                    let ghost names = ms@.map_values(|m: (String, JsonValue)| m.0@);
                    let mut k: usize = 0;
                    while k < ms.len()
                        invariant
                            k <= ms@.len(),
                            all.wf(),
                            names == ms@.map_values(|m: (String, JsonValue)| m.0@),
                            all@ == before.union(names.take(k as int).to_set()),
                        decreases ms@.len() - k,
                    {
                        let _ = all.insert(ms[k].0.clone());
                        proof {
                            assert(names.take(k + 1) =~= names.take(k as int).push(ms@[k as int].0@));
                            names.take(k as int).lemma_push_to_set_commute(ms@[k as int].0@);
                            assert(all@ =~= before.union(names.take(k + 1).to_set()));
                        }
                        k = k + 1;
                    }
                    assert(names.take(ms@.len() as int) =~= names);
                },
                _ => {
                    assert(before.union(Set::<Seq<char>>::empty()) =~= before);
                },
            },
            None => {
                assert(before.union(Set::<Seq<char>>::empty()) =~= before);
            },
        }
        proof {
            assert(all@ =~= base.union(union_first(stats@, app_id@, (j + 1) as nat)));
        }
        j = j + 1;
    }
    proof {
        all.lemma_members();
    }
    all.to_vec()
}

} // verus!
