use vstd::prelude::*;

use crate::collections::{StrMap, StrSet};
use crate::json::JsonValue;
use crate::text::to_string;

verus! {

/// The user that a connection signed in as.
#[derive(Debug)]
pub struct UserInfo {
    pub id: String,
    pub user_data: JsonValue,
}

/// The state that the server keeps for one WebSocket connection: the channels it
/// subscribed to, its presence membership per channel, the user it signed in as, and
/// the flags of its activity check and forced closing.
#[derive(Debug)]
pub struct WsConnection {
    pub socket_id: String,
    pub subscribed_channels: StrSet,
    /// For presence channels: channel -> (user_id, JSON text of user_info).
    pub presence: StrMap<(String, String)>,
    pub user: Option<UserInfo>,
    /// Whether the connection authenticated, by signin or by a private subscription.
    pub user_authenticated: bool,
    pub pinged: bool,
    pub force_close: bool,
}

impl WsConnection {
    /// The channels the connection is subscribed to.
    pub open spec fn channels(&self) -> Set<Seq<char>> {
        self.subscribed_channels@
    }

    /// The connection's presence membership: channel -> (user id, user info).
    pub open spec fn presence_of(&self) -> Map<Seq<char>, (String, String)> {
        self.presence@
    }

    pub open spec fn is_pinged(&self) -> bool {
        self.pinged
    }

    pub open spec fn closing(&self) -> bool {
        self.force_close
    }

    pub open spec fn wf(&self) -> bool {
        self.subscribed_channels.wf() && self.presence.wf()
    }

    /// A connection is kept apart from the other fields: the same but for its channels.
    pub open spec fn same_but_channels(&self, other: &Self) -> bool {
        &&& self.socket_id == other.socket_id
        &&& self.presence_of() == other.presence_of()
        &&& self.user == other.user
        &&& self.user_authenticated == other.user_authenticated
        &&& self.is_pinged() == other.is_pinged()
        &&& self.closing() == other.closing()
    }

    /// The same but for its presence membership.
    pub open spec fn same_but_presence(&self, other: &Self) -> bool {
        &&& self.socket_id == other.socket_id
        &&& self.channels() == other.channels()
        &&& self.user == other.user
        &&& self.user_authenticated == other.user_authenticated
        &&& self.is_pinged() == other.is_pinged()
        &&& self.closing() == other.closing()
    }

    pub fn new(socket_id: &str) -> (r: Self)
        ensures
            r.wf(),
            r.socket_id@ == socket_id@,
            r.channels() == Set::<Seq<char>>::empty(),
            r.presence_of() == Map::<Seq<char>, (String, String)>::empty(),
            r.user is None,
            !r.user_authenticated,
            !r.is_pinged(),
            !r.closing(),
    {
        WsConnection {
            socket_id: to_string(socket_id),
            subscribed_channels: StrSet::new(),
            presence: StrMap::new(),
            user: None,
            user_authenticated: false,
            pinged: false,
            force_close: false,
        }
    }

    /// Whether the connection should be closed (slow consumer or terminated).
    pub fn should_close(&self) -> (r: bool)
        ensures
            r == self.closing(),
    {
        self.force_close
    }

    /// Marks the connection for closing.
    pub fn force_close(&mut self)
        ensures
            final(self).closing(),
            final(self).socket_id == old(self).socket_id,
            final(self).channels() == old(self).channels(),
            final(self).presence_of() == old(self).presence_of(),
            final(self).user == old(self).user,
            final(self).user_authenticated == old(self).user_authenticated,
            final(self).is_pinged() == old(self).is_pinged(),
            final(self).wf() == old(self).wf(),
    {
        self.force_close = true;
    }

    /// Records that a server ping was sent and a pong is awaited.
    pub fn mark_pinged(&mut self)
        ensures
            final(self).is_pinged(),
            final(self).socket_id == old(self).socket_id,
            final(self).channels() == old(self).channels(),
            final(self).presence_of() == old(self).presence_of(),
            final(self).user == old(self).user,
            final(self).user_authenticated == old(self).user_authenticated,
            final(self).closing() == old(self).closing(),
            final(self).wf() == old(self).wf(),
    {
        self.pinged = true;
    }

    /// Clears the ping flag: the client showed activity.
    pub fn clear_pinged(&mut self)
        ensures
            !final(self).is_pinged(),
            final(self).socket_id == old(self).socket_id,
            final(self).channels() == old(self).channels(),
            final(self).presence_of() == old(self).presence_of(),
            final(self).user == old(self).user,
            final(self).user_authenticated == old(self).user_authenticated,
            final(self).closing() == old(self).closing(),
            final(self).wf() == old(self).wf(),
    {
        self.pinged = false;
    }

    /// The connection is stale if it was pinged and has not answered.
    pub fn is_stale(&self) -> (r: bool)
        ensures
            r == self.is_pinged(),
    {
        self.pinged
    }

    pub fn add_channel(&mut self, channel: String)
        requires
            old(self).wf(),
        ensures
            final(self).wf(),
            final(self).channels() == old(self).channels().insert(channel@),
            final(self).same_but_channels(old(self)),
    {
        let _ = self.subscribed_channels.insert(channel);
    }

    pub fn remove_channel(&mut self, channel: &str)
        requires
            old(self).wf(),
        ensures
            final(self).wf(),
            final(self).channels() == old(self).channels().remove(channel@),
            final(self).same_but_channels(old(self)),
    {
        let _ = self.subscribed_channels.remove(channel);
    }

    pub fn is_subscribed(&self, channel: &str) -> (r: bool)
        requires
            self.wf(),
        ensures
            r == self.channels().contains(channel@),
    {
        self.subscribed_channels.contains(channel)
    }

    /// The subscribed channels, each once.
    pub fn get_channels(&self) -> (r: Vec<String>)
        requires
            self.wf(),
        ensures
            crate::text::views(r@).to_set() == self.channels(),
            crate::text::views(r@).no_duplicates(),
    {
        proof {
            self.subscribed_channels.lemma_members();
        }
        self.subscribed_channels.to_vec()
    }

    /// Records the connection's membership of a presence channel.
    pub fn set_presence(&mut self, channel: String, user_id: String, user_info: String)
        requires
            old(self).wf(),
        ensures
            final(self).wf(),
            final(self).presence_of() == old(self).presence_of().insert(channel@, (user_id, user_info)),
            final(self).same_but_presence(old(self)),
    {
        self.presence.insert(channel, (user_id, user_info));
    }

    /// Forgets the connection's membership of a presence channel and returns it.
    pub fn remove_presence(&mut self, channel: &str) -> (r: Option<(String, String)>)
        requires
            old(self).wf(),
        ensures
            final(self).wf(),
            final(self).presence_of() == old(self).presence_of().remove(channel@),
            final(self).same_but_presence(old(self)),
            r == (if old(self).presence_of().contains_key(channel@) {
                Some(old(self).presence_of()[channel@])
            } else {
                None
            }),
    {
        self.presence.remove(channel)
    }

    /// The connection's membership of a presence channel.
    pub fn get_presence(&self, channel: &str) -> (r: Option<&(String, String)>)
        requires
            self.wf(),
        ensures
            match r {
                Some(m) => self.presence_of().contains_key(channel@) && *m == self.presence_of()[channel@],
                None => !self.presence_of().contains_key(channel@),
            },
    {
        self.presence.get(channel)
    }
}

} // verus!
