use vstd::prelude::*;

use crate::adapter::namespace::{
    live_ids, lists_connections, lists_members, members_or_empty, set_or_empty, spec_add_presence_member,
    spec_add_to_channel, spec_member_gone, spec_over_member_limit, spec_remove_from_channel,
    spec_remove_presence_member, spec_remove_socket, spec_remove_user, spec_try_add, spec_vacated_by, spec_vacates, Namespace,
    NamespaceView,
};
use crate::adapter::ChannelInfo;
use crate::collections::StrMap;
use crate::protocol::channels::{spec_is_presence, spec_kind, ChannelKind};
use crate::text::{to_string, views};

verus! {

/// The state of an app that has no namespace yet: nothing at all.
pub open spec fn empty_namespace<C, U>() -> NamespaceView<C, U> {
    NamespaceView {
        sockets: Map::empty(),
        connection_count: 0,
        channels: Map::empty(),
        socket_channels: Map::empty(),
        presence: Map::empty(),
        users: Map::empty(),
    }
}

/// The namespace of an app, or the empty one.
pub open spec fn ns_or_empty<C, U>(m: Map<Seq<char>, NamespaceView<C, U>>, app: Seq<char>) -> NamespaceView<C, U> {
    if m.contains_key(app) { m[app] } else { empty_namespace() }
}

/// What a channel query reports for a namespace.
pub open spec fn spec_channel_info<C, U>(ns: NamespaceView<C, U>, channel: Seq<char>) -> ChannelInfo {
    let count = set_or_empty(ns.channels, channel).len();
    ChannelInfo {
        occupied: count > 0,
        subscription_count: count as usize,
        user_count: if spec_is_presence(spec_kind(channel)) {
            Some(members_or_empty(ns.presence, channel).len() as usize)
        } else {
            None
        },
    }
}

/// The single-node adapter: one namespace per app, all in memory.
pub struct LocalAdapter<C, U> {
    namespaces: StrMap<Namespace<C, U>>,
}

impl<C, U> View for LocalAdapter<C, U> {
    type V = Map<Seq<char>, NamespaceView<C, U>>;

    closed spec fn view(&self) -> Map<Seq<char>, NamespaceView<C, U>> {
        self.namespaces@.map_values(|ns: Namespace<C, U>| ns@)
    }
}

impl<C, U> LocalAdapter<C, U> {
    pub closed spec fn wf(&self) -> bool {
        &&& self.namespaces.wf()
        &&& forall|a: Seq<char>| #[trigger] self.namespaces@.contains_key(a) ==> self.namespaces@[a].wf()
    }

    /// Every app's namespace in a well-formed adapter satisfies the namespace invariant.
    pub proof fn lemma_wf_inv(&self)
        requires
            self.wf(),
        ensures
            forall|a: Seq<char>| #[trigger] self@.contains_key(a) ==> self@[a].inv(),
    {
        assert forall|a: Seq<char>| #[trigger] self@.contains_key(a) implies self@[a].inv() by {
            self.namespaces@[a].lemma_wf_inv();
        }
    }

    pub fn new() -> (r: Self)
        ensures
            r.wf(),
            r@ == Map::<Seq<char>, NamespaceView<C, U>>::empty(),
    {
        let r = LocalAdapter { namespaces: StrMap::new() };
        assert(r@ =~= Map::<Seq<char>, NamespaceView<C, U>>::empty());
        r
    }

    /// Takes an app's namespace out, or a new empty one.
    fn take_ns(&mut self, app_id: &str) -> (r: Namespace<C, U>)
        requires
            old(self).wf(),
        ensures
            final(self).wf(),
            r.wf(),
            r@ == ns_or_empty(old(self)@, app_id@),
            final(self)@ == old(self)@.remove(app_id@),
    {
        let ghost m0 = self.namespaces@;
        let r = match self.namespaces.remove(app_id) {
            Some(ns) => ns,
            None => {
                let ns = Namespace::new();
                assert(ns@ == empty_namespace::<C, U>());
                ns
            },
        };
        assert(self@ =~= m0.map_values(|ns: Namespace<C, U>| ns@).remove(app_id@));
        r
    }

    /// Puts an app's namespace back.
    fn put_ns(&mut self, app_id: &str, ns: Namespace<C, U>)
        requires
            old(self).wf(),
            ns.wf(),
        ensures
            final(self).wf(),
            final(self)@ == old(self)@.insert(app_id@, ns@),
    {
        let ghost m0 = self.namespaces@;
        let ghost nv = ns@;
        self.namespaces.insert(to_string(app_id), ns);
        assert(self@ =~= m0.map_values(|ns: Namespace<C, U>| ns@).insert(app_id@, nv));
    }

    /// The namespace of an app, if it has one.
    fn get_ns(&self, app_id: &str) -> (r: Option<&Namespace<C, U>>)
        requires
            self.wf(),
        ensures
            match r {
                Some(ns) => ns.wf() && self@.contains_key(app_id@) && ns@ == self@[app_id@],
                None => !self@.contains_key(app_id@),
            },
    {
        self.namespaces.get(app_id)
    }

    /// All app ids that have a namespace.
    pub fn get_app_ids(&self) -> (r: Vec<String>)
        requires
            self.wf(),
        ensures
            views(r@).no_duplicates(),
            views(r@).to_set() == self@.dom(),
    {
        proof {
            self.namespaces.lemma_entries();
            assert(self@.dom() =~= self.namespaces@.dom());
        }
        self.namespaces.keys_vec()
    }

    pub fn add_socket(&mut self, app_id: &str, socket_id: &str, conn: C)
        requires
            old(self).wf(),
            ns_or_empty(old(self)@, app_id@).connection_count < usize::MAX,
        ensures
            final(self).wf(),
            final(self)@ == old(self)@.insert(app_id@, (NamespaceView {
                sockets: ns_or_empty(old(self)@, app_id@).sockets.insert(socket_id@, conn),
                connection_count: ns_or_empty(old(self)@, app_id@).connection_count + 1,
                ..ns_or_empty(old(self)@, app_id@)
            })),
    {
        let mut ns = self.take_ns(app_id);
        ns.add_socket(socket_id, conn);
        self.put_ns(app_id, ns);
    }

    /// Atomically check the connection limit and add a socket. Returns false (without
    /// inserting) if the limit would be exceeded. A negative limit means unlimited.
    pub fn try_add_socket(&mut self, app_id: &str, socket_id: &str, conn: C, limit: i64) -> (r: bool)
        requires
            old(self).wf(),
            limit >= 0 || ns_or_empty(old(self)@, app_id@).connection_count < usize::MAX,
        ensures
            final(self).wf(),
            r == (limit < 0 || ns_or_empty(old(self)@, app_id@).connection_count < limit as usize),
            r ==> final(self)@ == old(self)@.insert(app_id@, (NamespaceView {
                sockets: ns_or_empty(old(self)@, app_id@).sockets.insert(socket_id@, conn),
                connection_count: ns_or_empty(old(self)@, app_id@).connection_count + 1,
                ..ns_or_empty(old(self)@, app_id@)
            })),
            !r ==> final(self)@ == old(self)@.insert(app_id@, ns_or_empty(old(self)@, app_id@)),
            final(self)@ == old(self)@.insert(app_id@, spec_try_add(ns_or_empty(old(self)@, app_id@), socket_id@, conn, limit).0),
            r == spec_try_add(ns_or_empty(old(self)@, app_id@), socket_id@, conn, limit).1,
    {
        let mut ns = self.take_ns(app_id);
        let r = ns.try_add_socket(socket_id, conn, limit);
        self.put_ns(app_id, ns);
        r
    }

    /// Remove a socket from an app. Returns the channels it was in. After a socket's
    /// connection and joins, `law_remove_after_joins` gives what the removal lists and leaves.
    pub fn remove_socket(&mut self, app_id: &str, socket_id: &str) -> (r: Vec<String>)
        requires
            old(self).wf(),
        ensures
            final(self).wf(),
            old(self)@.contains_key(app_id@) ==> {
                &&& final(self)@ == old(self)@.insert(app_id@, spec_remove_socket(old(self)@[app_id@], socket_id@))
                &&& views(r@).no_duplicates()
                &&& views(r@).to_set() == set_or_empty(old(self)@[app_id@].socket_channels, socket_id@)
                &&& forall|ch: Seq<char>| #[trigger] final(self)@[app_id@].channels.contains_key(ch)
                    ==> !final(self)@[app_id@].channels[ch].contains(socket_id@)
            },
            !old(self)@.contains_key(app_id@) ==> final(self)@ == old(self)@ && r@.len() == 0,
    {
        if self.get_ns(app_id).is_none() {
            return Vec::new();
        }
        let mut ns = self.take_ns(app_id);
        let r = ns.get_socket_channels(socket_id);
        let _vacated = ns.remove_socket(socket_id);
        self.put_ns(app_id, ns);
        r
    }

    /// Remove a socket from an app. Returns the channels the removal left without
    /// subscribers, for the caller that reports vacated channels.
    pub fn remove_socket_vacating(&mut self, app_id: &str, socket_id: &str) -> (r: Vec<String>)
        requires
            old(self).wf(),
        ensures
            final(self).wf(),
            old(self)@.contains_key(app_id@) ==> {
                &&& final(self)@ == old(self)@.insert(app_id@, spec_remove_socket(old(self)@[app_id@], socket_id@))
                &&& views(r@).no_duplicates()
                &&& views(r@).to_set() == spec_vacated_by(
                    old(self)@[app_id@].channels,
                    socket_id@,
                    set_or_empty(old(self)@[app_id@].socket_channels, socket_id@),
                )
            },
            !old(self)@.contains_key(app_id@) ==> final(self)@ == old(self)@ && r@.len() == 0,
    {
        if self.get_ns(app_id).is_none() {
            return Vec::new();
        }
        let mut ns = self.take_ns(app_id);
        let r = ns.remove_socket(socket_id);
        self.put_ns(app_id, ns);
        r
    }

    /// Add a socket to a channel. Returns true if the channel was just created (occupied).
    pub fn add_to_channel(&mut self, app_id: &str, socket_id: &str, channel: &str) -> (r: bool)
        requires
            old(self).wf(),
        ensures
            final(self).wf(),
            final(self)@ == old(self)@.insert(app_id@, spec_add_to_channel(ns_or_empty(old(self)@, app_id@), socket_id@, channel@)),
            r == !ns_or_empty(old(self)@, app_id@).channels.contains_key(channel@),
    {
        let mut ns = self.take_ns(app_id);
        let r = ns.add_to_channel(socket_id, channel);
        self.put_ns(app_id, ns);
        r
    }

    /// Remove a socket from a channel. Returns true if the channel is now empty (vacated).
    pub fn remove_from_channel(&mut self, app_id: &str, socket_id: &str, channel: &str) -> (r: bool)
        requires
            old(self).wf(),
        ensures
            final(self).wf(),
            old(self)@.contains_key(app_id@) ==> final(self)@ == old(self)@.insert(app_id@,
                spec_remove_from_channel(old(self)@[app_id@], socket_id@, channel@)),
            !old(self)@.contains_key(app_id@) ==> final(self)@ == old(self)@,
            r == (old(self)@.contains_key(app_id@) && spec_vacates(old(self)@[app_id@], socket_id@, channel@)),
    {
        if self.get_ns(app_id).is_none() {
            return false;
        }
        let mut ns = self.take_ns(app_id);
        let r = ns.remove_from_channel(socket_id, channel);
        self.put_ns(app_id, ns);
        r
    }

    /// The connections a channel message goes to: the app's connected subscribers of the
    /// channel, except `excepting_id`.
    pub fn channel_recipients(&self, app_id: &str, channel: &str, excepting_id: Option<&str>) -> (r: Vec<&C>)
        requires
            self.wf(),
        ensures
            lists_connections(r@, live_ids(
                set_or_empty(ns_or_empty(self@, app_id@).channels, channel@),
                ns_or_empty(self@, app_id@).sockets,
                crate::websocket::opt_view(excepting_id),
            ), ns_or_empty(self@, app_id@).sockets),
    {
        match self.get_ns(app_id) {
            Some(ns) => ns.channel_recipients(channel, excepting_id),
            None => {
                let r: Vec<&C> = Vec::new();
                proof {
                    let order = Seq::<Seq<char>>::empty();
                    assert(order.to_set() =~= live_ids(
                        set_or_empty(ns_or_empty(self@, app_id@).channels, channel@),
                        ns_or_empty(self@, app_id@).sockets,
                        crate::websocket::opt_view(excepting_id),
                    ));
                }
                r
            },
        }
    }

    pub fn get_connection_count(&self, app_id: &str) -> (r: usize)
        requires
            self.wf(),
        ensures
            r == ns_or_empty(self@, app_id@).connection_count,
    {
        match self.get_ns(app_id) {
            Some(ns) => ns.get_connection_count(),
            None => 0,
        }
    }

    pub fn get_channels(&self, app_id: &str) -> (r: Vec<String>)
        requires
            self.wf(),
        ensures
            views(r@).no_duplicates(),
            views(r@).to_set() == ns_or_empty(self@, app_id@).channels.dom(),
    {
        match self.get_ns(app_id) {
            Some(ns) => ns.get_channels(),
            None => {
                let r: Vec<String> = Vec::new();
                assert(views(r@).to_set() =~= Set::<Seq<char>>::empty());
                assert(ns_or_empty(self@, app_id@).channels.dom() =~= Set::<Seq<char>>::empty());
                r
            },
        }
    }

    pub fn get_channel_socket_count(&self, app_id: &str, channel: &str) -> (r: usize)
        requires
            self.wf(),
        ensures
            r == set_or_empty(ns_or_empty(self@, app_id@).channels, channel@).len(),
    {
        match self.get_ns(app_id) {
            Some(ns) => ns.get_channel_socket_count(channel),
            None => {
                assert(set_or_empty(ns_or_empty(self@, app_id@).channels, channel@) =~= Set::<Seq<char>>::empty());
                0
            },
        }
    }

    /// Subscription count, occupancy and (for presence channels) user count of a channel.
    pub fn get_channel_info(&self, app_id: &str, channel: &str) -> (r: ChannelInfo)
        requires
            self.wf(),
        ensures
            self@.contains_key(app_id@) ==> r == spec_channel_info(self@[app_id@], channel@),
            !self@.contains_key(app_id@) ==> r == ChannelInfo::spec_default(),
    {
        let ns = match self.get_ns(app_id) {
            Some(ns) => ns,
            None => return ChannelInfo::default(),
        };
        let count = ns.get_channel_socket_count(channel);
        let kind = ChannelKind::from_name(channel);
        let user_count = if kind.is_presence() {
            Some(ns.get_presence_user_count(channel))
        } else {
            None
        };
        ChannelInfo { occupied: count > 0, subscription_count: count, user_count }
    }

    pub fn get_presence_members(&self, app_id: &str, channel: &str) -> (r: Vec<(&String, &U)>)
        requires
            self.wf(),
        ensures
            lists_members(r@, members_or_empty(ns_or_empty(self@, app_id@).presence, channel@)),
    {
        match self.get_ns(app_id) {
            Some(ns) => ns.get_presence_members(channel),
            None => {
                let r: Vec<(&String, &U)> = Vec::new();
                assert(r@.map_values(|e: (&String, &U)| e.0@).to_set() =~= Set::<Seq<char>>::empty());
                assert(members_or_empty(ns_or_empty(self@, app_id@).presence, channel@).dom() =~= Set::<Seq<char>>::empty());
                r
            },
        }
    }

    /// Add a presence member. Returns true if the user was newly added.
    pub fn add_presence_member(&mut self, app_id: &str, channel: &str, socket_id: &str, user_id: &str, user_info: U) -> (r: bool)
        requires
            old(self).wf(),
        ensures
            final(self).wf(),
            final(self)@ == old(self)@.insert(app_id@,
                spec_add_presence_member(ns_or_empty(old(self)@, app_id@), channel@, socket_id@, user_id@, user_info)),
            r == !members_or_empty(ns_or_empty(old(self)@, app_id@).presence, channel@).contains_key(user_id@),
    {
        let mut ns = self.take_ns(app_id);
        let r = ns.add_presence_member(channel, socket_id, user_id, user_info);
        self.put_ns(app_id, ns);
        r
    }

    /// Atomically check the presence member limit and add the member; `Err` when over the
    /// limit. On success, whether the user is new.
    pub fn try_add_presence_member(&mut self, app_id: &str, channel: &str, socket_id: &str, user_id: &str, user_info: U, max_members: usize)
        -> (r: Result<bool, ()>)
        requires
            old(self).wf(),
        ensures
            final(self).wf(),
            spec_over_member_limit(ns_or_empty(old(self)@, app_id@), channel@, user_id@, max_members) ==> {
                &&& r is Err
                &&& final(self)@ == old(self)@.insert(app_id@, ns_or_empty(old(self)@, app_id@).with_presence(
                    ns_or_empty(old(self)@, app_id@).presence.insert(channel@,
                        members_or_empty(ns_or_empty(old(self)@, app_id@).presence, channel@))))
            },
            !spec_over_member_limit(ns_or_empty(old(self)@, app_id@), channel@, user_id@, max_members) ==> {
                &&& r == Ok::<bool, ()>(!members_or_empty(ns_or_empty(old(self)@, app_id@).presence, channel@).contains_key(user_id@))
                &&& final(self)@ == old(self)@.insert(app_id@,
                    spec_add_presence_member(ns_or_empty(old(self)@, app_id@), channel@, socket_id@, user_id@, user_info))
            },
    {
        let mut ns = self.take_ns(app_id);
        let r = match ns.try_add_presence_member(channel, socket_id, user_id, user_info, max_members) {
            Ok((is_new, _)) => Ok(is_new),
            Err(()) => Err(()),
        };
        self.put_ns(app_id, ns);
        r
    }

    /// Remove a presence member's socket. Returns true if the user has no more sockets.
    pub fn remove_presence_member(&mut self, app_id: &str, channel: &str, socket_id: &str, user_id: &str) -> (r: bool)
        requires
            old(self).wf(),
        ensures
            final(self).wf(),
            old(self)@.contains_key(app_id@) ==> final(self)@ == old(self)@.insert(app_id@,
                spec_remove_presence_member(old(self)@[app_id@], channel@, socket_id@, user_id@)),
            !old(self)@.contains_key(app_id@) ==> final(self)@ == old(self)@,
            r == (old(self)@.contains_key(app_id@) && spec_member_gone(old(self)@[app_id@], channel@, socket_id@, user_id@)),
    {
        if self.get_ns(app_id).is_none() {
            return false;
        }
        let mut ns = self.take_ns(app_id);
        let r = ns.remove_presence_member(channel, socket_id, user_id);
        self.put_ns(app_id, ns);
        r
    }

    pub fn get_presence_user_count(&self, app_id: &str, channel: &str) -> (r: usize)
        requires
            self.wf(),
        ensures
            r == members_or_empty(ns_or_empty(self@, app_id@).presence, channel@).len(),
    {
        match self.get_ns(app_id) {
            Some(ns) => ns.get_presence_user_count(channel),
            None => {
                assert(members_or_empty(ns_or_empty(self@, app_id@).presence, channel@).dom() =~= Set::<Seq<char>>::empty());
                0
            },
        }
    }

    /// The connections of a signed-in user in an app; the terminate API closes these.
    pub fn get_sockets_for_user(&self, app_id: &str, user_id: &str) -> (r: Vec<&C>)
        requires
            self.wf(),
        ensures
            lists_connections(r@, live_ids(
                set_or_empty(ns_or_empty(self@, app_id@).users, user_id@),
                ns_or_empty(self@, app_id@).sockets,
                None,
            ), ns_or_empty(self@, app_id@).sockets),
    {
        match self.get_ns(app_id) {
            Some(ns) => ns.get_sockets_for_user(user_id),
            None => {
                let r: Vec<&C> = Vec::new();
                proof {
                    let order = Seq::<Seq<char>>::empty();
                    assert(order.to_set() =~= live_ids(
                        set_or_empty(ns_or_empty(self@, app_id@).users, user_id@),
                        ns_or_empty(self@, app_id@).sockets,
                        None,
                    ));
                }
                r
            },
        }
    }

    /// The connection of a socket of an app.
    pub fn get_socket(&self, app_id: &str, socket_id: &str) -> (r: Option<&C>)
        requires
            self.wf(),
        ensures
            match r {
                Some(c) => ns_or_empty(self@, app_id@).sockets.contains_key(socket_id@)
                    && *c == ns_or_empty(self@, app_id@).sockets[socket_id@],
                None => !ns_or_empty(self@, app_id@).sockets.contains_key(socket_id@),
            },
    {
        match self.get_ns(app_id) {
            Some(ns) => ns.get_socket(socket_id),
            None => None,
        }
    }

    /// The ids of a channel's subscribed sockets.
    pub fn get_channel_sockets(&self, app_id: &str, channel: &str) -> (r: Vec<String>)
        requires
            self.wf(),
        ensures
            views(r@).no_duplicates(),
            views(r@).to_set() == set_or_empty(ns_or_empty(self@, app_id@).channels, channel@),
    {
        match self.get_ns(app_id) {
            Some(ns) => ns.get_channel_sockets(channel),
            None => {
                let r: Vec<String> = Vec::new();
                assert(views(r@).to_set() =~= Set::<Seq<char>>::empty());
                assert(set_or_empty(ns_or_empty(self@, app_id@).channels, channel@) =~= Set::<Seq<char>>::empty());
                r
            },
        }
    }

    /// Track a user->socket mapping (for the terminate API).
    pub fn add_user(&mut self, app_id: &str, user_id: &str, socket_id: &str)
        requires
            old(self).wf(),
        ensures
            final(self).wf(),
            final(self)@ == old(self)@.insert(app_id@, ns_or_empty(old(self)@, app_id@).with_users(
                ns_or_empty(old(self)@, app_id@).users.insert(user_id@,
                    set_or_empty(ns_or_empty(old(self)@, app_id@).users, user_id@).insert(socket_id@)))),
    {
        let mut ns = self.take_ns(app_id);
        ns.add_user(user_id, socket_id);
        self.put_ns(app_id, ns);
    }

    /// Remove a user->socket mapping.
    pub fn remove_user(&mut self, app_id: &str, user_id: &str, socket_id: &str)
        requires
            old(self).wf(),
        ensures
            final(self).wf(),
            old(self)@.contains_key(app_id@) ==> final(self)@ == old(self)@.insert(app_id@,
                old(self)@[app_id@].with_users(spec_remove_user(old(self)@[app_id@].users, user_id@, socket_id@))),
            !old(self)@.contains_key(app_id@) ==> final(self)@ == old(self)@,
    {
        if self.get_ns(app_id).is_none() {
            return;
        }
        let mut ns = self.take_ns(app_id);
        ns.remove_user(user_id, socket_id);
        self.put_ns(app_id, ns);
    }
}


/// Apps are kept apart: changing the namespace of one app leaves every other app's as it was.
pub proof fn law_other_apps_untouched<C, U>(
    m: Map<Seq<char>, NamespaceView<C, U>>,
    app: Seq<char>,
    ns: NamespaceView<C, U>,
    other: Seq<char>,
)
    requires
        other != app,
    ensures
        ns_or_empty(m.insert(app, ns), other) == ns_or_empty(m, other),
{
}

} // verus!
