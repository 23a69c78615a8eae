use vstd::prelude::*;

use crate::collections::{StrMap, StrSet};
use crate::text::{to_string, views};

verus! {

/// A presence channel member: the user's info and the sockets by which the user is present.
pub struct PresenceEntry<U> {
    pub user_info: U,
    pub sockets: StrSet,
}

/// Per-app state: connected sockets, channel memberships, presence members and signed-in
/// users. `C` is what the server keeps per connection, `U` a presence member's user info.
pub struct Namespace<C, U> {
    sockets: StrMap<C>,
    connection_count: usize,
    channels: StrMap<StrSet>,
    socket_channels: StrMap<StrSet>,
    presence: StrMap<StrMap<PresenceEntry<U>>>,
    users: StrMap<StrSet>,
}

/// The abstract state of a namespace.
pub struct NamespaceView<C, U> {
    /// socket id -> connection
    pub sockets: Map<Seq<char>, C>,
    /// connections admitted and not yet removed
    pub connection_count: nat,
    /// channel -> ids of its subscribed sockets
    pub channels: Map<Seq<char>, Set<Seq<char>>>,
    /// socket id -> channels it subscribed to (the reverse index)
    pub socket_channels: Map<Seq<char>, Set<Seq<char>>>,
    /// channel -> (user id -> (user info, ids of the user's sockets in the channel))
    pub presence: Map<Seq<char>, Map<Seq<char>, (U, Set<Seq<char>>)>>,
    /// user id -> ids of the user's signed-in sockets
    pub users: Map<Seq<char>, Set<Seq<char>>>,
}

pub open spec fn set_or_empty(m: Map<Seq<char>, Set<Seq<char>>>, k: Seq<char>) -> Set<Seq<char>> {
    if m.contains_key(k) { m[k] } else { Set::empty() }
}

pub open spec fn sets_view(m: Map<Seq<char>, StrSet>) -> Map<Seq<char>, Set<Seq<char>>> {
    m.map_values(|s: StrSet| s@)
}

pub open spec fn members_view<U>(m: Map<Seq<char>, PresenceEntry<U>>) -> Map<Seq<char>, (U, Set<Seq<char>>)> {
    m.map_values(|e: PresenceEntry<U>| (e.user_info, e.sockets@))
}

pub open spec fn presence_view<U>(m: Map<Seq<char>, StrMap<PresenceEntry<U>>>) -> Map<Seq<char>, Map<Seq<char>, (U, Set<Seq<char>>)>> {
    m.map_values(|cm: StrMap<PresenceEntry<U>>| members_view(cm@))
}

/// Every set in the map is finite and non-empty.
pub open spec fn nonempty_sets(m: Map<Seq<char>, Set<Seq<char>>>) -> bool {
    forall|k: Seq<char>| #[trigger] m.contains_key(k) ==> m[k].finite() && m[k].len() > 0
}

/// Every set in the map is finite.
pub open spec fn finite_sets(m: Map<Seq<char>, Set<Seq<char>>>) -> bool {
    forall|k: Seq<char>| #[trigger] m.contains_key(k) ==> m[k].finite()
}

/// The socket sets of a channel's presence members.
pub open spec fn member_sockets<U>(m: Map<Seq<char>, (U, Set<Seq<char>>)>) -> Map<Seq<char>, Set<Seq<char>>> {
    m.map_values(|e: (U, Set<Seq<char>>)| e.1)
}

/// Every channel's member map is finite, and every member has a socket.
pub open spec fn presence_ok<U>(p: Map<Seq<char>, Map<Seq<char>, (U, Set<Seq<char>>)>>) -> bool {
    forall|ch: Seq<char>| #[trigger] p.contains_key(ch) ==>
        p[ch].dom().finite() && nonempty_sets(member_sockets(p[ch]))
}

impl<C, U> NamespaceView<C, U> {
    /// What holds of every namespace: maps are finite, channels and users with no socket
    /// are not kept, every presence member has a socket, the admission counter is at least
    /// the number of sockets, and every subscription is in the reverse index.
    pub open spec fn inv(self) -> bool {
        &&& reverse_index_consistent(self)
        &&& self.sockets.dom().finite()
        &&& self.channels.dom().finite()
        &&& nonempty_sets(self.channels)
        &&& finite_sets(self.socket_channels)
        &&& presence_ok(self.presence)
        &&& nonempty_sets(self.users)
        &&& self.connection_count >= self.sockets.dom().len()
    }

    pub open spec fn with_presence(self, presence: Map<Seq<char>, Map<Seq<char>, (U, Set<Seq<char>>)>>) -> Self {
        NamespaceView { presence, ..self }
    }

    pub open spec fn with_users(self, users: Map<Seq<char>, Set<Seq<char>>>) -> Self {
        NamespaceView { users, ..self }
    }

    pub open spec fn with_channels(self, channels: Map<Seq<char>, Set<Seq<char>>>, socket_channels: Map<Seq<char>, Set<Seq<char>>>) -> Self {
        NamespaceView { channels, socket_channels, ..self }
    }
}

/// Subscribing socket `sid` to channel `ch`.
pub open spec fn spec_add_to_channel<C, U>(v: NamespaceView<C, U>, sid: Seq<char>, ch: Seq<char>) -> NamespaceView<C, U> {
    v.with_channels(
        v.channels.insert(ch, set_or_empty(v.channels, ch).insert(sid)),
        v.socket_channels.insert(sid, set_or_empty(v.socket_channels, sid).insert(ch)),
    )
}

/// Unsubscribing socket `sid` from channel `ch`: a channel left with no socket is dropped.
pub open spec fn spec_remove_from_channel<C, U>(v: NamespaceView<C, U>, sid: Seq<char>, ch: Seq<char>) -> NamespaceView<C, U> {
    let channels = if v.channels.contains_key(ch) {
        if v.channels[ch].remove(sid) == Set::<Seq<char>>::empty() {
            v.channels.remove(ch)
        } else {
            v.channels.insert(ch, v.channels[ch].remove(sid))
        }
    } else {
        v.channels
    };
    let socket_channels = if v.socket_channels.contains_key(sid) {
        v.socket_channels.insert(sid, v.socket_channels[sid].remove(ch))
    } else {
        v.socket_channels
    };
    v.with_channels(channels, socket_channels)
}

/// Whether unsubscribing `sid` from `ch` leaves the channel with no socket.
pub open spec fn spec_vacates<C, U>(v: NamespaceView<C, U>, sid: Seq<char>, ch: Seq<char>) -> bool {
    v.channels.contains_key(ch) && v.channels[ch].remove(sid) == Set::<Seq<char>>::empty()
}

/// The channels after socket `sid` leaves every channel in `done`: a channel left with no
/// socket is dropped.
pub open spec fn spec_leave_all(chs: Map<Seq<char>, Set<Seq<char>>>, sid: Seq<char>, done: Set<Seq<char>>) -> Map<Seq<char>, Set<Seq<char>>> {
    Map::new(
        |ch: Seq<char>| chs.contains_key(ch) && !(done.contains(ch) && chs[ch].remove(sid) == Set::<Seq<char>>::empty()),
        |ch: Seq<char>| if done.contains(ch) { chs[ch].remove(sid) } else { chs[ch] },
    )
}

/// The channels in `done` that socket `sid` leaves with no socket.
pub open spec fn spec_vacated_by(chs: Map<Seq<char>, Set<Seq<char>>>, sid: Seq<char>, done: Set<Seq<char>>) -> Set<Seq<char>> {
    Set::new(|ch: Seq<char>| done.contains(ch) && chs.contains_key(ch) && chs[ch].remove(sid) == Set::<Seq<char>>::empty())
}

/// Removing socket `sid`: its connection and reverse index entry go, it leaves every
/// channel that the reverse index lists, and the counter drops when the socket was present.
pub open spec fn spec_remove_socket<C, U>(v: NamespaceView<C, U>, sid: Seq<char>) -> NamespaceView<C, U> {
    NamespaceView {
        sockets: v.sockets.remove(sid),
        connection_count: if v.sockets.contains_key(sid) { (v.connection_count - 1) as nat } else { v.connection_count },
        channels: spec_leave_all(v.channels, sid, set_or_empty(v.socket_channels, sid)),
        socket_channels: v.socket_channels.remove(sid),
        ..v
    }
}


/// The members of a presence channel (none when the channel has no entry).
pub open spec fn members_or_empty<U>(p: Map<Seq<char>, Map<Seq<char>, (U, Set<Seq<char>>)>>, ch: Seq<char>) -> Map<Seq<char>, (U, Set<Seq<char>>)> {
    if p.contains_key(ch) { p[ch] } else { Map::empty() }
}

/// Socket `sid` of user `uid` joins a channel's members: a known user keeps its info and
/// gains the socket; a new user is added with `info` and this one socket.
pub open spec fn spec_join_members<U>(cm: Map<Seq<char>, (U, Set<Seq<char>>)>, sid: Seq<char>, uid: Seq<char>, info: U) -> Map<Seq<char>, (U, Set<Seq<char>>)> {
    if cm.contains_key(uid) {
        cm.insert(uid, (cm[uid].0, cm[uid].1.insert(sid)))
    } else {
        cm.insert(uid, (info, Set::empty().insert(sid)))
    }
}

/// Adding socket `sid` of user `uid` to the presence members of channel `ch`.
pub open spec fn spec_add_presence_member<C, U>(v: NamespaceView<C, U>, ch: Seq<char>, sid: Seq<char>, uid: Seq<char>, info: U) -> NamespaceView<C, U> {
    v.with_presence(v.presence.insert(ch, spec_join_members(members_or_empty(v.presence, ch), sid, uid, info)))
}

/// Whether adding user `uid` to channel `ch` is refused by the member limit: the user is new
/// and the channel already has `max` members or more.
pub open spec fn spec_over_member_limit<C, U>(v: NamespaceView<C, U>, ch: Seq<char>, uid: Seq<char>, max: usize) -> bool {
    !members_or_empty(v.presence, ch).contains_key(uid) && members_or_empty(v.presence, ch).len() >= max
}

/// The members of channel `ch` once socket `sid` of user `uid` has left: a user left with
/// no socket is removed.
pub open spec fn spec_leave_members<U>(cm: Map<Seq<char>, (U, Set<Seq<char>>)>, sid: Seq<char>, uid: Seq<char>) -> Map<Seq<char>, (U, Set<Seq<char>>)> {
    if cm.contains_key(uid) {
        if cm[uid].1.remove(sid) == Set::<Seq<char>>::empty() {
            cm.remove(uid)
        } else {
            cm.insert(uid, (cm[uid].0, cm[uid].1.remove(sid)))
        }
    } else {
        cm
    }
}

/// Removing socket `sid` of user `uid` from the presence members of channel `ch`; a channel
/// left with no member is dropped.
pub open spec fn spec_remove_presence_member<C, U>(v: NamespaceView<C, U>, ch: Seq<char>, sid: Seq<char>, uid: Seq<char>) -> NamespaceView<C, U> {
    if v.presence.contains_key(ch) {
        let cm = spec_leave_members(v.presence[ch], sid, uid);
        v.with_presence(if cm.dom() == Set::<Seq<char>>::empty() { v.presence.remove(ch) } else { v.presence.insert(ch, cm) })
    } else {
        v
    }
}

/// Whether removing socket `sid` of user `uid` from channel `ch` removes the user's last
/// socket there.
pub open spec fn spec_member_gone<C, U>(v: NamespaceView<C, U>, ch: Seq<char>, sid: Seq<char>, uid: Seq<char>) -> bool {
    v.presence.contains_key(ch) && v.presence[ch].contains_key(uid)
        && v.presence[ch][uid].1.remove(sid) == Set::<Seq<char>>::empty()
}

/// Forgetting socket `sid` of user `uid`; a user left with no socket is dropped.
pub open spec fn spec_remove_user(users: Map<Seq<char>, Set<Seq<char>>>, uid: Seq<char>, sid: Seq<char>) -> Map<Seq<char>, Set<Seq<char>>> {
    if users.contains_key(uid) {
        if users[uid].remove(sid) == Set::<Seq<char>>::empty() {
            users.remove(uid)
        } else {
            users.insert(uid, users[uid].remove(sid))
        }
    } else {
        users
    }
}

/// The socket ids in `ids` that have a connection and differ from `except`.
pub open spec fn live_ids<C>(ids: Set<Seq<char>>, sockets: Map<Seq<char>, C>, except: Option<Seq<char>>) -> Set<Seq<char>> {
    Set::new(|s: Seq<char>| ids.contains(s) && sockets.contains_key(s) && except != Some(s))
}

/// `r` lists the connections of the sockets `ids`, each once.
pub open spec fn lists_connections<C>(r: Seq<&C>, ids: Set<Seq<char>>, sockets: Map<Seq<char>, C>) -> bool {
    exists|order: Seq<Seq<char>>| {
        &&& order.no_duplicates()
        &&& order.to_set() == ids
        &&& order.len() == r.len()
        &&& forall|i: int| 0 <= i < r.len() ==> *#[trigger] r[i] == sockets[order[i]]
    }
}

/// `r` lists the presence members `m`: each user once, with the user's info.
pub open spec fn lists_members<U>(r: Seq<(&String, &U)>, m: Map<Seq<char>, (U, Set<Seq<char>>)>) -> bool {
    &&& r.map_values(|e: (&String, &U)| e.0@).no_duplicates()
    &&& r.map_values(|e: (&String, &U)| e.0@).to_set() == m.dom()
    &&& forall|i: int| 0 <= i < r.len() ==> *(#[trigger] r[i]).1 == m[r[i].0@].0
}

impl<C, U> View for Namespace<C, U> {
    type V = NamespaceView<C, U>;

    closed spec fn view(&self) -> NamespaceView<C, U> {
        NamespaceView {
            sockets: self.sockets@,
            connection_count: self.connection_count as nat,
            channels: sets_view(self.channels@),
            socket_channels: sets_view(self.socket_channels@),
            presence: presence_view(self.presence@),
            users: sets_view(self.users@),
        }
    }
}

/// The nested sets of a map of sets are well formed.
pub open spec fn sets_wf(m: StrMap<StrSet>) -> bool {
    &&& m.wf()
    &&& forall|k: Seq<char>| #[trigger] m@.contains_key(k) ==> m@[k].wf()
}

pub open spec fn members_wf<U>(cm: StrMap<PresenceEntry<U>>) -> bool {
    &&& cm.wf()
    &&& forall|u: Seq<char>| #[trigger] cm@.contains_key(u) ==> cm@[u].sockets.wf()
}

pub open spec fn presence_wf<U>(m: StrMap<StrMap<PresenceEntry<U>>>) -> bool {
    &&& m.wf()
    &&& forall|ch: Seq<char>| #[trigger] m@.contains_key(ch) ==> members_wf(m@[ch])
}

/// The view of one channel's members has the stored users, finite socket sets, and as many
/// members as stored users.
proof fn lemma_members_view<U>(cm: StrMap<PresenceEntry<U>>)
    requires
        members_wf(cm),
    ensures
        members_view(cm@).dom() == cm@.dom(),
        members_view(cm@).dom().finite(),
        members_view(cm@).len() == cm@.len(),
        finite_sets(member_sockets(members_view(cm@))),
{
    cm.lemma_entries();
    assert(members_view(cm@).dom() =~= cm@.dom());
    assert forall|k: Seq<char>| #[trigger] member_sockets(members_view(cm@)).contains_key(k)
        implies member_sockets(members_view(cm@))[k].finite() by {
        cm@[k].sockets.lemma_members();
    }
}

/// Socket `sid` of user `uid` joins one channel's stored members.
fn join_member<U>(cm: &mut StrMap<PresenceEntry<U>>, socket_id: &str, user_id: &str, user_info: U) -> (r: bool)
    requires
        members_wf(*old(cm)),
    ensures
        members_wf(*final(cm)),
        members_view(final(cm)@) == spec_join_members(members_view(old(cm)@), socket_id@, user_id@, user_info),
        r == !old(cm)@.contains_key(user_id@),
{
    let ghost old_m = cm@;
    match cm.remove(user_id) {
        Some(mut e) => {
            let _ = e.sockets.insert(to_string(socket_id));
            let ghost ev = (e.user_info, e.sockets@);
            cm.insert(to_string(user_id), e);
            assert(members_view(cm@) =~= members_view(old_m).insert(user_id@, ev));
            false
        },
        None => {
            let mut set = StrSet::new();
            let _ = set.insert(to_string(socket_id));
            let ghost sv = set@;
            let e = PresenceEntry { user_info, sockets: set };
            cm.insert(to_string(user_id), e);
            assert(members_view(cm@) =~= members_view(old_m).insert(user_id@, (user_info, sv)));
            true
        },
    }
}


/// The view of a map of sets has the map's keys, and finite sets.
proof fn lemma_sets_view(m: StrMap<StrSet>)
    requires
        sets_wf(m),
    ensures
        sets_view(m@).dom() == m@.dom(),
        sets_view(m@).dom().finite(),
        finite_sets(sets_view(m@)),
{
    m.lemma_entries();
    assert(sets_view(m@).dom() =~= m@.dom());
    assert forall|k: Seq<char>| #[trigger] sets_view(m@).contains_key(k) implies sets_view(m@)[k].finite() by {
        m@[k].lemma_members();
    }
}

/// Adds `member` to the set under `key`, creating the set when the key is new.
fn set_map_add(m: &mut StrMap<StrSet>, key: &str, member: &str)
    requires
        sets_wf(*old(m)),
    ensures
        sets_wf(*final(m)),
        sets_view(final(m)@) == sets_view(old(m)@).insert(key@, set_or_empty(sets_view(old(m)@), key@).insert(member@)),
{
    let ghost old_m = m@;
    let mut set = match m.remove(key) {
        Some(s) => s,
        None => StrSet::new(),
    };
    assert(set@ == set_or_empty(sets_view(old_m), key@));
    let _ = set.insert(to_string(member));
    let ghost sv = set@;
    m.insert(to_string(key), set);
    assert(sets_view(m@) =~= sets_view(old_m).insert(key@, sv));
}

/// Removes `member` from the set under `key`, if there is one. With `drop_empty`, a set
/// left empty is dropped with its key. Returns whether the key was present and its set is
/// now empty.
fn set_map_remove(m: &mut StrMap<StrSet>, key: &str, member: &str, drop_empty: bool) -> (r: bool)
    requires
        sets_wf(*old(m)),
    ensures
        sets_wf(*final(m)),
        r == (sets_view(old(m)@).contains_key(key@)
            && sets_view(old(m)@)[key@].remove(member@) == Set::<Seq<char>>::empty()),
        sets_view(final(m)@) == (if sets_view(old(m)@).contains_key(key@) {
            if drop_empty && sets_view(old(m)@)[key@].remove(member@) == Set::<Seq<char>>::empty() {
                sets_view(old(m)@).remove(key@)
            } else {
                sets_view(old(m)@).insert(key@, sets_view(old(m)@)[key@].remove(member@))
            }
        } else {
            sets_view(old(m)@)
        }),
{
    let ghost old_m = m@;
    match m.remove(key) {
        None => {
            assert(sets_view(m@) =~= sets_view(old_m));
            false
        },
        Some(mut set) => {
            let _ = set.remove(member);
            let empty = set.is_empty();
            proof {
                set.lemma_members();
                if empty {
                    assert(set@ =~= Set::<Seq<char>>::empty());
                } else {
                    assert(set@ != Set::<Seq<char>>::empty());
                }
            }
            if empty && drop_empty {
                assert(sets_view(m@) =~= sets_view(old_m).remove(key@));
            } else {
                let ghost sv = set@;
                m.insert(to_string(key), set);
                assert(sets_view(m@) =~= sets_view(old_m).insert(key@, sv));
            }
            empty
        },
    }
}

impl<C, U> Namespace<C, U> {
    pub closed spec fn wf(&self) -> bool {
        &&& self.sockets.wf()
        &&& sets_wf(self.channels)
        &&& sets_wf(self.socket_channels)
        &&& presence_wf(self.presence)
        &&& sets_wf(self.users)
        &&& self@.inv()
    }

    /// A well-formed namespace satisfies the namespace invariant: channels and users kept
    /// have sockets, every presence member has a socket, all sets are finite, and the
    /// admission counter is at least the number of sockets.
    pub proof fn lemma_wf_inv(&self)
        requires
            self.wf(),
        ensures
            self@.inv(),
    {
    }

    pub fn new() -> (r: Self)
        ensures
            r.wf(),
            r@.sockets == Map::<Seq<char>, C>::empty(),
            r@.connection_count == 0,
            r@.channels == Map::<Seq<char>, Set<Seq<char>>>::empty(),
            r@.socket_channels == Map::<Seq<char>, Set<Seq<char>>>::empty(),
            r@.presence == Map::<Seq<char>, Map<Seq<char>, (U, Set<Seq<char>>)>>::empty(),
            r@.users == Map::<Seq<char>, Set<Seq<char>>>::empty(),
    {
        let r = Namespace {
            sockets: StrMap::new(),
            connection_count: 0,
            channels: StrMap::new(),
            socket_channels: StrMap::new(),
            presence: StrMap::new(),
            users: StrMap::new(),
        };
        assert(r@.channels =~= Map::<Seq<char>, Set<Seq<char>>>::empty());
        assert(r@.socket_channels =~= Map::<Seq<char>, Set<Seq<char>>>::empty());
        assert(r@.users =~= Map::<Seq<char>, Set<Seq<char>>>::empty());
        assert(r@.presence =~= Map::<Seq<char>, Map<Seq<char>, (U, Set<Seq<char>>)>>::empty());
        assert(r@.sockets.dom() =~= Set::<Seq<char>>::empty());
        r
    }

    /// Inserting a connection (replacing one under the same id) and counting it.
    pub fn add_socket(&mut self, socket_id: &str, conn: C)
        requires
            old(self).wf(),
            old(self)@.connection_count < usize::MAX,
        ensures
            final(self).wf(),
            final(self)@ == (NamespaceView {
                sockets: old(self)@.sockets.insert(socket_id@, conn),
                connection_count: old(self)@.connection_count + 1,
                ..old(self)@
            }),
    {
        proof {
            self.sockets.lemma_entries();
        }
        self.sockets.insert(to_string(socket_id), conn);
        self.connection_count = self.connection_count + 1;
        proof {
            self.sockets.lemma_entries();
        }
    }

    /// Atomically reserve a connection slot and insert the socket. Returns false (and does
    /// not insert) if the limit would be exceeded. A negative limit means unlimited.
    /// Over a run of such calls, `law_connection_limit_over_attempts` gives how many succeed.
    pub fn try_add_socket(&mut self, socket_id: &str, conn: C, limit: i64) -> (r: bool)
        requires
            old(self).wf(),
            limit >= 0 || old(self)@.connection_count < usize::MAX,
        ensures
            final(self).wf(),
            r == (limit < 0 || old(self)@.connection_count < limit as usize),
            r ==> final(self)@ == (NamespaceView {
                sockets: old(self)@.sockets.insert(socket_id@, conn),
                connection_count: old(self)@.connection_count + 1,
                ..old(self)@
            }),
            !r ==> final(self)@ == old(self)@,
            (final(self)@, r) == spec_try_add(old(self)@, socket_id@, conn, limit),
    {
        if limit < 0 {
            self.add_socket(socket_id, conn);
            return true;
        }
        let max = limit as usize;
        if self.connection_count >= max {
            return false;
        }
        self.add_socket(socket_id, conn);
        true
    }

    pub fn get_connection_count(&self) -> (r: usize)
        ensures
            r == self@.connection_count,
    {
        self.connection_count
    }

    /// The connection registered under `socket_id`.
    pub fn get_socket(&self, socket_id: &str) -> (r: Option<&C>)
        requires
            self.wf(),
        ensures
            match r {
                Some(c) => self@.sockets.contains_key(socket_id@) && *c == self@.sockets[socket_id@],
                None => !self@.sockets.contains_key(socket_id@),
            },
    {
        self.sockets.get(socket_id)
    }

    /// Add a socket to a channel. Returns true if this is the first subscriber (the channel
    /// becomes occupied).
    pub fn add_to_channel(&mut self, socket_id: &str, channel: &str) -> (r: bool)
        requires
            old(self).wf(),
        ensures
            final(self).wf(),
            final(self)@ == spec_add_to_channel(old(self)@, socket_id@, channel@),
            r == !old(self)@.channels.contains_key(channel@),
    {
        let was_empty = !self.channels.contains_key(channel);
        set_map_add(&mut self.channels, channel, socket_id);
        set_map_add(&mut self.socket_channels, socket_id, channel);
        proof {
            law_add_keeps_reverse_index(old(self)@, socket_id@, channel@);
            lemma_sets_view(self.channels);
            lemma_sets_view(self.socket_channels);
            let ghost chs = self@.channels;
            assert forall|k: Seq<char>| #[trigger] chs.contains_key(k) implies chs[k].finite() && chs[k].len() > 0 by {
                if k == channel@ {
                    assert(chs[k].contains(socket_id@));
                }
            }
        }
        was_empty
    }

    /// Remove a socket from a channel. Returns true if the channel is now empty (vacated).
    pub fn remove_from_channel(&mut self, socket_id: &str, channel: &str) -> (r: bool)
        requires
            old(self).wf(),
        ensures
            final(self).wf(),
            final(self)@ == spec_remove_from_channel(old(self)@, socket_id@, channel@),
            r == spec_vacates(old(self)@, socket_id@, channel@),
    {
        let vacated = set_map_remove(&mut self.channels, channel, socket_id, true);
        let _ = set_map_remove(&mut self.socket_channels, socket_id, channel, false);
        proof {
            law_remove_keeps_reverse_index(old(self)@, socket_id@, channel@);
            lemma_sets_view(self.channels);
            lemma_sets_view(self.socket_channels);
            let ghost chs = self@.channels;
            let ghost old_chs = old(self)@.channels;
            assert forall|k: Seq<char>| #[trigger] chs.contains_key(k) implies chs[k].finite() && chs[k].len() > 0 by {
                assert(old_chs.contains_key(k));
                if k == channel@ {
                    assert(chs[k] != Set::<Seq<char>>::empty());
                    if chs[k].len() == 0 {
                        assert(chs[k] =~= Set::<Seq<char>>::empty());
                    }
                }
            }
        }
        vacated
    }

    /// Remove a socket. Returns the channels it was the last subscriber of (now vacated).
    pub fn remove_socket(&mut self, socket_id: &str) -> (r: Vec<String>)
        requires
            old(self).wf(),
        ensures
            final(self).wf(),
            final(self)@ == spec_remove_socket(old(self)@, socket_id@),
            views(r@).no_duplicates(),
            views(r@).to_set() == spec_vacated_by(
                old(self)@.channels,
                socket_id@,
                set_or_empty(old(self)@.socket_channels, socket_id@),
            ),
            forall|ch: Seq<char>| #[trigger] final(self)@.channels.contains_key(ch) ==> !final(self)@.channels[ch].contains(socket_id@),
    {
        let ghost old_v = self@;
        proof {
            law_removed_socket_leaves_everything(old_v, socket_id@);
            self.sockets.lemma_entries();
        }
        if self.sockets.remove(socket_id).is_some() {
            self.connection_count = self.connection_count - 1;
        }
        proof {
            self.sockets.lemma_entries();
        }
        let mut vacated: Vec<String> = Vec::new();
        let ghost sid = socket_id@;
        let ghost chs0 = old_v.channels;
        match self.socket_channels.remove(socket_id) {
            None => {
                assert(spec_leave_all(chs0, sid, Set::empty()) =~= chs0);
                assert(views(vacated@).to_set() =~= spec_vacated_by(chs0, sid, Set::empty()));
            },
            Some(set) => {
                proof {
                    set.lemma_members();
                    assert(spec_leave_all(chs0, sid, set.members().take(0).to_set()) =~= chs0);
                    assert(views(vacated@).to_set() =~= spec_vacated_by(chs0, sid, set.members().take(0).to_set()));
                }
                let n = set.member_count();
                let mut i: usize = 0;
                let ghost sc0 = self.socket_channels;
                let ghost sock0 = self.sockets;
                let ghost pres0 = self.presence;
                let ghost users0 = self.users;
                let ghost cnt0 = self.connection_count;
                while i < n
                    invariant
                        sid == socket_id@,
                        chs0 == old_v.channels,
                        self.socket_channels == sc0,
                        self.sockets == sock0,
                        self.presence == pres0,
                        self.users == users0,
                        self.connection_count == cnt0,
                        n == set.members().len(),
                        i <= n,
                        set.wf(),
                        set.members().no_duplicates(),
                        sets_wf(self.channels),
                        sets_view(self.channels@) == spec_leave_all(chs0, sid, set.members().take(i as int).to_set()),
                        views(vacated@).no_duplicates(),
                        views(vacated@).to_set() == spec_vacated_by(chs0, sid, set.members().take(i as int).to_set()),
                        forall|j: int| 0 <= j < vacated@.len() ==> set.members().take(i as int).contains(#[trigger] views(vacated@)[j]),
                    decreases n - i,
                {
                    let ch = set.member_at(i);
                    let ghost done = set.members().take(i as int).to_set();
                    let ghost done2 = set.members().take(i + 1).to_set();
                    let ghost chv = ch@;
                    assert(set.members().take(i + 1) =~= set.members().take(i as int).push(chv));
                    assert(!set.members().take(i as int).contains(chv)) by {
                        if set.members().take(i as int).contains(chv) {
                            let j = choose|j: int| 0 <= j < i && set.members().take(i as int)[j] == chv;
                            assert(set.members()[j] == set.members()[i as int]);
                        }
                    }
                    assert(done2 =~= done.insert(chv)) by {
                        assert forall|x: Seq<char>| #[trigger] done2.contains(x) == done.insert(chv).contains(x) by {
                            if done2.contains(x) {
                                let j = choose|j: int| 0 <= j < i + 1 && #[trigger] set.members().take(i + 1)[j] == x;
                                if j < i {
                                    assert(set.members().take(i as int)[j] == x);
                                }
                            }
                            if done.contains(x) {
                                let j = choose|j: int| 0 <= j < i && #[trigger] set.members().take(i as int)[j] == x;
                                assert(set.members().take(i + 1)[j] == x);
                            }
                            if x == chv {
                                assert(set.members().take(i + 1)[i as int] == x);
                            }
                        }
                    }
                    let ghost before = sets_view(self.channels@);
                    let ghost old_vac = views(vacated@);
                    let chs = ch.as_str();
                    assert(chs@ == chv);
                    let emptied = set_map_remove(&mut self.channels, chs, socket_id, true);
                    assert(emptied == (before.contains_key(chv) && before[chv].remove(sid) == Set::<Seq<char>>::empty()));
                    if emptied {
                        vacated.push(ch.clone());
                    }
                    proof {
                        assert(!done.contains(chv));
                        assert(before.contains_key(chv) == chs0.contains_key(chv));
                        if chs0.contains_key(chv) {
                            assert(before[chv] == chs0[chv]);
                        }
                        assert(done2.contains(chv));
                        assert(emptied == (before.contains_key(chv) && before[chv].remove(sid) == Set::<Seq<char>>::empty()));
                        assert(emptied == (chs0.contains_key(chv) && chs0[chv].remove(sid) == Set::<Seq<char>>::empty()));
                        assert(emptied == spec_vacated_by(chs0, sid, done2).contains(chv));
                        let after = sets_view(self.channels@);
                        let want = spec_leave_all(chs0, sid, done2);
                        assert forall|x: Seq<char>| #[trigger] after.contains_key(x) == want.contains_key(x) by {
                            if x != chv {
                                assert(before.contains_key(x) == want.contains_key(x));
                            }
                        }
                        assert forall|x: Seq<char>| #[trigger] after.contains_key(x) implies after[x] == want[x] by {
                            if x != chv {
                                assert(before[x] == want[x]);
                            }
                        }
                        assert(after =~= want);
                        if emptied {
                            assert(views(vacated@) =~= views(vacated@).drop_last().push(chv));
                        }
                        assert(forall|j: int| 0 <= j < old_vac.len() ==> #[trigger] views(vacated@)[j] == old_vac[j]);
                        assert(views(vacated@).len() == old_vac.len() + if emptied { 1int } else { 0int });
                        assert(views(vacated@).to_set() =~= spec_vacated_by(chs0, sid, done2)) by {
                            assert forall|x: Seq<char>| #[trigger] spec_vacated_by(chs0, sid, done2).contains(x)
                                == views(vacated@).to_set().contains(x) by {
                                if spec_vacated_by(chs0, sid, done2).contains(x) {
                                    if x == chv {
                                        assert(views(vacated@)[vacated@.len() - 1] == x);
                                    } else {
                                        assert(spec_vacated_by(chs0, sid, done).contains(x));
                                        assert(old_vac.to_set().contains(x));
                                        let j = choose|j: int| 0 <= j < old_vac.len() && old_vac[j] == x;
                                        assert(views(vacated@)[j] == x);
                                    }
                                }
                                if views(vacated@).to_set().contains(x) {
                                    let j = choose|j: int| 0 <= j < views(vacated@).len() && views(vacated@)[j] == x;
                                    if j < old_vac.len() {
                                        assert(old_vac[j] == x);
                                        assert(old_vac.to_set().contains(x));
                                        assert(spec_vacated_by(chs0, sid, done).contains(x));
                                    } else {
                                        assert(x == chv);
                                    }
                                }
                            }
                        }
                        assert forall|j: int| 0 <= j < vacated@.len() implies set.members().take(i + 1).contains(#[trigger] views(vacated@)[j]) by {
                            if j < old_vac.len() {
                                let w = old_vac[j];
                                assert(set.members().take(i as int).contains(w));
                                let k = choose|k: int| 0 <= k < i && set.members().take(i as int)[k] == w;
                                assert(set.members().take(i + 1)[k] == w);
                            } else {
                                assert(set.members().take(i + 1)[i as int] == chv);
                            }
                        }
                        if emptied {
                            assert(views(vacated@).no_duplicates()) by {
                                assert forall|a: int, b: int| 0 <= a < vacated@.len() && 0 <= b < vacated@.len() && a != b
                                    implies views(vacated@)[a] != views(vacated@)[b] by {
                                    let last = vacated@.len() - 1;
                                    if a == last {
                                        assert(set.members().take(i as int).contains(views(vacated@)[b]));
                                    } else if b == last {
                                        assert(set.members().take(i as int).contains(views(vacated@)[a]));
                                    }
                                }
                            }
                        }
                    }
                    i = i + 1;
                }
                assert(set.members().take(n as int) =~= set.members());
            },
        }
        proof {
            lemma_sets_view(self.channels);
            lemma_sets_view(self.socket_channels);
            let ghost chs = self@.channels;
            assert forall|k: Seq<char>| #[trigger] chs.contains_key(k) implies chs[k].finite() && chs[k].len() > 0 by {
                assert(chs0.contains_key(k));
                if chs[k].len() == 0 {
                    assert(chs[k] =~= Set::<Seq<char>>::empty());
                }
            }
            assert(self@.socket_channels =~= old_v.socket_channels.remove(sid));
            assert(self@ == spec_remove_socket(old_v, sid));
        }
        vacated
    }

    /// Takes a channel's stored members out (none when the channel has no entry).
    fn take_members(&mut self, channel: &str) -> (r: StrMap<PresenceEntry<U>>)
        requires
            old(self).wf(),
        ensures
            members_wf(r),
            members_view(r@) == members_or_empty(old(self)@.presence, channel@),
            presence_wf(final(self).presence),
            presence_view(final(self).presence@) == old(self)@.presence.remove(channel@),
            final(self).sockets == old(self).sockets,
            final(self).connection_count == old(self).connection_count,
            final(self).channels == old(self).channels,
            final(self).socket_channels == old(self).socket_channels,
            final(self).users == old(self).users,
    {
        let ghost p0 = self.presence@;
        let r = match self.presence.remove(channel) {
            Some(m) => m,
            None => {
                let m = StrMap::new();
                assert(members_view(m@) =~= Map::<Seq<char>, (U, Set<Seq<char>>)>::empty());
                m
            },
        };
        assert(presence_view(self.presence@) =~= presence_view(p0).remove(channel@));
        r
    }

    /// Puts a channel's members back, establishing the namespace invariant.
    fn put_members(&mut self, channel: &str, cm: StrMap<PresenceEntry<U>>)
        requires
            members_wf(cm),
            nonempty_sets(member_sockets(members_view(cm@))),
            old(self).sockets.wf(),
            sets_wf(old(self).channels),
            sets_wf(old(self).socket_channels),
            presence_wf(old(self).presence),
            sets_wf(old(self).users),
            old(self)@.with_presence(old(self)@.presence.insert(channel@, members_view(cm@))).inv(),
        ensures
            final(self).wf(),
            final(self)@ == old(self)@.with_presence(old(self)@.presence.insert(channel@, members_view(cm@))),
    {
        let ghost p0 = self.presence@;
        let ghost cmv = members_view(cm@);
        self.presence.insert(to_string(channel), cm);
        assert(presence_view(self.presence@) =~= presence_view(p0).insert(channel@, cmv));
    }

    /// The members of `cm` joined as a channel entry keep the invariant.
    proof fn lemma_members_entry_ok(&self, channel: Seq<char>, cm: StrMap<PresenceEntry<U>>)
        requires
            self.wf(),
            members_wf(cm),
            nonempty_sets(member_sockets(members_view(cm@))),
        ensures
            self@.with_presence(self@.presence.remove(channel).insert(channel, members_view(cm@))).inv(),
    {
        lemma_members_view(cm);
        let p = self@.presence.remove(channel).insert(channel, members_view(cm@));
        assert forall|ch: Seq<char>| #[trigger] p.contains_key(ch) implies
            p[ch].dom().finite() && nonempty_sets(member_sockets(p[ch])) by {
            if ch != channel {
                assert(self@.presence.contains_key(ch));
            }
        }
    }

    /// Add a presence member. Returns true if the user was newly added (not already
    /// present in the channel).
    pub fn add_presence_member(&mut self, channel: &str, socket_id: &str, user_id: &str, user_info: U) -> (r: bool)
        requires
            old(self).wf(),
        ensures
            final(self).wf(),
            final(self)@ == spec_add_presence_member(old(self)@, channel@, socket_id@, user_id@, user_info),
            r == !members_or_empty(old(self)@.presence, channel@).contains_key(user_id@),
    {
        let ghost v0 = self@;
        let mut cm = self.take_members(channel);
        let ghost cm0 = members_view(cm@);
        assert(v0.inv());
        let is_new = join_member(&mut cm, socket_id, user_id, user_info);
        proof {
            lemma_members_view(cm);
            let ms = member_sockets(members_view(cm@));
            assert forall|u: Seq<char>| #[trigger] ms.contains_key(u) implies ms[u].finite() && ms[u].len() > 0 by {
                if u == user_id@ {
                    assert(ms[u].contains(socket_id@));
                } else {
                    assert(cm0.contains_key(u));
                    assert(v0.presence.contains_key(channel@));
                    assert(member_sockets(v0.presence[channel@]).contains_key(u));
                }
            }
            self.lemma_members_entry_ok(channel@, cm);
            assert(self@.presence.insert(channel@, members_view(cm@)) =~= v0.presence.insert(channel@, members_view(cm@)));
        }
        self.put_members(channel, cm);
        is_new
    }

    /// Atomically check the presence member limit and add the member. A user already
    /// present is always admitted (another socket of the same user). Returns whether the user
    /// is new, and the channel's members after the addition; `Err` when over the limit.
    pub fn try_add_presence_member(&mut self, channel: &str, socket_id: &str, user_id: &str, user_info: U, max_members: usize)
        -> (r: Result<(bool, Vec<(&String, &U)>), ()>)
        requires
            old(self).wf(),
        ensures
            final(self).wf(),
            spec_over_member_limit(old(self)@, channel@, user_id@, max_members) ==> {
                &&& r is Err
                &&& final(self)@ == old(self)@.with_presence(
                    old(self)@.presence.insert(channel@, members_or_empty(old(self)@.presence, channel@)))
            },
            !spec_over_member_limit(old(self)@, channel@, user_id@, max_members) ==> {
                &&& r is Ok
                &&& final(self)@ == spec_add_presence_member(old(self)@, channel@, socket_id@, user_id@, user_info)
                &&& r->Ok_0.0 == !members_or_empty(old(self)@.presence, channel@).contains_key(user_id@)
                &&& lists_members(r->Ok_0.1@, members_or_empty(final(self)@.presence, channel@))
            },
    {
        let ghost v0 = self@;
        let mut cm = self.take_members(channel);
        let ghost cm0 = members_view(cm@);
        proof {
            lemma_members_view(cm);
        }
        let already_present = cm.contains_key(user_id);
        if !already_present && cm.len() >= max_members {
            proof {
                if v0.presence.contains_key(channel@) {
                    assert(member_sockets(members_view(cm@)) == member_sockets(v0.presence[channel@]));
                } else {
                    assert(member_sockets(members_view(cm@)) =~= Map::<Seq<char>, Set<Seq<char>>>::empty());
                }
                self.lemma_members_entry_ok(channel@, cm);
                assert(self@.presence.insert(channel@, members_view(cm@)) =~= v0.presence.insert(channel@, members_view(cm@)));
            }
            self.put_members(channel, cm);
            return Err(());
        }
        let is_new = join_member(&mut cm, socket_id, user_id, user_info);
        proof {
            lemma_members_view(cm);
            let ms = member_sockets(members_view(cm@));
            assert forall|u: Seq<char>| #[trigger] ms.contains_key(u) implies ms[u].finite() && ms[u].len() > 0 by {
                if u == user_id@ {
                    assert(ms[u].contains(socket_id@));
                } else {
                    assert(cm0.contains_key(u));
                    assert(v0.presence.contains_key(channel@));
                    assert(member_sockets(v0.presence[channel@]).contains_key(u));
                }
            }
            self.lemma_members_entry_ok(channel@, cm);
            assert(self@.presence.insert(channel@, members_view(cm@)) =~= v0.presence.insert(channel@, members_view(cm@)));
        }
        self.put_members(channel, cm);
        let this: &Self = self;
        let members = this.get_presence_members(channel);
        Ok((is_new, members))
    }

    /// Remove a presence member's socket. Returns true if the user has no more sockets in
    /// the channel (a member_removed event is due).
    pub fn remove_presence_member(&mut self, channel: &str, socket_id: &str, user_id: &str) -> (r: bool)
        requires
            old(self).wf(),
        ensures
            final(self).wf(),
            final(self)@ == spec_remove_presence_member(old(self)@, channel@, socket_id@, user_id@),
            r == spec_member_gone(old(self)@, channel@, socket_id@, user_id@),
    {
        let ghost v0 = self@;
        if !self.presence.contains_key(channel) {
            return false;
        }
        let mut cm = self.take_members(channel);
        let ghost cm0 = members_view(cm@);
        let ghost old_cm = cm@;
        let gone = match cm.remove(user_id) {
            None => {
                assert(members_view(cm@) =~= spec_leave_members(cm0, socket_id@, user_id@));
                false
            },
            Some(mut e) => {
                let _ = e.sockets.remove(socket_id);
                let empty = e.sockets.is_empty();
                proof {
                    e.sockets.lemma_members();
                    if empty {
                        assert(e.sockets@ =~= Set::<Seq<char>>::empty());
                    } else {
                        assert(e.sockets@ != Set::<Seq<char>>::empty());
                    }
                }
                if empty {
                    assert(members_view(cm@) =~= spec_leave_members(cm0, socket_id@, user_id@));
                } else {
                    let ghost ev = (e.user_info, e.sockets@);
                    cm.insert(to_string(user_id), e);
                    assert(members_view(cm@) =~= spec_leave_members(cm0, socket_id@, user_id@));
                }
                empty
            },
        };
        proof {
            lemma_members_view(cm);
            let ms = member_sockets(members_view(cm@));
            assert forall|u: Seq<char>| #[trigger] ms.contains_key(u) implies ms[u].finite() && ms[u].len() > 0 by {
                assert(cm0.contains_key(u));
                assert(member_sockets(v0.presence[channel@]).contains_key(u));
                if u == user_id@ && ms[u].len() == 0 {
                    assert(ms[u] =~= Set::<Seq<char>>::empty());
                }
            }
        }
        if cm.len() > 0 {
            proof {
                self.lemma_members_entry_ok(channel@, cm);
                assert(self@.presence.insert(channel@, members_view(cm@)) =~= v0.presence.insert(channel@, members_view(cm@)));
                assert(members_view(cm@).dom() != Set::<Seq<char>>::empty()) by {
                    let k = cm.key_seq()[0];
                    cm.lemma_entries();
                    assert(members_view(cm@).dom().contains(k));
                }
            }
            self.put_members(channel, cm);
        } else {
            proof {
                cm.lemma_entries();
                assert(members_view(cm@).dom() =~= Set::<Seq<char>>::empty());
                assert(self@ == spec_remove_presence_member(v0, channel@, socket_id@, user_id@));
                assert(self@.inv()) by {
                    assert forall|ch: Seq<char>| #[trigger] self@.presence.contains_key(ch) implies
                        self@.presence[ch].dom().finite() && nonempty_sets(member_sockets(self@.presence[ch])) by {
                        assert(v0.presence.contains_key(ch));
                    }
                }
            }
        }
        gone
    }

    /// The number of distinct users in a presence channel.
    pub fn get_presence_user_count(&self, channel: &str) -> (r: usize)
        requires
            self.wf(),
        ensures
            r == members_or_empty(self@.presence, channel@).len(),
    {
        match self.presence.get(channel) {
            Some(cm) => {
                proof {
                    lemma_members_view(*cm);
                }
                cm.len()
            },
            None => {
                assert(members_or_empty(self@.presence, channel@).dom() =~= Set::<Seq<char>>::empty());
                0
            },
        }
    }

    /// The members of a presence channel: each user id with its user info.
    pub fn get_presence_members(&self, channel: &str) -> (r: Vec<(&String, &U)>)
        requires
            self.wf(),
        ensures
            lists_members(r@, members_or_empty(self@.presence, channel@)),
    {
        let mut r: Vec<(&String, &U)> = Vec::new();
        match self.presence.get(channel) {
            None => {
                assert(r@.map_values(|e: (&String, &U)| e.0@).to_set() =~= Set::<Seq<char>>::empty());
                assert(members_or_empty(self@.presence, channel@).dom() =~= Set::<Seq<char>>::empty());
            },
            Some(cm) => {
                proof {
                    cm.lemma_entries();
                    lemma_members_view(*cm);
                }
                let n = cm.entry_count();
                let mut i: usize = 0;
                while i < n
                    invariant
                        cm.wf(),
                        n == cm.key_seq().len(),
                        n == cm.val_seq().len(),
                        i <= n,
                        cm.key_seq().no_duplicates(),
                        r@.len() == i,
                        forall|j: int| 0 <= j < i ==> (#[trigger] r@[j]).0@ == cm.key_seq()[j] && *r@[j].1 == cm.val_seq()[j].user_info,
                    decreases n - i,
                {
                    let (k, e) = cm.entry_at(i);
                    r.push((k, &e.user_info));
                    i = i + 1;
                }
                proof {
                    cm.lemma_entries();
                    lemma_members_view(*cm);
                    let keys = r@.map_values(|e: (&String, &U)| e.0@);
                    assert(keys =~= cm.key_seq());
                    assert(members_view(cm@).dom() == cm.key_seq().to_set());
                    assert forall|j: int| 0 <= j < r@.len() implies *(#[trigger] r@[j]).1 == members_view(cm@)[r@[j].0@].0 by {
                        assert(cm@.contains_key(cm.key_seq()[j]));
                        assert(cm@[cm.key_seq()[j]] == cm.val_seq()[j]);
                    }
                }
            },
        }
        r
    }

    /// Track a signed-in user's socket (for the terminate API).
    pub fn add_user(&mut self, user_id: &str, socket_id: &str)
        requires
            old(self).wf(),
        ensures
            final(self).wf(),
            final(self)@ == old(self)@.with_users(
                old(self)@.users.insert(user_id@, set_or_empty(old(self)@.users, user_id@).insert(socket_id@))),
    {
        set_map_add(&mut self.users, user_id, socket_id);
        proof {
            lemma_sets_view(self.users);
            let us = self@.users;
            assert forall|k: Seq<char>| #[trigger] us.contains_key(k) implies us[k].finite() && us[k].len() > 0 by {
                if k == user_id@ {
                    assert(us[k].contains(socket_id@));
                }
            }
        }
    }

    /// Forget a signed-in user's socket; a user left with no socket is dropped.
    pub fn remove_user(&mut self, user_id: &str, socket_id: &str)
        requires
            old(self).wf(),
        ensures
            final(self).wf(),
            final(self)@ == old(self)@.with_users(spec_remove_user(old(self)@.users, user_id@, socket_id@)),
    {
        let ghost u0 = self@.users;
        let _ = set_map_remove(&mut self.users, user_id, socket_id, true);
        proof {
            lemma_sets_view(self.users);
            let us = self@.users;
            assert forall|k: Seq<char>| #[trigger] us.contains_key(k) implies us[k].finite() && us[k].len() > 0 by {
                assert(u0.contains_key(k));
                if us[k].len() == 0 {
                    assert(us[k] =~= Set::<Seq<char>>::empty());
                }
            }
        }
    }

    /// The connections of the sockets listed in `ids`, except `except`, that are connected.
    fn connections_of(&self, ids: &StrSet, except: Option<&str>) -> (r: Vec<&C>)
        requires
            self.wf(),
            ids.wf(),
        ensures
            lists_connections(r@, live_ids(ids@, self@.sockets, crate::websocket::opt_view(except)), self@.sockets),
    {
        proof {
            ids.lemma_members();
        }
        let ghost ex = crate::websocket::opt_view(except);
        let mut r: Vec<&C> = Vec::new();
        let ghost mut order: Seq<Seq<char>> = Seq::empty();
        let n = ids.member_count();
        let mut i: usize = 0;
        while i < n
            invariant
                self.wf(),
                ids.wf(),
                n == ids.members().len(),
                ids.members().no_duplicates(),
                i <= n,
                ex == crate::websocket::opt_view(except),
                order.no_duplicates(),
                order.len() == r@.len(),
                forall|j: int| 0 <= j < r@.len() ==> *#[trigger] r@[j] == self@.sockets[order[j]],
                order.to_set() == live_ids(ids.members().take(i as int).to_set(), self@.sockets, ex),
                forall|j: int| 0 <= j < order.len() ==> ids.members().take(i as int).contains(#[trigger] order[j]),
            decreases n - i,
        {
            let sid = ids.member_at(i);
            let ghost sv = sid@;
            let ghost done = ids.members().take(i as int).to_set();
            assert(ids.members().take(i + 1) =~= ids.members().take(i as int).push(sv));
            assert(!ids.members().take(i as int).contains(sv)) by {
                if ids.members().take(i as int).contains(sv) {
                    let j = choose|j: int| 0 <= j < i && #[trigger] ids.members().take(i as int)[j] == sv;
                    assert(ids.members()[j] == ids.members()[i as int]);
                }
            }
            let skip = match except {
                Some(e) => crate::text::str_eq(sid.as_str(), e),
                None => false,
            };
            let ghost old_order = order;
            let ghost old_r = r@;
            if !skip {
                match self.sockets.get(sid.as_str()) {
                    Some(c) => {
                        r.push(c);
                        proof {
                            order = order.push(sv);
                        }
                    },
                    None => {},
                }
            }
            proof {
                let done2 = ids.members().take(i + 1).to_set();
                assert forall|x: Seq<char>| #[trigger] done2.contains(x) == done.insert(sv).contains(x) by {
                    if done2.contains(x) {
                        let j = choose|j: int| 0 <= j < i + 1 && #[trigger] ids.members().take(i + 1)[j] == x;
                        if j < i {
                            assert(ids.members().take(i as int)[j] == x);
                        }
                    }
                    if done.contains(x) {
                        let j = choose|j: int| 0 <= j < i && #[trigger] ids.members().take(i as int)[j] == x;
                        assert(ids.members().take(i + 1)[j] == x);
                    }
                    if x == sv {
                        assert(ids.members().take(i + 1)[i as int] == x);
                    }
                }
                assert forall|j: int| 0 <= j < order.len() implies ids.members().take(i + 1).contains(#[trigger] order[j]) by {
                    if j < old_order.len() {
                        assert(order[j] == old_order[j]);
                        let w = old_order[j];
                        assert(ids.members().take(i as int).contains(w));
                        let k = choose|k: int| 0 <= k < i && ids.members().take(i as int)[k] == w;
                        assert(ids.members().take(i + 1)[k] == w);
                    } else {
                        assert(ids.members().take(i + 1)[i as int] == sv);
                    }
                }
                assert(order.no_duplicates()) by {
                    assert forall|a: int, b: int| 0 <= a < order.len() && 0 <= b < order.len() && a != b
                        implies order[a] != order[b] by {
                        if a == old_order.len() && a != b {
                            assert(order[b] == old_order[b]);
                            assert(ids.members().take(i as int).contains(old_order[b]));
                        } else if b == old_order.len() && a != b {
                            assert(order[a] == old_order[a]);
                            assert(ids.members().take(i as int).contains(old_order[a]));
                        } else {
                            assert(order[a] == old_order[a] && order[b] == old_order[b]);
                        }
                    }
                }
                assert forall|j: int| 0 <= j < r@.len() implies *#[trigger] r@[j] == self@.sockets[order[j]] by {
                    if j < old_r.len() {
                        assert(r@[j] == old_r[j]);
                        assert(order[j] == old_order[j]);
                    }
                }
                let want = live_ids(done2, self@.sockets, ex);
                assert forall|x: Seq<char>| #[trigger] order.to_set().contains(x) == want.contains(x) by {
                    if want.contains(x) {
                        if x == sv {
                            assert(order[order.len() - 1] == x);
                        } else {
                            assert(live_ids(done, self@.sockets, ex).contains(x));
                            assert(old_order.to_set().contains(x));
                            let j = choose|j: int| 0 <= j < old_order.len() && old_order[j] == x;
                            assert(order[j] == x);
                        }
                    }
                    if order.to_set().contains(x) {
                        let j = choose|j: int| 0 <= j < order.len() && order[j] == x;
                        if j < old_order.len() {
                            assert(old_order[j] == x);
                            assert(old_order.to_set().contains(x));
                        } else {
                            assert(x == sv);
                        }
                    }
                }
                assert(order.to_set() =~= want);
            }
            i = i + 1;
        }
        proof {
            assert(ids.members().take(n as int) =~= ids.members());
            assert(ids.members().to_set() == ids@);
        }
        r
    }

    /// All connections of a signed-in user (the sockets that are still connected).
    pub fn get_sockets_for_user(&self, user_id: &str) -> (r: Vec<&C>)
        requires
            self.wf(),
        ensures
            lists_connections(r@, live_ids(set_or_empty(self@.users, user_id@), self@.sockets, None), self@.sockets),
    {
        match self.users.get(user_id) {
            Some(ids) => self.connections_of(ids, None),
            None => {
                let r: Vec<&C> = Vec::new();
                proof {
                    let order = Seq::<Seq<char>>::empty();
                    assert(order.to_set() =~= live_ids(set_or_empty(self@.users, user_id@), self@.sockets, None));
                }
                r
            },
        }
    }

    /// The connections that a message to a channel goes to: every connected subscriber,
    /// except `excepting_id`.
    pub fn channel_recipients(&self, channel: &str, excepting_id: Option<&str>) -> (r: Vec<&C>)
        requires
            self.wf(),
        ensures
            lists_connections(r@, live_ids(set_or_empty(self@.channels, channel@), self@.sockets, crate::websocket::opt_view(excepting_id)), self@.sockets),
    {
        match self.channels.get(channel) {
            Some(ids) => self.connections_of(ids, excepting_id),
            None => {
                let r: Vec<&C> = Vec::new();
                proof {
                    let order = Seq::<Seq<char>>::empty();
                    assert(order.to_set() =~= live_ids(set_or_empty(self@.channels, channel@), self@.sockets, crate::websocket::opt_view(excepting_id)));
                }
                r
            },
        }
    }

    /// The names of all channels that have subscribers.
    pub fn get_channels(&self) -> (r: Vec<String>)
        requires
            self.wf(),
        ensures
            views(r@).no_duplicates(),
            views(r@).to_set() == self@.channels.dom(),
    {
        proof {
            self.channels.lemma_entries();
            assert(self@.channels.dom() =~= self.channels@.dom());
        }
        self.channels.keys_vec()
    }

    /// The number of sockets subscribed to a channel.
    pub fn get_channel_socket_count(&self, channel: &str) -> (r: usize)
        requires
            self.wf(),
        ensures
            r == set_or_empty(self@.channels, channel@).len(),
    {
        match self.channels.get(channel) {
            Some(set) => set.len(),
            None => 0,
        }
    }

    /// The channels a socket is subscribed to, from the reverse index.
    pub fn get_socket_channels(&self, socket_id: &str) -> (r: Vec<String>)
        requires
            self.wf(),
        ensures
            views(r@).no_duplicates(),
            views(r@).to_set() == set_or_empty(self@.socket_channels, socket_id@),
    {
        match self.socket_channels.get(socket_id) {
            Some(set) => {
                proof {
                    set.lemma_members();
                }
                set.to_vec()
            },
            None => {
                let r: Vec<String> = Vec::new();
                assert(views(r@).to_set() =~= Set::<Seq<char>>::empty());
                r
            },
        }
    }

    /// The ids of the sockets subscribed to a channel.
    pub fn get_channel_sockets(&self, channel: &str) -> (r: Vec<String>)
        requires
            self.wf(),
        ensures
            views(r@).no_duplicates(),
            views(r@).to_set() == set_or_empty(self@.channels, channel@),
    {
        match self.channels.get(channel) {
            Some(set) => {
                proof {
                    set.lemma_members();
                }
                set.to_vec()
            },
            None => {
                let r: Vec<String> = Vec::new();
                assert(views(r@).to_set() =~= Set::<Seq<char>>::empty());
                r
            },
        }
    }
}

} // verus!

verus! {

/// Every subscription is recorded in the reverse index: a socket subscribed to a channel has
/// that channel among its listed channels.
pub open spec fn reverse_index_consistent<C, U>(v: NamespaceView<C, U>) -> bool {
    forall|ch: Seq<char>, sid: Seq<char>|
        #[trigger] v.channels.contains_key(ch) && #[trigger] v.channels[ch].contains(sid) ==>
            v.socket_channels.contains_key(sid) && v.socket_channels[sid].contains(ch)
}

/// Joining a channel and leaving it again restores the channel table, and reports the
/// channel as occupied by the join and vacated by the leave, when the channel had no
/// subscriber before.
pub proof fn law_join_then_leave<C, U>(v: NamespaceView<C, U>, sid: Seq<char>, ch: Seq<char>)
    requires
        v.inv(),
        !v.channels.contains_key(ch),
    ensures
        spec_remove_from_channel(spec_add_to_channel(v, sid, ch), sid, ch).channels == v.channels,
        spec_vacates(spec_add_to_channel(v, sid, ch), sid, ch),
{
    let a = spec_add_to_channel(v, sid, ch);
    assert(a.channels[ch] =~= Set::<Seq<char>>::empty().insert(sid));
    assert(a.channels[ch].remove(sid) =~= Set::<Seq<char>>::empty());
    assert(a.channels.remove(ch) =~= v.channels);
}

/// A second subscriber does not occupy a channel again, and the first one leaving does not
/// vacate it while the other remains.
pub proof fn law_second_subscriber<C, U>(v: NamespaceView<C, U>, s1: Seq<char>, s2: Seq<char>, ch: Seq<char>)
    requires
        v.inv(),
        !v.channels.contains_key(ch),
        s1 != s2,
    ensures
        spec_add_to_channel(spec_add_to_channel(v, s1, ch), s2, ch).channels.contains_key(ch),
        spec_add_to_channel(spec_add_to_channel(v, s1, ch), s2, ch).channels[ch].len() == 2,
        !spec_vacates(spec_add_to_channel(spec_add_to_channel(v, s1, ch), s2, ch), s1, ch),
{
    let a = spec_add_to_channel(v, s1, ch);
    let b = spec_add_to_channel(a, s2, ch);
    assert(b.channels[ch] =~= Set::<Seq<char>>::empty().insert(s1).insert(s2));
    assert(b.channels[ch].remove(s1).contains(s2));
}

/// Subscribing keeps the reverse index consistent.
pub proof fn law_add_keeps_reverse_index<C, U>(v: NamespaceView<C, U>, sid: Seq<char>, ch: Seq<char>)
    requires
        reverse_index_consistent(v),
    ensures
        reverse_index_consistent(spec_add_to_channel(v, sid, ch)),
{
}

/// Unsubscribing keeps the reverse index consistent.
pub proof fn law_remove_keeps_reverse_index<C, U>(v: NamespaceView<C, U>, sid: Seq<char>, ch: Seq<char>)
    requires
        reverse_index_consistent(v),
    ensures
        reverse_index_consistent(spec_remove_from_channel(v, sid, ch)),
{
    let w = spec_remove_from_channel(v, sid, ch);
    assert forall|c: Seq<char>, s: Seq<char>| #[trigger] w.channels.contains_key(c) && #[trigger] w.channels[c].contains(s)
        implies w.socket_channels.contains_key(s) && w.socket_channels[s].contains(c) by {
        assert(v.channels.contains_key(c) && v.channels[c].contains(s));
    }
}

/// Once a socket is removed, it is subscribed to no channel at all, provided the reverse
/// index was consistent; and every channel it vacated is gone from the channel table.
pub proof fn law_removed_socket_leaves_everything<C, U>(v: NamespaceView<C, U>, sid: Seq<char>)
    requires
        reverse_index_consistent(v),
    ensures
        forall|ch: Seq<char>| #[trigger] spec_remove_socket(v, sid).channels.contains_key(ch) ==>
            !spec_remove_socket(v, sid).channels[ch].contains(sid),
        forall|ch: Seq<char>| #[trigger] spec_vacated_by(v.channels, sid, set_or_empty(v.socket_channels, sid)).contains(ch) ==>
            !spec_remove_socket(v, sid).channels.contains_key(ch),
        reverse_index_consistent(spec_remove_socket(v, sid)),
{
    let w = spec_remove_socket(v, sid);
    assert forall|ch: Seq<char>| #[trigger] w.channels.contains_key(ch) implies !w.channels[ch].contains(sid) by {
        if v.channels[ch].contains(sid) {
            assert(v.socket_channels.contains_key(sid) && v.socket_channels[sid].contains(ch));
        }
    }
    assert forall|c: Seq<char>, s: Seq<char>| #[trigger] w.channels.contains_key(c) && #[trigger] w.channels[c].contains(s)
        implies w.socket_channels.contains_key(s) && w.socket_channels[s].contains(c) by {
        assert(v.channels.contains_key(c));
        if v.channels[c].contains(sid) {
            assert(v.socket_channels.contains_key(sid) && v.socket_channels[sid].contains(c));
        }
        assert(s != sid);
        assert(v.channels[c].contains(s));
    }
}

/// A channel within the presence member limit stays within it: an addition refused by the
/// limit changes no membership, and an admitted one adds at most a user below the limit.
pub proof fn law_presence_limit_kept<C, U>(v: NamespaceView<C, U>, ch: Seq<char>, sid: Seq<char>, uid: Seq<char>, info: U, max: usize)
    requires
        v.inv(),
        members_or_empty(v.presence, ch).len() <= max,
    ensures
        !spec_over_member_limit(v, ch, uid, max) ==>
            members_or_empty(spec_add_presence_member(v, ch, sid, uid, info).presence, ch).len() <= max,
{
    let cm = members_or_empty(v.presence, ch);
    if v.presence.contains_key(ch) {
        assert(cm.dom().finite());
    } else {
        assert(cm.dom() =~= Set::<Seq<char>>::empty());
    }
    let cm2 = spec_join_members(cm, sid, uid, info);
    if cm.contains_key(uid) {
        assert(cm2.dom() =~= cm.dom());
    } else {
        assert(cm2.dom() =~= cm.dom().insert(uid));
    }
}

/// A user present by two sockets stays a member when one leaves, and is gone when the other
/// leaves too.
pub proof fn law_presence_last_socket<C, U>(v: NamespaceView<C, U>, ch: Seq<char>, s1: Seq<char>, s2: Seq<char>, uid: Seq<char>, info: U)
    requires
        v.inv(),
        !members_or_empty(v.presence, ch).contains_key(uid),
        s1 != s2,
    ensures
        ({
            let a = spec_add_presence_member(spec_add_presence_member(v, ch, s1, uid, info), ch, s2, uid, info);
            let b = spec_remove_presence_member(a, ch, s1, uid);
            &&& !spec_member_gone(a, ch, s1, uid)
            &&& spec_member_gone(b, ch, s2, uid)
            &&& !members_or_empty(spec_remove_presence_member(b, ch, s2, uid).presence, ch).contains_key(uid)
        }),
{
    let a1 = spec_add_presence_member(v, ch, s1, uid, info);
    let a = spec_add_presence_member(a1, ch, s2, uid, info);
    assert(a.presence[ch][uid].1 =~= Set::<Seq<char>>::empty().insert(s1).insert(s2));
    assert(a.presence[ch][uid].1.remove(s1).contains(s2));
    let b = spec_remove_presence_member(a, ch, s1, uid);
    assert(a.presence[ch][uid].1.remove(s1) =~= Set::<Seq<char>>::empty().insert(s2));
    let cm = spec_leave_members(a.presence[ch], s1, uid);
    assert(a.presence[ch][uid].1.remove(s1) != Set::<Seq<char>>::empty());
    assert(cm == a.presence[ch].insert(uid, (a.presence[ch][uid].0, a.presence[ch][uid].1.remove(s1))));
    assert(cm.dom().contains(uid));
    assert(cm.dom() != Set::<Seq<char>>::empty());
    assert(b.presence == a.presence.insert(ch, cm));
    assert(b.presence[ch].contains_key(uid));
    assert(b.presence[ch][uid].1.remove(s2) =~= Set::<Seq<char>>::empty());
}

/// An app within a non-negative connection limit stays within it: a socket is admitted
/// (as `try_add_socket` decides) only below the limit, and the count grows by one.
pub proof fn law_connection_limit_kept<C, U>(v: NamespaceView<C, U>, sid: Seq<char>, conn: C, limit: i64)
    requires
        0 <= limit,
        v.connection_count <= limit as usize,
    ensures
        ({
            let admitted = limit < 0 || v.connection_count < limit as usize;
            let after = if admitted {
                NamespaceView { sockets: v.sockets.insert(sid, conn), connection_count: v.connection_count + 1, ..v }
            } else {
                v
            };
            after.connection_count <= limit as usize
        }),
{
}


/// One admission attempt under a connection limit, as `try_add_socket` makes it: the
/// namespace after the attempt, and whether the socket was admitted.
pub open spec fn spec_try_add<C, U>(v: NamespaceView<C, U>, sid: Seq<char>, conn: C, limit: i64) -> (NamespaceView<C, U>, bool) {
    if limit < 0 || v.connection_count < limit as usize {
        (NamespaceView { sockets: v.sockets.insert(sid, conn), connection_count: v.connection_count + 1, ..v }, true)
    } else {
        (v, false)
    }
}

/// Admission attempts for the requests `reqs` (socket id and connection), one after the
/// other: the namespace after the last, and each attempt's answer in order.
pub open spec fn spec_try_add_all<C, U>(v: NamespaceView<C, U>, reqs: Seq<(Seq<char>, C)>, limit: i64) -> (NamespaceView<C, U>, Seq<bool>)
    decreases reqs.len(),
{
    if reqs.len() == 0 {
        (v, Seq::empty())
    } else {
        let before = spec_try_add_all(v, reqs.drop_last(), limit);
        let step = spec_try_add(before.0, reqs.last().0, reqs.last().1, limit);
        (step.0, before.1.push(step.1))
    }
}

/// How many of `k` admission attempts on a namespace that has admitted `n` connections
/// succeed: all of them under a negative limit, else `min(k, max(0, limit - n))`.
pub open spec fn admitted_count(n: nat, k: nat, limit: i64) -> nat {
    if limit < 0 {
        k
    } else if n >= limit as usize {
        0
    } else if k + n <= limit as usize {
        k
    } else {
        ((limit as usize) - n) as nat
    }
}

/// The connection limit over a run of admission attempts with distinct socket ids that are
/// not yet connected: under a negative limit every attempt is admitted; otherwise exactly
/// the first `min(k, max(0, limit - n))` attempts are. The count rises by the number
/// admitted, every admitted socket is registered with its connection, a refused attempt
/// registers nothing, sockets already there stay, and nothing else changes.
pub proof fn law_connection_limit_over_attempts<C, U>(v: NamespaceView<C, U>, reqs: Seq<(Seq<char>, C)>, limit: i64)
    requires
        forall|i: int, j: int| 0 <= i < j < reqs.len() ==> reqs[i].0 != reqs[j].0,
        forall|i: int| 0 <= i < reqs.len() ==> !v.sockets.contains_key(#[trigger] reqs[i].0),
    ensures
        ({
            let out = spec_try_add_all(v, reqs, limit);
            let a = admitted_count(v.connection_count, reqs.len(), limit);
            &&& out.1.len() == reqs.len()
            &&& forall|i: int| 0 <= i < reqs.len() ==> #[trigger] out.1[i] == (i < a)
            &&& out.0.connection_count == v.connection_count + a
            &&& forall|i: int| 0 <= i < a ==>
                out.0.sockets.contains_key(#[trigger] reqs[i].0) && out.0.sockets[reqs[i].0] == reqs[i].1
            &&& forall|i: int| a <= i < reqs.len() ==> !out.0.sockets.contains_key(#[trigger] reqs[i].0)
            &&& forall|k: Seq<char>| #[trigger] v.sockets.contains_key(k) ==>
                out.0.sockets.contains_key(k) && out.0.sockets[k] == v.sockets[k]
            &&& forall|k: Seq<char>| #[trigger] out.0.sockets.contains_key(k) ==>
                v.sockets.contains_key(k) || exists|i: int| 0 <= i < a && #[trigger] reqs[i].0 == k
            &&& out.0.channels == v.channels
            &&& out.0.socket_channels == v.socket_channels
            &&& out.0.presence == v.presence
            &&& out.0.users == v.users
        }),
    decreases reqs.len(),
{
    if reqs.len() > 0 {
        let p = reqs.drop_last();
        let k = reqs.len();
        assert forall|i: int, j: int| 0 <= i < j < p.len() implies p[i].0 != p[j].0 by {
            assert(p[i] == reqs[i] && p[j] == reqs[j]);
        }
        assert forall|i: int| 0 <= i < p.len() implies !v.sockets.contains_key(#[trigger] p[i].0) by {
            assert(p[i] == reqs[i]);
        }
        law_connection_limit_over_attempts(v, p, limit);
        let before = spec_try_add_all(v, p, limit);
        let a0 = admitted_count(v.connection_count, p.len(), limit);
        let a = admitted_count(v.connection_count, k, limit);
        let last = reqs[k - 1];
        assert(reqs.last() == last);
        assert(a0 <= a <= a0 + 1);
        assert((limit < 0 || before.0.connection_count < limit as usize) == (k - 1 < a));
        assert(a == a0 + (if k - 1 < a { 1int } else { 0int }));
        assert forall|i: int| 0 <= i < k - 1 implies reqs[i].0 != last.0 by {
            assert(p[i] == reqs[i]);
        }
        assert(!before.0.sockets.contains_key(last.0)) by {
            if before.0.sockets.contains_key(last.0) {
                if !v.sockets.contains_key(last.0) {
                    let i = choose|i: int| 0 <= i < a0 && #[trigger] p[i].0 == last.0;
                    assert(p[i] == reqs[i]);
                }
            }
        }
        let out = spec_try_add_all(v, reqs, limit);
        assert forall|i: int| 0 <= i < a implies
            out.0.sockets.contains_key(#[trigger] reqs[i].0) && out.0.sockets[reqs[i].0] == reqs[i].1 by {
            if i < k - 1 {
                assert(p[i] == reqs[i]);
            }
        }
        assert forall|i: int| a <= i < reqs.len() implies !out.0.sockets.contains_key(#[trigger] reqs[i].0) by {
            if i < k - 1 {
                assert(p[i] == reqs[i]);
            }
        }
        assert forall|k2: Seq<char>| #[trigger] out.0.sockets.contains_key(k2) implies
            v.sockets.contains_key(k2) || exists|i: int| 0 <= i < a && #[trigger] reqs[i].0 == k2 by {
            if !v.sockets.contains_key(k2) {
                if k2 == last.0 && k - 1 < a {
                    assert(reqs[k - 1].0 == k2);
                } else {
                    assert(before.0.sockets.contains_key(k2));
                    let i = choose|i: int| 0 <= i < a0 && #[trigger] p[i].0 == k2;
                    assert(p[i] == reqs[i]);
                    assert(reqs[i].0 == k2);
                }
            }
        }
        assert forall|i: int| 0 <= i < reqs.len() implies #[trigger] out.1[i] == (i < a) by {
            if i < k - 1 {
                assert(out.1[i] == before.1[i]);
            }
        }
    }
}


/// Socket `sid` subscribing to the channels of `chs`, one after the other.
pub open spec fn spec_add_to_channels<C, U>(v: NamespaceView<C, U>, sid: Seq<char>, chs: Seq<Seq<char>>) -> NamespaceView<C, U>
    decreases chs.len(),
{
    if chs.len() == 0 {
        v
    } else {
        spec_add_to_channel(spec_add_to_channels(v, sid, chs.drop_last()), sid, chs.last())
    }
}

/// Subscribing a socket that is in no channel to the channels of `chs`: each of them holds
/// its old subscribers and the socket, the others are as they were, the socket's listed
/// channels are those of `chs`, and nothing else changes.
proof fn lemma_add_to_channels<C, U>(v: NamespaceView<C, U>, sid: Seq<char>, chs: Seq<Seq<char>>)
    requires
        !v.socket_channels.contains_key(sid),
    ensures
        ({
            let w = spec_add_to_channels(v, sid, chs);
            &&& forall|ch: Seq<char>| #[trigger] w.channels.contains_key(ch) == (v.channels.contains_key(ch) || chs.contains(ch))
            &&& forall|ch: Seq<char>| #[trigger] w.channels.contains_key(ch) ==> w.channels[ch] == (if chs.contains(ch) {
                set_or_empty(v.channels, ch).insert(sid)
            } else {
                v.channels[ch]
            })
            &&& set_or_empty(w.socket_channels, sid) == chs.to_set()
            &&& w.socket_channels.remove(sid) == v.socket_channels
            &&& w.sockets == v.sockets
            &&& w.connection_count == v.connection_count
            &&& w.presence == v.presence
            &&& w.users == v.users
        }),
    decreases chs.len(),
{
    if chs.len() == 0 {
        assert(chs.to_set() =~= Set::<Seq<char>>::empty());
        assert(v.socket_channels.remove(sid) =~= v.socket_channels);
    } else {
        let p = chs.drop_last();
        let last = chs.last();
        lemma_add_to_channels(v, sid, p);
        let w0 = spec_add_to_channels(v, sid, p);
        let w = spec_add_to_channels(v, sid, chs);
        assert forall|ch: Seq<char>| chs.contains(ch) == (p.contains(ch) || ch == last) by {
            if chs.contains(ch) {
                let j = choose|j: int| 0 <= j < chs.len() && chs[j] == ch;
                if j < chs.len() - 1 {
                    assert(p[j] == ch);
                }
            }
            if p.contains(ch) {
                let j = choose|j: int| 0 <= j < p.len() && p[j] == ch;
                assert(chs[j] == ch);
            }
            if ch == last {
                assert(chs[chs.len() - 1] == ch);
            }
        }
        assert forall|ch: Seq<char>| #[trigger] w.channels.contains_key(ch) implies w.channels[ch] == (if chs.contains(ch) {
            set_or_empty(v.channels, ch).insert(sid)
        } else {
            v.channels[ch]
        }) by {
            if ch == last && p.contains(last) {
                assert(set_or_empty(v.channels, ch).insert(sid).insert(sid) =~= set_or_empty(v.channels, ch).insert(sid));
            }
        }
        assert(chs.to_set() =~= p.to_set().insert(last));
        assert(w.socket_channels.remove(sid) =~= w0.socket_channels.remove(sid));
    }
}

/// Removing a socket after it was connected and subscribed to exactly the channels of
/// `chs`, when it had no listed channels before (so, by the reverse index, was in none): the removal lists exactly those channels,
/// the channels it was the only subscriber of are the ones it vacates, and the namespace's
/// sockets, count, channels (so the socket is in none, and the vacated channels are gone)
/// and reverse index are as before the socket came.
pub proof fn law_remove_after_joins<C, U>(v: NamespaceView<C, U>, sid: Seq<char>, conn: C, chs: Seq<Seq<char>>)
    requires
        v.inv(),
        !v.sockets.contains_key(sid),
        !v.socket_channels.contains_key(sid),
    ensures
        ({
            let joined = NamespaceView { sockets: v.sockets.insert(sid, conn), connection_count: v.connection_count + 1, ..v };
            let w = spec_add_to_channels(joined, sid, chs);
            let u = spec_remove_socket(w, sid);
            &&& set_or_empty(w.socket_channels, sid) == chs.to_set()
            &&& spec_vacated_by(w.channels, sid, chs.to_set()) == chs.to_set().filter(|ch: Seq<char>| !v.channels.contains_key(ch))
            &&& u.sockets == v.sockets
            &&& u.connection_count == v.connection_count
            &&& u.channels == v.channels
            &&& u.socket_channels == v.socket_channels
            &&& u.presence == v.presence
            &&& u.users == v.users
        }),
{
    let joined = NamespaceView { sockets: v.sockets.insert(sid, conn), connection_count: v.connection_count + 1, ..v };
    lemma_add_to_channels(joined, sid, chs);
    let w = spec_add_to_channels(joined, sid, chs);
    let u = spec_remove_socket(w, sid);
    let done = chs.to_set();
    assert forall|ch: Seq<char>| #[trigger] v.channels.contains_key(ch) implies !v.channels[ch].contains(sid) by {
        if v.channels[ch].contains(sid) {
            assert(v.socket_channels.contains_key(sid));
        }
    }
    assert forall|ch: Seq<char>| #[trigger] done.contains(ch) implies
        w.channels[ch].remove(sid) == set_or_empty(v.channels, ch) by {
        assert(chs.contains(ch));
        assert(w.channels.contains_key(ch));
        assert(w.channels[ch].remove(sid) =~= set_or_empty(v.channels, ch));
    }
    assert forall|ch: Seq<char>| #[trigger] done.contains(ch) implies
        (set_or_empty(v.channels, ch) == Set::<Seq<char>>::empty()) == !v.channels.contains_key(ch) by {
        if v.channels.contains_key(ch) {
            assert(v.channels[ch].len() > 0);
            if v.channels[ch] == Set::<Seq<char>>::empty() {
                assert(v.channels[ch].len() == 0);
            }
        }
    }
    assert(spec_vacated_by(w.channels, sid, done) =~= done.filter(|ch: Seq<char>| !v.channels.contains_key(ch)));
    assert forall|ch: Seq<char>| #[trigger] u.channels.contains_key(ch) == v.channels.contains_key(ch) by {
        if done.contains(ch) {
            assert(chs.contains(ch));
        }
    }
    assert forall|ch: Seq<char>| #[trigger] u.channels.contains_key(ch) implies u.channels[ch] == v.channels[ch] by {
        if done.contains(ch) {
            assert(chs.contains(ch));
        } else {
            assert(!chs.contains(ch));
        }
    }
    assert(u.channels =~= v.channels);
    assert(u.sockets =~= v.sockets);
}

} // verus!
