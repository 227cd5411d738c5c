//! The session registry: the authoritative, single-instance state of the
//! hub.  It tracks live sessions, admitted peers, the host-socket index used
//! for disconnect cleanup, and the room-update subscriber set.
//!
//! Contracts are stated over [`StateV`], the registry's mathematical view:
//! three maps and one set.  [`StateV::inv`] is the consistency invariant
//! between them; every registry operation preserves it.

use vstd::prelude::*;

use crate::assoc::{keys_unique, lemma_keys_unique_remove, lemma_keys_unique_update,
    lemma_map_of_contains, lemma_map_of_get, lemma_map_of_push, lemma_map_of_remove,
    lemma_map_of_update, lemma_remove_no_dup, map_of};
use crate::errors::SignalError;
use crate::peer::{Peer, PeerType, PeerV};
use crate::rtc::SignallerMessage;
use crate::channel::send_frame;
use crate::session::{Session, SessionV};
use crate::text::str_eq;

verus! {

/// The registry.  All mutations happen through `&mut self` methods; the
/// caller serializes them (one exclusive lock around the whole registry).
pub struct State {
    pub sessions: Vec<(String, Session)>,
    pub server_socket_addr_to_room: Vec<(u64, String)>,
    pub peers: Vec<(String, Peer)>,
    pub room_update_subscribers: Vec<String>,
}

/// The registry's view: rooms to sessions, sockets to rooms, peer ids to
/// peers, and the subscriber set.
#[verifier::ext_equal]
pub ghost struct StateV {
    pub sessions: Map<Seq<char>, SessionV>,
    pub socket_to_room: Map<u64, Seq<char>>,
    pub peers: Map<Seq<char>, PeerV>,
    pub subscribers: Set<Seq<char>>,
}

impl StateV {
    pub open spec fn empty() -> StateV {
        StateV {
            sessions: Map::empty(),
            socket_to_room: Map::empty(),
            peers: Map::empty(),
            subscribers: Set::empty(),
        }
    }

    /// Every live room is backed by a host peer whose id is the room name,
    /// and by exactly one socket index entry.
    pub open spec fn session_ok(self, r: Seq<char>) -> bool {
        let s = self.sessions[r];
        &&& s.server == r
        &&& self.peers.contains_key(r)
        &&& self.peers[r] == (PeerV { room: r, peer_type: PeerType::Server })
        &&& self.socket_to_room.contains_key(s.server_socket_addr)
        &&& self.socket_to_room[s.server_socket_addr] == r
        &&& s.viewers.no_duplicates()
    }

    /// Every viewer listed by a session is an admitted viewer peer of that
    /// session's room.
    pub open spec fn viewer_ok(self, r: Seq<char>, v: Seq<char>) -> bool {
        &&& self.peers.contains_key(v)
        &&& self.peers[v] == (PeerV { room: r, peer_type: PeerType::Viewer })
    }

    /// Every socket index entry points back at a live session on that
    /// socket.
    pub open spec fn socket_ok(self, a: u64) -> bool {
        &&& self.sessions.contains_key(self.socket_to_room[a])
        &&& self.sessions[self.socket_to_room[a]].server_socket_addr == a
    }

    /// Every admitted peer is either the host of its own live room or a
    /// viewer listed by its room's session.
    pub open spec fn peer_ok(self, p: Seq<char>) -> bool {
        match self.peers[p].peer_type {
            PeerType::Server => self.peers[p].room == p && self.sessions.contains_key(p),
            PeerType::Viewer => {
                &&& self.sessions.contains_key(self.peers[p].room)
                &&& self.sessions[self.peers[p].room].viewers.contains(p)
            },
        }
    }

    /// The consistency invariant between the three maps.  The subscriber
    /// set is deliberately unconstrained: a subscriber may have
    /// disconnected, and fan-out tolerates that.
    pub open spec fn inv(self) -> bool {
        &&& forall|r: Seq<char>| #[trigger] self.sessions.contains_key(r) ==> self.session_ok(r)
        &&& forall|r: Seq<char>, v: Seq<char>|
            self.sessions.contains_key(r) && #[trigger] self.sessions[r].viewers.contains(v)
                ==> self.viewer_ok(r, v)
        &&& forall|a: u64| #[trigger] self.socket_to_room.contains_key(a) ==> self.socket_ok(a)
        &&& forall|p: Seq<char>| #[trigger] self.peers.contains_key(p) ==> self.peer_ok(p)
    }

    /// A fresh room may be hosted when neither its name nor its socket is
    /// taken.
    pub open spec fn can_host(self, room: Seq<char>, socket: u64) -> bool {
        &&& !self.sessions.contains_key(room)
        &&& !self.socket_to_room.contains_key(socket)
    }

    /// The registry after a viewer peer left: gone from its session's
    /// viewer list and from the peer map.  Identity on anything that is not
    /// a viewer.
    pub open spec fn with_viewer_dropped(self, id: Seq<char>) -> StateV {
        if self.peers.contains_key(id) && self.peers[id].peer_type == PeerType::Viewer {
            let room = self.peers[id].room;
            StateV {
                sessions: if self.sessions.contains_key(room) {
                    self.sessions.insert(
                        room,
                        SessionV {
                            viewers: self.sessions[room].viewers.remove_value(id),
                            ..self.sessions[room]
                        },
                    )
                } else {
                    self.sessions
                },
                peers: self.peers.remove(id),
                socket_to_room: self.socket_to_room,
                subscribers: self.subscribers,
            }
        } else {
            self
        }
    }

    /// The registry after a host registered a fresh room.
    pub open spec fn with_session_added(
        self,
        room: Seq<char>,
        name: Seq<char>,
        os: Seq<char>,
        version: Seq<char>,
        control: bool,
        socket: u64,
        start_time: u64,
    ) -> StateV {
        StateV {
            sessions: self.sessions.insert(
                room,
                SessionV {
                    server: room,
                    viewers: Seq::empty(),
                    start_time,
                    server_socket_addr: socket,
                    name,
                    os,
                    version,
                    control,
                },
            ),
            socket_to_room: self.socket_to_room.insert(socket, room),
            peers: self.peers.insert(room, PeerV { room, peer_type: PeerType::Server }),
            subscribers: self.subscribers,
        }
    }
}

impl State {
    pub open spec fn skv(self) -> Seq<(Seq<char>, SessionV)> {
        self.sessions.deep_view()
    }

    pub open spec fn pkv(self) -> Seq<(Seq<char>, PeerV)> {
        self.peers.deep_view()
    }

    pub open spec fn akv(self) -> Seq<(u64, Seq<char>)> {
        self.server_socket_addr_to_room.deep_view()
    }

    /// Well-formedness of the concrete registry: unique keys in each
    /// association list, a duplicate-free subscriber list, and the semantic
    /// invariant on the denoted view.
    pub open spec fn wf(self) -> bool {
        &&& keys_unique(self.skv())
        &&& keys_unique(self.pkv())
        &&& keys_unique(self.akv())
        &&& self.room_update_subscribers.deep_view().no_duplicates()
        &&& self@.inv()
    }
}

impl View for State {
    type V = StateV;

    open spec fn view(&self) -> StateV {
        StateV {
            sessions: map_of(self.skv()),
            socket_to_room: map_of(self.akv()),
            peers: map_of(self.pkv()),
            subscribers: self.room_update_subscribers.deep_view().to_set(),
        }
    }
}

/// First entry of `v` whose key reads as `k`, if any.
fn find_str_key<V>(v: &Vec<(String, V)>, k: &str) -> (r: Option<usize>)
    ensures
        match r {
            Some(i) => i < v.len() && v@[i as int].0@ == k@,
            None => forall|j: int| 0 <= j < v@.len() ==> v@[j].0@ != k@,
        },
{
    let mut i: usize = 0;
    while i < v.len()
        invariant
            i <= v@.len(),
            forall|j: int| 0 <= j < i ==> v@[j].0@ != k@,
        decreases v@.len() - i,
    {
        if str_eq(v[i].0.as_str(), k) {
            return Some(i);
        }
        i = i + 1;
    }
    None
}

/// First entry of `v` with socket key `k`, if any.
fn find_socket_key(v: &Vec<(u64, String)>, k: u64) -> (r: Option<usize>)
    ensures
        match r {
            Some(i) => i < v.len() && v@[i as int].0 == k,
            None => forall|j: int| 0 <= j < v@.len() ==> v@[j].0 != k,
        },
{
    let mut i: usize = 0;
    while i < v.len()
        invariant
            i <= v@.len(),
            forall|j: int| 0 <= j < i ==> v@[j].0 != k,
        decreases v@.len() - i,
    {
        if v[i].0 == k {
            return Some(i);
        }
        i = i + 1;
    }
    None
}

/// First index of `id` in a list of peer ids, if any.
fn find_id(v: &Vec<String>, id: &str) -> (r: Option<usize>)
    ensures
        match r {
            Some(i) => i < v.len() && v@[i as int]@ == id@ && forall|j: int|
                0 <= j < i ==> v@[j]@ != id@,
            None => forall|j: int| 0 <= j < v@.len() ==> v@[j]@ != id@,
        },
{
    let mut i: usize = 0;
    while i < v.len()
        invariant
            i <= v@.len(),
            forall|j: int| 0 <= j < i ==> v@[j]@ != id@,
        decreases v@.len() - i,
    {
        if str_eq(v[i].as_str(), id) {
            return Some(i);
        }
        i = i + 1;
    }
    None
}

/// Dropping a viewer keeps the registry consistent.
pub proof fn lemma_with_viewer_dropped_inv(pre: StateV, id: Seq<char>)
    requires
        pre.inv(),
    ensures
        pre.with_viewer_dropped(id).inv(),
        !pre.with_viewer_dropped(id).peers.contains_key(id) || pre.peers[id].peer_type
            == PeerType::Server,
        pre.with_viewer_dropped(id).sessions.dom() == pre.sessions.dom(),
        pre.with_viewer_dropped(id).socket_to_room == pre.socket_to_room,
{
    let post = pre.with_viewer_dropped(id);
    if pre.peers.contains_key(id) && pre.peers[id].peer_type == PeerType::Viewer {
        let room = pre.peers[id].room;
        assert(pre.peer_ok(id));
        assert(pre.sessions.contains_key(room));
        assert(pre.session_ok(room));
        let vs = pre.sessions[room].viewers;
        vs.index_of_first_ensures(id);
        let fi = vs.index_of_first(id)->Some_0;
        lemma_remove_no_dup(vs, fi);
        assert(post.sessions.dom() =~= pre.sessions.dom());
        assert forall|r: Seq<char>| #[trigger] post.sessions.contains_key(r) implies post
            .session_ok(r) by {
            assert(pre.sessions.contains_key(r));
            assert(pre.session_ok(r));
            if r == id {
                assert(pre.peers[r].peer_type == PeerType::Server);
            }
        }
        assert forall|r: Seq<char>, v: Seq<char>|
            post.sessions.contains_key(r) && #[trigger] post.sessions[r].viewers.contains(v)
                implies post.viewer_ok(r, v) by {
            assert(pre.sessions.contains_key(r));
            if r == room {
                assert(pre.sessions[r].viewers.contains(v));
                assert(v != id);
            } else {
                assert(post.sessions[r] == pre.sessions[r]);
                assert(pre.viewer_ok(r, v));
                if v == id {
                    assert(pre.peers[id].room == r);
                }
            }
            assert(pre.viewer_ok(r, v));
        }
        assert forall|a: u64| #[trigger] post.socket_to_room.contains_key(a) implies post
            .socket_ok(a) by {
            assert(pre.socket_ok(a));
        }
        assert forall|p: Seq<char>| #[trigger] post.peers.contains_key(p) implies post.peer_ok(
            p,
        ) by {
            assert(p != id);
            assert(pre.peers.contains_key(p));
            assert(pre.peer_ok(p));
            match pre.peers[p].peer_type {
                PeerType::Server => {},
                PeerType::Viewer => {
                    let pr = pre.peers[p].room;
                    if pr == room {
                        assert(post.sessions[pr].viewers.contains(p));
                    }
                },
            }
        }
    }
}

/// Tearing a session down keeps the registry consistent.
pub proof fn lemma_with_session_removed_inv(pre: StateV, room: Seq<char>)
    requires
        pre.inv(),
    ensures
        pre.with_session_removed(room).inv(),
{
    if pre.sessions.contains_key(room) {
        let post = pre.with_session_removed(room);
        let sess = pre.sessions[room];
        let gone = sess.viewers.to_set().insert(room);
        assert(pre.session_ok(room));
        assert forall|r: Seq<char>| #[trigger] post.sessions.contains_key(r) implies post
            .session_ok(r) by {
            assert(pre.sessions.contains_key(r));
            assert(pre.session_ok(r));
            assert(r != room);
            if sess.viewers.to_set().contains(r) {
                assert(sess.viewers.contains(r));
                assert(pre.viewer_ok(room, r));
            }
            if pre.sessions[r].server_socket_addr == sess.server_socket_addr {
                assert(pre.socket_to_room[sess.server_socket_addr] == r);
                assert(pre.socket_to_room[sess.server_socket_addr] == room);
            }
        }
        assert forall|r: Seq<char>, v: Seq<char>|
            post.sessions.contains_key(r) && #[trigger] post.sessions[r].viewers.contains(v)
                implies post.viewer_ok(r, v) by {
            assert(pre.sessions.contains_key(r));
            assert(pre.sessions[r].viewers.contains(v));
            assert(pre.viewer_ok(r, v));
            assert(r != room);
            if v == room {
                assert(pre.session_ok(room));
            }
            if sess.viewers.to_set().contains(v) {
                assert(sess.viewers.contains(v));
                assert(pre.viewer_ok(room, v));
            }
        }
        assert forall|a: u64| #[trigger] post.socket_to_room.contains_key(a) implies post
            .socket_ok(a) by {
            assert(pre.socket_to_room.contains_key(a));
            assert(pre.socket_ok(a));
            assert(a != sess.server_socket_addr);
            if pre.socket_to_room[a] == room {
                assert(pre.sessions[room].server_socket_addr == a);
            }
        }
        assert forall|p: Seq<char>| #[trigger] post.peers.contains_key(p) implies post.peer_ok(
            p,
        ) by {
            assert(pre.peers.contains_key(p));
            assert(pre.peer_ok(p));
            assert(!gone.contains(p));
            match pre.peers[p].peer_type {
                PeerType::Server => {
                    assert(p != room);
                },
                PeerType::Viewer => {
                    let pr = pre.peers[p].room;
                    if pr == room {
                        assert(sess.viewers.contains(p));
                        assert(sess.viewers.to_set().contains(p));
                    }
                },
            }
        }
    }
}

/// Registering a fresh room keeps the registry consistent.
pub proof fn lemma_with_session_added_inv(
    pre: StateV,
    room: Seq<char>,
    name: Seq<char>,
    os: Seq<char>,
    version: Seq<char>,
    control: bool,
    socket: u64,
    start_time: u64,
)
    requires
        pre.inv(),
        pre.can_host(room, socket),
        !pre.peers.contains_key(room),
    ensures
        pre.with_session_added(room, name, os, version, control, socket, start_time).inv(),
{
    let post = pre.with_session_added(room, name, os, version, control, socket, start_time);
    assert forall|r: Seq<char>| #[trigger] post.sessions.contains_key(r) implies post.session_ok(
        r,
    ) by {
        if r == room {
            assert(post.sessions[r].viewers.no_duplicates());
        } else {
            assert(pre.sessions.contains_key(r));
            assert(pre.session_ok(r));
            assert(pre.sessions[r].server_socket_addr != socket);
        }
    }
    assert forall|r: Seq<char>, v: Seq<char>|
        post.sessions.contains_key(r) && #[trigger] post.sessions[r].viewers.contains(v) implies
        post.viewer_ok(r, v) by {
        if r != room {
            assert(pre.sessions.contains_key(r));
            assert(pre.viewer_ok(r, v));
            if v == room {
                assert(pre.peers.contains_key(v));
            }
        }
    }
    assert forall|a: u64| #[trigger] post.socket_to_room.contains_key(a) implies post.socket_ok(
        a,
    ) by {
        if a != socket {
            assert(pre.socket_to_room.contains_key(a));
            assert(pre.socket_ok(a));
            assert(pre.socket_to_room[a] != room);
        }
    }
    assert forall|p: Seq<char>| #[trigger] post.peers.contains_key(p) implies post.peer_ok(p) by {
        if p != room {
            assert(pre.peers.contains_key(p));
            assert(pre.peer_ok(p));
            match pre.peers[p].peer_type {
                PeerType::Server => {},
                PeerType::Viewer => {
                    assert(pre.peers[p].room != room);
                },
            }
        }
    }
}

impl StateV {
    /// The registry after a session ended: the session, its socket index
    /// entry, its host peer and all its viewer peers are gone.
    pub open spec fn with_session_removed(self, room: Seq<char>) -> StateV {
        if self.sessions.contains_key(room) {
            let s = self.sessions[room];
            StateV {
                sessions: self.sessions.remove(room),
                socket_to_room: self.socket_to_room.remove(s.server_socket_addr),
                peers: self.peers.remove_keys(s.viewers.to_set().insert(room)),
                subscribers: self.subscribers,
            }
        } else {
            self
        }
    }

    /// The registry after `p` subscribed to room-list updates.
    pub open spec fn with_subscribed(self, p: Seq<char>) -> StateV {
        StateV { subscribers: self.subscribers.insert(p), ..self }
    }

    /// The registry after `p` unsubscribed from room-list updates.
    pub open spec fn with_unsubscribed(self, p: Seq<char>) -> StateV {
        StateV { subscribers: self.subscribers.remove(p), ..self }
    }

    /// The registry after a viewer was admitted to a live room it is not
    /// yet part of.
    pub open spec fn with_viewer_added(self, id: Seq<char>, room: Seq<char>) -> StateV {
        StateV {
            sessions: self.sessions.insert(
                room,
                SessionV { viewers: self.sessions[room].viewers.push(id), ..self.sessions[room] },
            ),
            socket_to_room: self.socket_to_room,
            peers: self.peers.insert(id, PeerV { room, peer_type: PeerType::Viewer }),
            subscribers: self.subscribers,
        }
    }
}

/// Admitting a fresh viewer keeps the registry consistent.
pub proof fn lemma_with_viewer_added_inv(pre: StateV, id: Seq<char>, room: Seq<char>)
    requires
        pre.inv(),
        pre.sessions.contains_key(room),
        !pre.sessions.contains_key(id),
        !pre.peers.contains_key(id),
    ensures
        pre.with_viewer_added(id, room).inv(),
{
    let post = pre.with_viewer_added(id, room);
    assert(pre.session_ok(room));
    assert(!pre.sessions[room].viewers.contains(id)) by {
        if pre.sessions[room].viewers.contains(id) {
            assert(pre.viewer_ok(room, id));
        }
    }
    assert forall|r: Seq<char>| #[trigger] post.sessions.contains_key(r) implies post.session_ok(
        r,
    ) by {
        assert(pre.sessions.contains_key(r));
        assert(pre.session_ok(r));
        if r == room {
            assert(post.sessions[r].viewers =~= pre.sessions[r].viewers.push(id));
            assert(forall|j: int|
                0 <= j < pre.sessions[r].viewers.len() ==> pre.sessions[r].viewers[j] == #[trigger]
                post.sessions[r].viewers[j]);
            assert(post.sessions[r].viewers.no_duplicates()) by {
                let nv = post.sessions[r].viewers;
                assert forall|a: int, b: int| 0 <= a < b < nv.len() implies nv[a] != nv[b] by {
                    if b == nv.len() - 1 {
                        assert(nv[b] == id);
                        assert(pre.sessions[r].viewers.contains(pre.sessions[r].viewers[a]));
                    }
                }
            }
        } else {
            if r == id {
                assert(pre.sessions.contains_key(id));
            }
        }
    }
    assert forall|r: Seq<char>, v: Seq<char>|
        post.sessions.contains_key(r) && #[trigger] post.sessions[r].viewers.contains(v) implies
        post.viewer_ok(r, v) by {
        assert(pre.sessions.contains_key(r));
        if r == room {
            let nv = post.sessions[r].viewers;
            let j = choose|j: int| 0 <= j < nv.len() && nv[j] == v;
            if j == nv.len() - 1 {
                assert(v == id);
            } else {
                assert(pre.sessions[r].viewers.contains(v));
                assert(pre.viewer_ok(r, v));
                assert(v != id);
            }
        } else {
            assert(pre.sessions[r].viewers.contains(v));
            assert(pre.viewer_ok(r, v));
            assert(v != id) by {
                if v == id {
                    assert(pre.peers.contains_key(id));
                }
            }
        }
    }
    assert forall|a: u64| #[trigger] post.socket_to_room.contains_key(a) implies post.socket_ok(
        a,
    ) by {
        assert(pre.socket_ok(a));
    }
    assert forall|p: Seq<char>| #[trigger] post.peers.contains_key(p) implies post.peer_ok(p) by {
        if p == id {
            assert(post.sessions[room].viewers.last() == id);
            assert(post.sessions[room].viewers.contains(id));
        } else {
            assert(pre.peers.contains_key(p));
            assert(pre.peer_ok(p));
            match pre.peers[p].peer_type {
                PeerType::Server => {
                    if p == room {
                        assert(pre.peers[p].room == p);
                    }
                },
                PeerType::Viewer => {
                    let pr = pre.peers[p].room;
                    if pr == room {
                        let vs = pre.sessions[pr].viewers;
                        let j = choose|j: int| 0 <= j < vs.len() && vs[j] == p;
                        assert(post.sessions[pr].viewers[j] == p);
                        assert(post.sessions[pr].viewers.contains(p));
                    }
                },
            }
        }
    }
}

impl State {
    /// A fresh, empty registry.
    pub fn new() -> (s: State)
        ensures
            s@ == StateV::empty(),
            s.wf(),
    {
        let s = State {
            sessions: Vec::new(),
            server_socket_addr_to_room: Vec::new(),
            peers: Vec::new(),
            room_update_subscribers: Vec::new(),
        };
        proof {
            assert(s.skv() =~= Seq::<(Seq<char>, SessionV)>::empty());
            assert(s.pkv() =~= Seq::<(Seq<char>, PeerV)>::empty());
            assert(s.akv() =~= Seq::<(u64, Seq<char>)>::empty());
            assert(s.room_update_subscribers.deep_view() =~= Seq::<Seq<char>>::empty());
            assert(s@ =~= StateV::empty());
        }
        s
    }

    /// The live session of `room`, if any.
    pub fn get_session(&self, room: &str) -> (r: Option<&Session>)
        requires
            self.wf(),
        ensures
            match r {
                Some(s) => self@.sessions.contains_key(room@) && s@ == self@.sessions[room@],
                None => !self@.sessions.contains_key(room@),
            },
    {
        let idx = find_str_key(&self.sessions, room);
        proof {
            lemma_map_of_contains(self.skv(), room@);
        }
        match idx {
            Some(i) => {
                proof {
                    lemma_map_of_get(self.skv(), i as int);
                }
                Some(&self.sessions[i].1)
            },
            None => {
                proof {
                    assert(forall|j: int|
                        0 <= j < self.skv().len() ==> #[trigger] self.skv()[j].0 != room@);
                }
                None
            },
        }
    }

    /// If `id` is currently admitted as a viewer, remove it from its
    /// session's viewer list and from the peer map; otherwise do nothing.
    fn evict_viewer_entry(&mut self, id: &str)
        requires
            old(self).wf(),
        ensures
            final(self).wf(),
            final(self)@ == old(self)@.with_viewer_dropped(id@),
    {
        proof {
            lemma_map_of_contains(self.pkv(), id@);
            lemma_with_viewer_dropped_inv(self@, id@);
        }
        let pi_opt = find_str_key(&self.peers, id);
        let pi = match pi_opt {
            None => {
                proof {
                    assert(forall|j: int|
                        0 <= j < self.pkv().len() ==> #[trigger] self.pkv()[j].0 != id@);
                    assert(!self@.peers.contains_key(id@));
                    assert(self@.with_viewer_dropped(id@) =~= self@);
                }
                return ;
            },
            Some(pi) => pi,
        };
        proof {
            lemma_map_of_get(self.pkv(), pi as int);
        }
        let is_viewer = match self.peers[pi].1.peer_type {
            PeerType::Viewer => true,
            PeerType::Server => false,
        };
        if !is_viewer {
            proof {
                assert(self@.peers[id@].peer_type == PeerType::Server);
                assert(self@.with_viewer_dropped(id@) =~= self@);
            }
            return ;
        }
        let prev_room = self.peers[pi].1.room.clone();
        proof {
            assert(self@.peers.contains_key(id@));
            assert(self@.peer_ok(id@));
            assert(self@.sessions.contains_key(prev_room@));
            lemma_map_of_contains(self.skv(), prev_room@);
        }
        let ghost pre = *self;
        let sj = match find_str_key(&self.sessions, prev_room.as_str()) {
            Some(sj) => sj,
            None => {
                proof {
                    assert(forall|j: int|
                        0 <= j < self.skv().len() ==> #[trigger] self.skv()[j].0 != prev_room@);
                    assert(false);
                }
                return ;
            },
        };
        proof {
            lemma_map_of_get(self.skv(), sj as int);
            assert(self@.sessions[prev_room@].viewers.contains(id@));
        }
        let mut entry = self.sessions.remove(sj);
        let ghost vs = entry.1.viewers.deep_view();
        let vi = match find_id(&entry.1.viewers, id) {
            Some(vi) => vi,
            None => {
                proof {
                    assert(forall|j: int| 0 <= j < vs.len() ==> vs[j] != id@);
                    assert(vs == pre@.sessions[prev_room@].viewers);
                    assert(false);
                }
                return ;
            },
        };
        entry.1.viewers.remove(vi);
        proof {
            vs.index_of_first_ensures(id@);
            let fi = vs.index_of_first(id@)->Some_0;
            assert(vs == pre@.sessions[prev_room@].viewers);
            assert(fi == vi as int) by {
                if fi < vi as int {
                    assert(vs[fi] == id@);
                } else if fi > vi as int {
                    assert(vs[vi as int] == id@);
                }
            }
            assert(entry.1.viewers.deep_view() =~= vs.remove_value(id@));
        }
        self.sessions.insert(sj, entry);
        proof {
            assert(self.sessions@ =~= pre.sessions@.remove(sj as int).insert(
                sj as int,
                self.sessions@[sj as int],
            ));
            assert(self.skv() =~= pre.skv().update(
                sj as int,
                (prev_room@, entry.1.deep_view()),
            ));
            lemma_keys_unique_update(pre.skv(), sj as int, entry.1.deep_view());
            lemma_map_of_update(pre.skv(), sj as int, prev_room@, entry.1.deep_view());
        }
        let ghost mid = *self;
        self.peers.remove(pi);
        proof {
            assert(self.pkv() =~= mid.pkv().remove(pi as int));
            assert(mid.pkv() =~= pre.pkv());
            lemma_keys_unique_remove(pre.pkv(), pi as int);
            lemma_map_of_remove(pre.pkv(), pi as int);
            assert(self@ =~= pre@.with_viewer_dropped(id@));
        }
    }

    /// Register a host: create the session for `room`, index its socket,
    /// and admit the host peer (whose id is the room name).  Fails with
    /// `DeviceOnline` when the room is already live or the socket already
    /// hosts a room.
    pub fn add_server(
        &mut self,
        room: String,
        name: String,
        os: String,
        version: String,
        control: bool,
        sender: futures_channel::mpsc::UnboundedSender<String>,
        socket_addr: u64,
        start_time: u64,
    ) -> (r: Result<(), SignalError>)
        requires
            old(self).wf(),
        ensures
            final(self).wf(),
            match r {
                Ok(()) => old(self)@.can_host(room@, socket_addr) && final(self)@ == old(
                    self,
                )@.with_viewer_dropped(room@).with_session_added(
                    room@,
                    name@,
                    os@,
                    version@,
                    control,
                    socket_addr,
                    start_time,
                ),
                Err(e) => e == SignalError::DeviceOnline && !old(self)@.can_host(
                    room@,
                    socket_addr,
                ) && final(self)@ == old(self)@,
            },
    {
        proof {
            lemma_map_of_contains(self.skv(), room@);
        }
        if let Some(i) = find_str_key(&self.sessions, room.as_str()) {
            proof {
                assert(self.skv()[i as int].0 == room@);
                assert(self@.sessions.contains_key(room@));
            }
            return Err(SignalError::DeviceOnline);
        }
        proof {
            assert(forall|j: int|
                0 <= j < self.skv().len() ==> #[trigger] self.skv()[j].0 != room@);
            assert(!self@.sessions.contains_key(room@));
            lemma_map_of_contains(self.akv(), socket_addr);
        }
        if let Some(i) = find_socket_key(&self.server_socket_addr_to_room, socket_addr) {
            proof {
                assert(self.akv()[i as int].0 == socket_addr);
                assert(self@.socket_to_room.contains_key(socket_addr));
            }
            return Err(SignalError::DeviceOnline);
        }
        proof {
            assert(forall|j: int|
                0 <= j < self.akv().len() ==> #[trigger] self.akv()[j].0 != socket_addr);
            assert(!self@.socket_to_room.contains_key(socket_addr));
        }
        let ghost pre = *self;
        self.evict_viewer_entry(room.as_str());
        proof {
            lemma_with_viewer_dropped_inv(pre@, room@);
            assert(self@.can_host(room@, socket_addr));
            assert(!self@.peers.contains_key(room@));
            lemma_map_of_contains(self.pkv(), room@);
            lemma_map_of_contains(self.skv(), room@);
            lemma_map_of_contains(self.akv(), socket_addr);
            lemma_with_session_added_inv(
                self@,
                room@,
                name@,
                os@,
                version@,
                control,
                socket_addr,
                start_time,
            );
        }
        let ghost mid = *self;
        let ghost name_v = name@;
        let ghost os_v = os@;
        let ghost version_v = version@;
        let session = Session::new(
            room.clone(),
            socket_addr,
            name,
            os,
            version,
            control,
            start_time,
        );
        let ghost session_v = session@;
        let host_peer = Peer { room: room.clone(), sender, peer_type: PeerType::Server };
        let room_for_socket = room.clone();
        self.sessions.push((room.clone(), session));
        self.server_socket_addr_to_room.push((socket_addr, room_for_socket));
        self.peers.push((room, host_peer));
        proof {
            let room_v = session_v.server;
            let peer_v = PeerV { room: room_v, peer_type: PeerType::Server };
            assert(self.skv() =~= mid.skv().push((room_v, session_v)));
            assert(self.akv() =~= mid.akv().push((socket_addr, room_v)));
            assert(self.pkv() =~= mid.pkv().push((room_v, peer_v)));
            assert(forall|j: int|
                0 <= j < mid.skv().len() ==> #[trigger] mid.skv()[j].0 != room_v);
            assert(forall|j: int|
                0 <= j < mid.pkv().len() ==> #[trigger] mid.pkv()[j].0 != room_v);
            assert(forall|j: int|
                0 <= j < mid.akv().len() ==> #[trigger] mid.akv()[j].0 != socket_addr);
            assert(keys_unique(self.skv()));
            assert(keys_unique(self.pkv()));
            assert(keys_unique(self.akv()));
            lemma_map_of_push(mid.skv(), room_v, session_v);
            lemma_map_of_push(mid.akv(), socket_addr, room_v);
            lemma_map_of_push(mid.pkv(), room_v, peer_v);
            assert(self@ =~= mid@.with_session_added(
                room_v,
                name_v,
                os_v,
                version_v,
                control,
                socket_addr,
                start_time,
            ));
        }
        Ok(())
    }

    /// Admit a viewer into a live room.  Fails with `DeviceOffline` when the
    /// room is not live, and with `DeviceOnline` when `id` is itself the
    /// name of a live room (a peer id is never a host and a viewer at
    /// once).  A viewer joining again, or from another room, is moved.
    pub fn add_viewer(
        &mut self,
        id: String,
        room: String,
        sender: futures_channel::mpsc::UnboundedSender<String>,
    ) -> (r: Result<(), SignalError>)
        requires
            old(self).wf(),
        ensures
            final(self).wf(),
            match r {
                Ok(()) => old(self)@.sessions.contains_key(room@) && !old(
                    self,
                )@.sessions.contains_key(id@) && final(self)@ == old(self)@.with_viewer_dropped(
                    id@,
                ).with_viewer_added(id@, room@),
                Err(e) => final(self)@ == old(self)@ && ((e == SignalError::DeviceOffline && !old(
                    self,
                )@.sessions.contains_key(room@)) || (e == SignalError::DeviceOnline && old(
                    self,
                )@.sessions.contains_key(room@) && old(self)@.sessions.contains_key(id@))),
            },
    {
        proof {
            lemma_map_of_contains(self.skv(), room@);
        }
        match find_str_key(&self.sessions, room.as_str()) {
            None => {
                proof {
                    assert(forall|j: int|
                        0 <= j < self.skv().len() ==> #[trigger] self.skv()[j].0 != room@);
                }
                return Err(SignalError::DeviceOffline);
            },
            Some(i) => {
                proof {
                    assert(self.skv()[i as int].0 == room@);
                    assert(self@.sessions.contains_key(room@));
                }
            },
        }
        proof {
            lemma_map_of_contains(self.skv(), id@);
        }
        if let Some(i) = find_str_key(&self.sessions, id.as_str()) {
            proof {
                assert(self.skv()[i as int].0 == id@);
            }
            return Err(SignalError::DeviceOnline);
        }
        proof {
            assert(forall|j: int|
                0 <= j < self.skv().len() ==> #[trigger] self.skv()[j].0 != id@);
            assert(!self@.sessions.contains_key(id@));
        }
        let ghost pre = *self;
        self.evict_viewer_entry(id.as_str());
        proof {
            lemma_with_viewer_dropped_inv(pre@, id@);
            assert(!self@.sessions.contains_key(id@));
            assert(self@.sessions.contains_key(room@));
            if self@.peers.contains_key(id@) {
                assert(pre@.peers[id@].peer_type == PeerType::Server);
                assert(pre@.peer_ok(id@));
            }
            assert(!self@.peers.contains_key(id@));
            lemma_map_of_contains(self.skv(), room@);
            lemma_map_of_contains(self.pkv(), id@);
            lemma_with_viewer_added_inv(self@, id@, room@);
        }
        let ghost mid = *self;
        let sj = match find_str_key(&self.sessions, room.as_str()) {
            Some(sj) => sj,
            None => {
                proof {
                    assert(forall|j: int|
                        0 <= j < self.skv().len() ==> #[trigger] self.skv()[j].0 != room@);
                    assert(false);
                }
                return Err(SignalError::DeviceOffline);
            },
        };
        proof {
            lemma_map_of_get(mid.skv(), sj as int);
        }
        let mut entry = self.sessions.remove(sj);
        entry.1.viewers.push(id.clone());
        proof {
            assert(entry.1.viewers.deep_view() =~= mid@.sessions[room@].viewers.push(id@));
        }
        self.sessions.insert(sj, entry);
        proof {
            assert(self.skv() =~= mid.skv().update(
                sj as int,
                (room@, entry.1.deep_view()),
            ));
            lemma_keys_unique_update(mid.skv(), sj as int, entry.1.deep_view());
            lemma_map_of_update(mid.skv(), sj as int, room@, entry.1.deep_view());
        }
        let ghost mid2 = *self;
        let viewer_peer = Peer { room, sender, peer_type: PeerType::Viewer };
        let ghost id_v = id@;
        self.peers.push((id, viewer_peer));
        proof {
            let peer_v = PeerV { room: room@, peer_type: PeerType::Viewer };
            assert(self.pkv() =~= mid2.pkv().push((id_v, peer_v)));
            assert(mid2.pkv() == mid.pkv());
            assert(forall|j: int|
                0 <= j < mid.pkv().len() ==> #[trigger] mid.pkv()[j].0 != id_v);
            assert(keys_unique(self.pkv()));
            lemma_map_of_push(mid.pkv(), id_v, peer_v);
            assert(self@ =~= mid@.with_viewer_added(id_v, room@));
        }
        Ok(())
    }

    /// Add `peer_id` to the room-update subscriber set.  Subscribing twice
    /// leaves one membership.
    pub fn subscribe_room_updates(&mut self, peer_id: String)
        requires
            old(self).wf(),
        ensures
            final(self).wf(),
            final(self)@ == old(self)@.with_subscribed(peer_id@),
    {
        let found = find_id(&self.room_update_subscribers, peer_id.as_str());
        if let Some(i) = found {
            proof {
                let os = self.room_update_subscribers.deep_view();
                assert(os[i as int] == peer_id@);
                assert(os.contains(peer_id@));
                assert(self@.subscribers.insert(peer_id@) =~= self@.subscribers);
                assert(self@ =~= old(self)@.with_subscribed(peer_id@));
            }
        } else {
            let ghost os = self.room_update_subscribers.deep_view();
            let ghost x = peer_id@;
            self.room_update_subscribers.push(peer_id);
            proof {
                let ns = self.room_update_subscribers.deep_view();
                assert(ns =~= os.push(x));
                assert(forall|j: int| 0 <= j < os.len() ==> os[j] != x);
                assert(ns.no_duplicates()) by {
                    assert forall|a: int, b: int| 0 <= a < b < ns.len() implies ns[a] != ns[b] by {
                        if b < ns.len() - 1 {
                            assert(os[a] == ns[a] && os[b] == ns[b]);
                        } else {
                            assert(ns[a] == os[a] && ns[b] == x);
                        }
                    }
                }
                assert(ns.to_set() =~= os.to_set().insert(x)) by {
                    assert forall|a: Seq<char>| #[trigger] ns.contains(a) implies (os.contains(a)
                        || a == x) by {
                        let j = choose|j: int| 0 <= j < ns.len() && ns[j] == a;
                        if j < os.len() {
                            assert(os[j] == a);
                        }
                    }
                    assert forall|a: Seq<char>| #[trigger] os.contains(a) implies ns.contains(
                        a,
                    ) by {
                        let j = choose|j: int| 0 <= j < os.len() && os[j] == a;
                        assert(ns[j] == a);
                    }
                    assert(ns[ns.len() - 1] == x);
                    assert(ns.contains(x));
                }
                assert(self@ =~= old(self)@.with_subscribed(x));
            }
        }
    }

    /// Tear down the session of `room`: notify every viewer with a
    /// `server_closed` frame, evict them and the host from the peer map,
    /// and drop the session and its socket index entry.
    fn remove_session(&mut self, room: &str)
        requires
            old(self).wf(),
            old(self)@.sessions.contains_key(room@),
        ensures
            final(self).wf(),
            final(self)@ == old(self)@.with_session_removed(room@),
    {
        proof {
            lemma_map_of_contains(self.skv(), room@);
            lemma_with_session_removed_inv(self@, room@);
        }
        let ghost pre = *self;
        let sj = match find_str_key(&self.sessions, room) {
            Some(sj) => sj,
            None => {
                proof {
                    assert(forall|j: int|
                        0 <= j < self.skv().len() ==> #[trigger] self.skv()[j].0 != room@);
                    assert(false);
                }
                return ;
            },
        };
        proof {
            lemma_map_of_get(pre.skv(), sj as int);
        }
        let entry = self.sessions.remove(sj);
        let session = entry.1;
        proof {
            assert(self.skv() =~= pre.skv().remove(sj as int));
            lemma_keys_unique_remove(pre.skv(), sj as int);
            lemma_map_of_remove(pre.skv(), sj as int);
            assert(pre@.inv());
            assert(pre@.session_ok(room@));
            assert(session@ == pre@.sessions[room@]);
            lemma_map_of_contains(self.akv(), session.server_socket_addr);
        }
        let ghost st1 = *self;
        let ai = match find_socket_key(
            &self.server_socket_addr_to_room,
            session.server_socket_addr,
        ) {
            Some(ai) => ai,
            None => {
                proof {
                    assert(forall|j: int|
                        0 <= j < self.akv().len() ==> #[trigger] self.akv()[j].0
                            != session.server_socket_addr);
                    assert(false);
                }
                return ;
            },
        };
        self.server_socket_addr_to_room.remove(ai);
        proof {
            assert(self.akv() =~= st1.akv().remove(ai as int));
            lemma_keys_unique_remove(st1.akv(), ai as int);
            lemma_map_of_remove(st1.akv(), ai as int);
        }
        let ghost st2 = *self;
        let ghost vs = session.viewers.deep_view();
        proof {
            assert(vs == pre@.sessions[room@].viewers);
            assert(vs.no_duplicates());
            assert(vs.take(0) =~= Seq::<Seq<char>>::empty());
            assert(map_of(self.pkv()) =~= pre@.peers.remove_keys(vs.take(0).to_set()));
        }
        let mut k: usize = 0;
        while k < session.viewers.len()
            invariant
                k <= vs.len(),
                session.viewers.deep_view() == vs,
                pre.wf(),
                pre@.sessions.contains_key(room@),
                vs == pre@.sessions[room@].viewers,
                vs.no_duplicates(),
                keys_unique(self.pkv()),
                map_of(self.pkv()) == pre@.peers.remove_keys(vs.take(k as int).to_set()),
                self.sessions == st2.sessions,
                self.server_socket_addr_to_room == st2.server_socket_addr_to_room,
                self.room_update_subscribers == st2.room_update_subscribers,
            decreases vs.len() - k,
        {
            let viewer = &session.viewers[k];
            let msg = crate::codec::encode_message(
                &SignallerMessage::ServerClosed { to: viewer.clone(), room: room.to_owned() },
            );
            proof {
                assert(pre@.sessions[room@].viewers.contains(vs[k as int]));
                assert(pre@.viewer_ok(room@, vs[k as int]));
                assert(!vs.take(k as int).to_set().contains(vs[k as int])) by {
                    if vs.take(k as int).contains(vs[k as int]) {
                        let j = choose|j: int|
                            0 <= j < k && #[trigger] vs.take(k as int)[j] == vs[k as int];
                        assert(vs[j] == vs[k as int]);
                    }
                }
                assert(map_of(self.pkv()).contains_key(vs[k as int]));
                lemma_map_of_contains(self.pkv(), vs[k as int]);
            }
            let pi = match find_str_key(&self.peers, viewer.as_str()) {
                Some(pi) => pi,
                None => {
                    proof {
                        assert(forall|j: int|
                            0 <= j < self.pkv().len() ==> #[trigger] self.pkv()[j].0
                                != vs[k as int]);
                        assert(false);
                    }
                    return ;
                },
            };
            send_frame(&self.peers[pi].1.sender, msg);
            let ghost stk = *self;
            self.peers.remove(pi);
            proof {
                assert(self.pkv() =~= stk.pkv().remove(pi as int));
                lemma_keys_unique_remove(stk.pkv(), pi as int);
                lemma_map_of_remove(stk.pkv(), pi as int);
                assert(vs.take(k + 1).to_set() =~= vs.take(k as int).to_set().insert(
                    vs[k as int],
                )) by {
                    assert(vs.take(k + 1) =~= vs.take(k as int).push(vs[k as int]));
                    assert forall|x: Seq<char>| #[trigger] vs.take(k + 1).contains(x) implies
                        vs.take(k as int).contains(x) || x == vs[k as int] by {
                        let j = choose|j: int| 0 <= j < k + 1 && #[trigger] vs.take(k + 1)[j] == x;
                        if j < k {
                            assert(vs.take(k as int)[j] == x);
                        }
                    }
                    assert forall|x: Seq<char>| #[trigger] vs.take(k as int).contains(x) implies
                        vs.take(k + 1).contains(x) by {
                        let j = choose|j: int| 0 <= j < k && #[trigger] vs.take(k as int)[j] == x;
                        assert(vs.take(k + 1)[j] == x);
                    }
                    assert(vs.take(k + 1)[k as int] == vs[k as int]);
                    assert(vs.take(k + 1).contains(vs[k as int]));
                }
                assert(map_of(self.pkv()) =~= pre@.peers.remove_keys(vs.take(k + 1).to_set()));
            }
            k = k + 1;
        }
        proof {
            assert(vs.take(vs.len() as int) =~= vs);
            assert(pre@.session_ok(room@));
            assert(!vs.to_set().contains(room@)) by {
                if vs.contains(room@) {
                    assert(pre@.viewer_ok(room@, room@));
                }
            }
            assert(map_of(self.pkv()).contains_key(room@));
            lemma_map_of_contains(self.pkv(), room@);
        }
        let ghost st3 = *self;
        let pi = match find_str_key(&self.peers, room) {
            Some(pi) => pi,
            None => {
                proof {
                    assert(forall|j: int|
                        0 <= j < self.pkv().len() ==> #[trigger] self.pkv()[j].0 != room@);
                    assert(false);
                }
                return ;
            },
        };
        self.peers.remove(pi);
        proof {
            assert(self.pkv() =~= st3.pkv().remove(pi as int));
            lemma_keys_unique_remove(st3.pkv(), pi as int);
            lemma_map_of_remove(st3.pkv(), pi as int);
            assert(map_of(self.pkv()) =~= pre@.peers.remove_keys(vs.to_set().insert(room@)));
            assert(self@ =~= pre@.with_session_removed(room@));
        }
    }

    /// Leave a session.  `id` is the id of a viewer or of a host: a host's
    /// leave tears its whole session down, a viewer's removes only that
    /// viewer, and an unknown id fails with `PeerNotFound`.
    pub fn leave_session(&mut self, id: String) -> (r: Result<(), SignalError>)
        requires
            old(self).wf(),
        ensures
            final(self).wf(),
            match r {
                Ok(()) => (old(self)@.sessions.contains_key(id@) && final(self)@ == old(
                    self,
                )@.with_session_removed(id@)) || (!old(self)@.sessions.contains_key(id@) && old(
                    self,
                )@.peers.contains_key(id@) && final(self)@ == old(self)@.with_viewer_dropped(id@)),
                Err(e) => e == SignalError::PeerNotFound && !old(self)@.sessions.contains_key(id@)
                    && !old(self)@.peers.contains_key(id@) && final(self)@ == old(self)@,
            },
    {
        proof {
            lemma_map_of_contains(self.skv(), id@);
            lemma_map_of_contains(self.pkv(), id@);
        }
        if let Some(i) = find_str_key(&self.sessions, id.as_str()) {
            proof {
                assert(self.skv()[i as int].0 == id@);
            }
            self.remove_session(id.as_str());
            return Ok(());
        }
        proof {
            assert(forall|j: int|
                0 <= j < self.skv().len() ==> #[trigger] self.skv()[j].0 != id@);
            assert(!self@.sessions.contains_key(id@));
        }
        match find_str_key(&self.peers, id.as_str()) {
            Some(i) => {
                proof {
                    assert(self.pkv()[i as int].0 == id@);
                    assert(self@.peers.contains_key(id@));
                }
                self.evict_viewer_entry(id.as_str());
                Ok(())
            },
            None => {
                proof {
                    assert(forall|j: int|
                        0 <= j < self.pkv().len() ==> #[trigger] self.pkv()[j].0 != id@);
                }
                Err(SignalError::PeerNotFound)
            },
        }
    }

    /// Socket-level cleanup: when the socket hosted a room, tear that
    /// session down; a viewer's socket is not tracked here.
    pub fn on_disconnect(&mut self, socket_addr: u64)
        requires
            old(self).wf(),
        ensures
            final(self).wf(),
            final(self)@ == (if old(self)@.socket_to_room.contains_key(socket_addr) {
                old(self)@.with_session_removed(old(self)@.socket_to_room[socket_addr])
            } else {
                old(self)@
            }),
    {
        proof {
            lemma_map_of_contains(self.akv(), socket_addr);
        }
        match find_socket_key(&self.server_socket_addr_to_room, socket_addr) {
            Some(i) => {
                proof {
                    assert(self.akv()[i as int].0 == socket_addr);
                    lemma_map_of_get(self.akv(), i as int);
                    assert(self@.socket_ok(socket_addr));
                }
                let room = self.server_socket_addr_to_room[i].1.clone();
                self.remove_session(room.as_str());
            },
            None => {
                proof {
                    assert(forall|j: int|
                        0 <= j < self.akv().len() ==> #[trigger] self.akv()[j].0 != socket_addr);
                }
            },
        }
    }

    /// Fan a `new_room_notification` out to every subscriber that is still
    /// connected; missing subscribers are silently skipped and delivery is
    /// best-effort.
    pub fn notify_room_update(&self, room: &str)
        requires
            self.wf(),
    {
        let mut k: usize = 0;
        while k < self.room_update_subscribers.len()
            invariant
                self.wf(),
            decreases self.room_update_subscribers@.len() - k,
        {
            let sub = &self.room_update_subscribers[k];
            if let Some(pi) = find_str_key(&self.peers, sub.as_str()) {
                let msg = crate::codec::encode_message(
                    &SignallerMessage::NewRoomNotification { room: room.to_owned() },
                );
                send_frame(&self.peers[pi].1.sender, msg);
            }
            k = k + 1;
        }
    }

    /// Remove `peer_id` from the room-update subscriber set.  Removing an
    /// absent subscriber is a no-op.
    pub fn unsubscribe_room_updates(&mut self, peer_id: &str)
        requires
            old(self).wf(),
        ensures
            final(self).wf(),
            final(self)@ == old(self)@.with_unsubscribed(peer_id@),
    {
        let found = find_id(&self.room_update_subscribers, peer_id);
        if let Some(i) = found {
            let ghost os = self.room_update_subscribers.deep_view();
            self.room_update_subscribers.remove(i);
            proof {
                let ns = self.room_update_subscribers.deep_view();
                assert(ns =~= os.remove(i as int));
                assert(os[i as int] == peer_id@);
                lemma_remove_no_dup(os, i as int);
                assert(ns.to_set() =~= os.to_set().remove(peer_id@)) by {
                    assert forall|a: Seq<char>|
                        #[trigger] ns.contains(a) implies os.contains(a) && a != peer_id@ by {}
                }
                assert(self@ =~= old(self)@.with_unsubscribed(peer_id@));
            }
        } else {
            proof {
                let os = self.room_update_subscribers.deep_view();
                assert(forall|j: int| 0 <= j < os.len() ==> os[j] != peer_id@);
                assert(!os.contains(peer_id@));
                assert(self@.subscribers.remove(peer_id@) =~= self@.subscribers);
                assert(self@ =~= old(self)@.with_unsubscribed(peer_id@));
            }
        }
    }
}

/// The registry invariants, spelled out over the three maps:
/// - every live room is backed by a host peer named after the room;
/// - every viewer listed by a session is a viewer peer of that room;
/// - the socket index and the sessions pair off exactly, one entry per
///   live session, pointing at that session's host socket.
///
/// Every registry operation ensures `wf`, whose semantic part is `inv`;
/// this lemma unfolds `inv` into those three statements.
pub proof fn lemma_registry_invariants(v: StateV)
    requires
        v.inv(),
    ensures
        forall|r: Seq<char>| #[trigger] v.sessions.contains_key(r) ==> v.peers.contains_key(r)
            && v.peers[r].peer_type == PeerType::Server && v.peers[r].room == r,
        forall|r: Seq<char>, w: Seq<char>|
            v.sessions.contains_key(r) && #[trigger] v.sessions[r].viewers.contains(w)
                ==> v.peers.contains_key(w) && v.peers[w].peer_type == PeerType::Viewer
                && v.peers[w].room == r,
        forall|r: Seq<char>| #[trigger] v.sessions.contains_key(r)
            ==> v.socket_to_room.contains_key(v.sessions[r].server_socket_addr)
            && v.socket_to_room[v.sessions[r].server_socket_addr] == r,
        forall|a: u64| #[trigger] v.socket_to_room.contains_key(a) ==> v.sessions.contains_key(
            v.socket_to_room[a],
        ) && v.sessions[v.socket_to_room[a]].server_socket_addr == a,
{
    assert forall|r: Seq<char>| #[trigger] v.sessions.contains_key(r) implies v.peers.contains_key(
        r,
    ) && v.peers[r].peer_type == PeerType::Server && v.peers[r].room == r
        && v.socket_to_room.contains_key(v.sessions[r].server_socket_addr) && v.socket_to_room[
        v.sessions[r].server_socket_addr] == r by {
        assert(v.session_ok(r));
    }
    assert forall|r: Seq<char>, w: Seq<char>|
        v.sessions.contains_key(r) && #[trigger] v.sessions[r].viewers.contains(w) implies
        v.peers.contains_key(w) && v.peers[w].peer_type == PeerType::Viewer && v.peers[w].room
        == r by {
        assert(v.viewer_ok(r, w));
    }
    assert forall|a: u64| #[trigger] v.socket_to_room.contains_key(a) implies
        v.sessions.contains_key(v.socket_to_room[a]) && v.sessions[v.socket_to_room[a]]
        .server_socket_addr == a by {
        assert(v.socket_ok(a));
    }
}

/// Subscribing any number of times yields one membership: a second
/// subscription of the same peer changes nothing.
pub proof fn lemma_subscribe_idempotent(v: StateV, p: Seq<char>)
    ensures
        v.with_subscribed(p).with_subscribed(p) == v.with_subscribed(p),
{
    assert(v.with_subscribed(p).with_subscribed(p) =~= v.with_subscribed(p)) by {
        assert(v.subscribers.insert(p).insert(p) =~= v.subscribers.insert(p));
    }
}

/// Unsubscribing a peer that is not subscribed is a no-op.
pub proof fn lemma_unsubscribe_absent_noop(v: StateV, p: Seq<char>)
    requires
        !v.subscribers.contains(p),
    ensures
        v.with_unsubscribed(p) == v,
{
    assert(v.with_unsubscribed(p) =~= v) by {
        assert(v.subscribers.remove(p) =~= v.subscribers);
    }
}

} // verus!
