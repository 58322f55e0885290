//! Shared session state: identity, room membership, known nicknames,
//! per-room message history, and the private-session status.

use vstd::prelude::*;
use vstd::string::StringExecFns;

use crate::protocol::{NetworkError, PeerId, PrivateRequest, RequestType};

verus! {

/// Classification of a log entry; purely a rendering tag.
#[derive(Clone, Copy, PartialEq, Eq, Structural, Debug)]
pub enum MessageType {
    Message,
    Info,
    Error,
    Help,
}

impl Default for MessageType {
    fn default() -> (r: MessageType)
        ensures
            r == MessageType::Message,
    {
        MessageType::Message
    }
}

/// Which screen the user interface is on.
#[derive(Clone, Copy, PartialEq, Eq, Structural, Debug)]
pub enum Screen {
    Login,
    Chat,
}

/// The view of one message log: each entry as its classification and the
/// text's character sequence.
pub open spec fn log_view(s: Seq<(MessageType, String)>) -> Seq<(MessageType, Seq<char>)> {
    Seq::new(s.len(), |i: int| (s[i].0, s[i].1@))
}

/// Appending one entry to a log appends its view to the log's view.
pub proof fn lemma_log_view_push(s: Seq<(MessageType, String)>, e: (MessageType, String))
    ensures
        log_view(s.push(e)) =~= log_view(s).push((e.0, e.1@)),
{
}

/// "{nick}: {text}", the display line of a chat message.
pub open spec fn msg_nick_line(nick: Seq<char>, text: Seq<char>) -> Seq<char> {
    nick + ": "@ + text
}

/// The notice posted when a peer connects after none were reachable.
pub open spec fn msg_peer_connected() -> Seq<char> {
    "Peer has connected"@
}

/// The notice posted when the last reachable peer goes away.
pub open spec fn msg_no_peers() -> Seq<char> {
    "No connected peers."@
}

/// The notice posted when the private counterpart leaves the network.
pub open spec fn msg_counterpart_gone() -> Seq<char> {
    "Connected peer has left the application."@
}

/// The three lines posted on first joining a room.
pub open spec fn join_log(nick: Seq<char>, room: Seq<char>) -> Seq<(MessageType, Seq<char>)> {
    seq![
        (MessageType::Info, "Logged in as: "@ + nick),
        (MessageType::Info, "Joined chat room: "@ + room),
        (MessageType::Help, "Type \"/help\" to view all available commands"@),
    ]
}

/// The three lines posted on entering a private session.
pub open spec fn dm_log(nick: Seq<char>) -> Seq<(MessageType, Seq<char>)> {
    seq![
        (MessageType::Info, "Joined private message with "@ + nick),
        (MessageType::Info, "To leave the private message, type \"/leave\""@),
        (MessageType::Help, "Type \"/help\" to view all available commands"@),
    ]
}

/// One `add_room` step at the level of the room catalog: a fresh name is
/// appended, a name already present leaves the catalog unchanged.
pub open spec fn create_room_spec(rooms: Seq<Seq<char>>, name: Seq<char>) -> Seq<Seq<char>> {
    if rooms.contains(name) {
        rooms
    } else {
        rooms.push(name)
    }
}

/// How `join_room` changes the topic and the logs: joining the current
/// room changes nothing; joining another room switches the topic, and the
/// first join of a room initializes its log with the three greeting lines.
pub open spec fn join_transition(pre: App, post: App, room: Seq<char>, nick: Seq<char>) -> bool {
    if pre.topic@ == room {
        &&& post.messages == pre.messages
        &&& post.private_messages == pre.private_messages
        &&& post.topic == pre.topic
    } else {
        &&& post.topic@ == room
        &&& post.private_messages == pre.private_messages
        &&& if pre.has_log(room) {
            post.messages == pre.messages
        } else {
            &&& post.topics() == pre.topics().push(room)
            &&& post.has_log(room)
            &&& post.room_log(room) == join_log(nick, room)
            &&& forall|tp: Seq<char>|
                pre.has_log(tp) ==> post.room_log(tp) == pre.room_log(tp)
        }
    }
}

/// Concatenate a prefix and a suffix.
pub(crate) fn concat2(a: &str, b: &str) -> (r: String)
    ensures
        r@ == a@ + b@,
{
    let mut s = String::from_str(a);
    s.append(b);
    s
}

/// Concatenate three pieces.
pub(crate) fn concat3(a: &str, b: &str, c: &str) -> (r: String)
    ensures
        r@ == a@ + b@ + c@,
{
    let mut s = String::from_str(a);
    s.append(b);
    s.append(c);
    s
}

/// What `accept_request` asks the caller to send.
#[derive(Clone, Copy, PartialEq, Eq, Structural, Debug)]
pub enum AcceptOutcome {
    /// No counterpart is set: nothing to accept; an error notice was
    /// posted.
    NoRequest,
    /// The negotiated file is missing locally: a Reject must be sent
    /// instead of an Accept.
    Reject { peer: PeerId },
    /// An Accept must be sent to the counterpart.
    Accept { peer: PeerId },
}

/// What `plan_submit` asks the caller to send.
#[derive(Clone, Debug)]
pub enum SubmitAction {
    /// No peers are reachable: nothing is sent.
    NoPeers,
    /// Send the text as a private message to the session counterpart.
    Private { peer: PeerId, request: PrivateRequest },
    /// Publish the text on the current topic.
    Publish { topic: String },
}

/// The single source of truth for identity, room membership, known
/// nicknames, per-room message history, and the private-session status.
pub struct App {
    /// Per-room message logs, keyed by topic name; a room's log exists if
    /// and only if the local peer has joined it at least once. Keys are
    /// unique (see `logs_wf`).
    pub messages: Vec<(String, Vec<(MessageType, String)>)>,
    /// The local user's chosen nickname.
    pub nickname: String,
    /// Which screen the user interface is on.
    pub screen: Screen,
    /// Set when the user asked to quit.
    pub quitting: bool,
    /// How many peers are currently reachable.
    pub num_connected_peers: usize,
    /// The currently subscribed publish/subscribe topic.
    pub topic: String,
    /// The local peer's own identifier, once the transport assigned it.
    pub peer_id: Option<PeerId>,
    /// The peer directory: known `(peer, nickname)` pairs, peers unique
    /// (see `nicks_wf`).
    pub nicknames: Vec<(PeerId, String)>,
    /// The locally cached, DHT-replicated catalog of room names.
    pub rooms: Vec<String>,
    /// The message log of the current private session.
    pub private_messages: Vec<(MessageType, String)>,
    /// The counterpart of the private session under negotiation, if any.
    pub connected_peer: Option<PeerId>,
    /// True once the private handshake completed and the session is the
    /// active message target.
    pub connected: bool,
    /// Name of the file under negotiation, if any.
    pub requested_file: Option<String>,
    /// True if the local peer, not the remote, initiated the current file
    /// request.
    pub requesting_file: bool,
}

impl App {
    /// The topic names that have a message log, in insertion order.
    pub open spec fn topics(self) -> Seq<Seq<char>> {
        Seq::new(self.messages@.len(), |i: int| self.messages@[i].0@)
    }

    /// Whether `topic` has a message log.
    pub open spec fn has_log(self, topic: Seq<char>) -> bool {
        self.topics().contains(topic)
    }

    /// The position of `topic`'s log; meaningful only when `has_log`.
    pub open spec fn log_index(self, topic: Seq<char>) -> int {
        choose|i: int| 0 <= i < self.messages@.len() && self.messages@[i].0@ == topic
    }

    /// The view of `topic`'s message log.
    pub open spec fn room_log(self, topic: Seq<char>) -> Seq<(MessageType, Seq<char>)>
        recommends
            self.has_log(topic),
    {
        log_view(self.messages@[self.log_index(topic)].1@)
    }

    /// The view of the private-session message log.
    pub open spec fn private_log(self) -> Seq<(MessageType, Seq<char>)> {
        log_view(self.private_messages@)
    }

    /// The known peers, in insertion order.
    pub open spec fn peers(self) -> Seq<PeerId> {
        Seq::new(self.nicknames@.len(), |i: int| self.nicknames@[i].0)
    }

    /// Whether the directory knows a nickname for `peer`.
    pub open spec fn knows_peer(self, peer: PeerId) -> bool {
        self.peers().contains(peer)
    }

    /// The position of `peer`'s directory entry; meaningful only when
    /// `knows_peer`.
    pub open spec fn nick_index(self, peer: PeerId) -> int {
        choose|i: int| 0 <= i < self.nicknames@.len() && self.nicknames@[i].0 == peer
    }

    /// The nickname the directory holds for `peer`.
    pub open spec fn nickname_of(self, peer: PeerId) -> Seq<char>
        recommends
            self.knows_peer(peer),
    {
        self.nicknames@[self.nick_index(peer)].1@
    }

    /// The room catalog as character sequences, in order.
    pub open spec fn rooms_view(self) -> Seq<Seq<char>> {
        Seq::new(self.rooms@.len(), |i: int| self.rooms@[i]@)
    }

    /// Room logs are keyed by distinct topic names.
    pub open spec fn logs_wf(self) -> bool {
        forall|i: int, j: int|
            0 <= i < j < self.messages@.len() ==> self.messages@[i].0@ != self.messages@[j].0@
    }

    /// The peer directory holds at most one nickname per peer.
    pub open spec fn nicks_wf(self) -> bool {
        forall|i: int, j: int|
            0 <= i < j < self.nicknames@.len() ==> self.nicknames@[i].0 != self.nicknames@[j].0
    }

    /// The private-session invariant: an active session has a counterpart,
    /// and an in-flight file request names its file.
    pub open spec fn session_wf(self) -> bool {
        &&& (self.connected ==> self.connected_peer is Some)
        &&& (self.requesting_file ==> self.requested_file is Some)
    }

    /// Well-formedness of the whole session state.
    pub open spec fn wf(self) -> bool {
        &&& self.logs_wf()
        &&& self.nicks_wf()
        &&& self.session_wf()
    }

    /// The fields that make up the private-session status are unchanged.
    pub open spec fn same_session(self, other: App) -> bool {
        &&& self.connected == other.connected
        &&& self.connected_peer == other.connected_peer
        &&& self.requested_file == other.requested_file
        &&& self.requesting_file == other.requesting_file
    }

    /// Everything except the message logs and the private-session status
    /// is unchanged.
    pub open spec fn same_but_session_and_logs(self, other: App) -> bool {
        &&& self.nickname == other.nickname
        &&& self.screen == other.screen
        &&& self.quitting == other.quitting
        &&& self.num_connected_peers == other.num_connected_peers
        &&& self.topic == other.topic
        &&& self.peer_id == other.peer_id
        &&& self.nicknames == other.nicknames
        &&& self.rooms == other.rooms
    }

    /// Everything except the message logs is unchanged.
    pub open spec fn same_but_logs(self, other: App) -> bool {
        &&& self.nickname == other.nickname
        &&& self.screen == other.screen
        &&& self.quitting == other.quitting
        &&& self.num_connected_peers == other.num_connected_peers
        &&& self.topic == other.topic
        &&& self.peer_id == other.peer_id
        &&& self.nicknames == other.nicknames
        &&& self.rooms == other.rooms
        &&& self.same_session(other)
    }

    /// `log_index` points at the one entry whose key is `topic`.
    pub proof fn lemma_log_index(self, topic: Seq<char>)
        requires
            self.logs_wf(),
            self.has_log(topic),
        ensures
            0 <= self.log_index(topic) < self.messages@.len(),
            self.messages@[self.log_index(topic)].0@ == topic,
            forall|j: int|
                0 <= j < self.messages@.len() && self.messages@[j].0@ == topic
                    ==> j == self.log_index(topic),
    {
        let w = choose|i: int| 0 <= i < self.topics().len() && self.topics()[i] == topic;
        assert(self.messages@[w].0@ == topic);
        assert(0 <= self.log_index(topic) < self.messages@.len() && self.messages@[self.log_index(
            topic,
        )].0@ == topic);
    }

    /// `nick_index` points at the one entry whose key is `peer`.
    pub proof fn lemma_nick_index(self, peer: PeerId)
        requires
            self.nicks_wf(),
            self.knows_peer(peer),
        ensures
            0 <= self.nick_index(peer) < self.nicknames@.len(),
            self.nicknames@[self.nick_index(peer)].0 == peer,
            forall|j: int|
                0 <= j < self.nicknames@.len() && self.nicknames@[j].0 == peer
                    ==> j == self.nick_index(peer),
    {
        let w = choose|i: int| 0 <= i < self.peers().len() && self.peers()[i] == peer;
        assert(self.nicknames@[w].0 == peer);
        assert(0 <= self.nick_index(peer) < self.nicknames@.len() && self.nicknames@[self.nick_index(
            peer,
        )].0 == peer);
    }

    /// A fresh session: no rooms, no peers, no logs, login screen.
    pub fn new() -> (app: App)
        ensures
            app.wf(),
            app.messages@.len() == 0,
            app.nickname@.len() == 0,
            app.screen == Screen::Login,
            !app.quitting,
            app.num_connected_peers == 0,
            app.topic@.len() == 0,
            app.peer_id is None,
            app.nicknames@.len() == 0,
            app.rooms@.len() == 0,
            app.private_messages@.len() == 0,
            app.connected_peer is None,
            !app.connected,
            app.requested_file is None,
            !app.requesting_file,
    {
        App {
            messages: Vec::new(),
            nickname: String::new(),
            screen: Screen::Login,
            quitting: false,
            num_connected_peers: 0,
            topic: String::new(),
            peer_id: None,
            nicknames: Vec::new(),
            rooms: Vec::new(),
            private_messages: Vec::new(),
            connected_peer: None,
            connected: false,
            requested_file: None,
            requesting_file: false,
        }
    }

    /// Find the position of `topic`'s log, if the room was ever joined.
    fn find_log(&self, topic: &String) -> (r: Option<usize>)
        ensures
            match r {
                Some(i) => i < self.messages@.len() && self.messages@[i as int].0@ == topic@,
                None => !self.has_log(topic@),
            },
    {
        let n = self.messages.len();
        let mut i: usize = 0;
        while i < n
            invariant
                n == self.messages@.len(),
                i <= n,
                forall|j: int| 0 <= j < i ==> self.messages@[j].0@ != topic@,
            decreases n - i,
        {
            if self.messages[i].0 == *topic {
                return Some(i);
            }
            i += 1;
        }
        assert(!self.has_log(topic@)) by {
            assert(forall|j: int|
                0 <= j < self.topics().len() ==> self.topics()[j] != topic@);
        }
        None
    }

    /// Append one entry to a message log.
    ///
    /// With `topic == Some(t)` the entry goes to `t`'s room log; if `t` was
    /// never joined the entry is dropped. With `topic == None` it goes to
    /// the private-session log.
    pub fn add_message(
        &mut self,
        message_type: MessageType,
        message: String,
        topic: Option<&String>,
    )
        requires
            old(self).wf(),
        ensures
            final(self).wf(),
            final(self).same_but_logs(*old(self)),
            final(self).topics() == old(self).topics(),
            match topic {
                Some(t) => {
                    &&& final(self).private_messages == old(self).private_messages
                    &&& if old(self).has_log(t@) {
                        &&& final(self).room_log(t@) == old(self).room_log(t@).push(
                            (message_type, message@),
                        )
                        &&& forall|tp: Seq<char>|
                            old(self).has_log(tp) && tp != t@
                                ==> final(self).room_log(tp) == old(self).room_log(tp)
                    } else {
                        final(self).messages == old(self).messages
                    }
                },
                None => {
                    &&& final(self).messages == old(self).messages
                    &&& final(self).private_messages@ == old(self).private_messages@.push(
                        (message_type, message),
                    )
                    &&& final(self).private_log() == old(self).private_log().push(
                        (message_type, message@),
                    )
                },
            },
    {
        match topic {
            Some(t) => {
                let found = self.find_log(t);
                match found {
                    Some(i) => {
                        let ghost pre = self.messages@;
                        let mut entry = self.messages.remove(i);
                        entry.1.push((message_type, message));
                        let ghost ge = entry;
                        self.messages.insert(i, entry);
                        proof {
                            assert(self.messages@ =~= pre.update(i as int, ge));
                            assert(self.topics() =~= old(self).topics());
                            self.lemma_topics_eq_preserves(*old(self));
                            assert(old(self).has_log(t@)) by {
                                assert(old(self).topics()[i as int] == t@);
                            }
                            old(self).lemma_log_index(t@);
                            self.lemma_log_index(t@);
                            assert(self.log_index(t@) == i);
                            assert(old(self).log_index(t@) == i);
                            lemma_log_view_push(pre[i as int].1@, (message_type, message));
                            assert(self.room_log(t@) =~= old(self).room_log(t@).push(
                                (message_type, message@),
                            ));
                            assert forall|tp: Seq<char>|
                                old(self).has_log(tp) && tp != t@ implies #[trigger] self.room_log(
                                tp,
                            ) == old(self).room_log(tp) by {
                                old(self).lemma_log_index(tp);
                                self.lemma_log_index(tp);
                                assert(self.log_index(tp) == old(self).log_index(tp));
                            }
                        }
                    },
                    None => {
                    },
                }
            },
            None => {
                let ghost pre = self.private_messages@;
                self.private_messages.push((message_type, message));
                proof {
                    lemma_log_view_push(pre, (message_type, message));
                    assert(self.private_log() =~= old(self).private_log().push(
                        (message_type, message@),
                    ));
                }
            },
        }
        proof {
            assert(self.topics() =~= old(self).topics());
            self.lemma_topics_eq_preserves(*old(self));
        }
    }

    /// Copy one message log entry by entry.
    fn copy_log(v: &Vec<(MessageType, String)>) -> (r: Vec<(MessageType, String)>)
        ensures
            log_view(r@) == log_view(v@),
    {
        let mut r: Vec<(MessageType, String)> = Vec::new();
        let n = v.len();
        let mut i: usize = 0;
        while i < n
            invariant
                i <= n,
                n == v@.len(),
                log_view(r@) =~= log_view(v@.subrange(0, i as int)),
            decreases n - i,
        {
            let kind = v[i].0;
            let text = v[i].1.clone();
            let ghost r_pre = r@;
            r.push((kind, text));
            proof {
                lemma_log_view_push(r_pre, (kind, text));
                lemma_log_view_push(v@.subrange(0, i as int), v@[i as int]);
                assert(v@.subrange(0, i as int + 1) =~= v@.subrange(0, i as int).push(
                    v@[i as int],
                ));
                assert(log_view(r@) =~= log_view(v@.subrange(0, i as int + 1)));
            }
            i += 1;
        }
        proof {
            assert(v@.subrange(0, n as int) =~= v@);
            assert(log_view(r@) =~= log_view(v@));
        }
        r
    }

    /// The log the user currently sees: the private log while a session is
    /// active, otherwise the current room's log (empty if that room has no
    /// log).
    pub fn get_messages(&self) -> (r: Vec<(MessageType, String)>)
        requires
            self.wf(),
        ensures
            log_view(r@) == if self.connected {
                self.private_log()
            } else if self.has_log(self.topic@) {
                self.room_log(self.topic@)
            } else {
                Seq::<(MessageType, Seq<char>)>::empty()
            },
    {
        if self.connected {
            return Self::copy_log(&self.private_messages);
        }
        let found = self.find_log(&self.topic);
        match found {
            Some(i) => {
                let r = Self::copy_log(&self.messages[i].1);
                proof {
                    assert(self.has_log(self.topic@)) by {
                        assert(self.topics()[i as int] == self.topic@);
                    }
                    self.lemma_log_index(self.topic@);
                    assert(self.log_index(self.topic@) == i);
                }
                r
            },
            None => Vec::new(),
        }
    }

    /// Record that one more peer is reachable; coming back from zero peers
    /// posts a notice to the current room.
    pub fn add_peer(&mut self)
        requires
            old(self).wf(),
            old(self).num_connected_peers < usize::MAX,
        ensures
            final(self).wf(),
            final(self).num_connected_peers == old(self).num_connected_peers + 1,
            final(self).topics() == old(self).topics(),
            final(self).private_messages == old(self).private_messages,
            final(self).nickname == old(self).nickname,
            final(self).screen == old(self).screen,
            final(self).quitting == old(self).quitting,
            final(self).topic == old(self).topic,
            final(self).peer_id == old(self).peer_id,
            final(self).nicknames == old(self).nicknames,
            final(self).rooms == old(self).rooms,
            final(self).same_session(*old(self)),
            if old(self).num_connected_peers == 0 && old(self).has_log(old(self).topic@) {
                &&& final(self).room_log(old(self).topic@) == old(self).room_log(
                    old(self).topic@,
                ).push((MessageType::Info, msg_peer_connected()))
                &&& forall|tp: Seq<char>|
                    old(self).has_log(tp) && tp != old(self).topic@
                        ==> final(self).room_log(tp) == old(self).room_log(tp)
            } else {
                final(self).messages == old(self).messages
            },
    {
        if self.num_connected_peers == 0 {
            let topic_str = self.topic.clone();
            self.add_message(
                MessageType::Info,
                String::from_str("Peer has connected"),
                Some(&topic_str),
            );
        }
        self.num_connected_peers = self.num_connected_peers + 1;
    }

    /// Whether some peer carries the nickname `nick`.
    pub open spec fn has_nickname_value(self, nick: Seq<char>) -> bool {
        exists|i: int| 0 <= i < self.nicknames@.len() && self.nicknames@[i].1@ == nick
    }

    /// The nickname shown for `peer`: the directory entry, or "Peer" when
    /// the directory has none.
    pub open spec fn display_nickname(self, peer: PeerId) -> Seq<char> {
        if self.knows_peer(peer) {
            self.nickname_of(peer)
        } else {
            "Peer"@
        }
    }

    /// Find the position of `peer`'s directory entry.
    fn find_nick(&self, peer: PeerId) -> (r: Option<usize>)
        ensures
            match r {
                Some(i) => i < self.nicknames@.len() && self.nicknames@[i as int].0 == peer,
                None => !self.knows_peer(peer),
            },
    {
        let n = self.nicknames.len();
        let mut i: usize = 0;
        while i < n
            invariant
                n == self.nicknames@.len(),
                i <= n,
                forall|j: int| 0 <= j < i ==> self.nicknames@[j].0 != peer,
            decreases n - i,
        {
            if self.nicknames[i].0 == peer {
                return Some(i);
            }
            i += 1;
        }
        assert(!self.knows_peer(peer)) by {
            assert(forall|j: int| 0 <= j < self.peers().len() ==> self.peers()[j] != peer);
        }
        None
    }

    /// The nickname the directory holds for `peer`, if any.
    pub fn lookup_nickname(&self, peer: PeerId) -> (r: Option<String>)
        requires
            self.wf(),
        ensures
            match r {
                Some(n) => self.knows_peer(peer) && n@ == self.nickname_of(peer),
                None => !self.knows_peer(peer),
            },
    {
        let found = self.find_nick(peer);
        match found {
            Some(i) => {
                let n = self.nicknames[i].1.clone();
                proof {
                    assert(self.knows_peer(peer)) by {
                        assert(self.peers()[i as int] == peer);
                    }
                    self.lemma_nick_index(peer);
                    assert(self.nick_index(peer) == i);
                }
                Some(n)
            },
            None => None,
        }
    }

    /// The nickname shown for `peer` (see `display_nickname`).
    pub fn display_name(&self, peer: PeerId) -> (r: String)
        requires
            self.wf(),
        ensures
            r@ == self.display_nickname(peer),
    {
        match self.lookup_nickname(peer) {
            Some(n) => n,
            None => String::from_str("Peer"),
        }
    }

    /// The first peer whose nickname is `nickname`, if any.
    pub fn peer_of_nickname(&self, nickname: &String) -> (r: Option<PeerId>)
        requires
            self.wf(),
        ensures
            match r {
                Some(p) => self.knows_peer(p) && self.nickname_of(p) == nickname@,
                None => !self.has_nickname_value(nickname@),
            },
    {
        let n = self.nicknames.len();
        let mut i: usize = 0;
        while i < n
            invariant
                self.wf(),
                n == self.nicknames@.len(),
                i <= n,
                forall|j: int| 0 <= j < i ==> self.nicknames@[j].1@ != nickname@,
            decreases n - i,
        {
            if self.nicknames[i].1 == *nickname {
                let p = self.nicknames[i].0;
                proof {
                    assert(self.knows_peer(p)) by {
                        assert(self.peers()[i as int] == p);
                    }
                    self.lemma_nick_index(p);
                    assert(self.nick_index(p) == i);
                }
                return Some(p);
            }
            i += 1;
        }
        None
    }

    /// Insert or replace the directory entry for `peer`.
    pub fn insert_nickname(&mut self, peer: PeerId, nickname: String)
        requires
            old(self).wf(),
        ensures
            final(self).wf(),
            final(self).knows_peer(peer),
            final(self).nickname_of(peer) == nickname@,
            forall|p: PeerId|
                p != peer ==> final(self).knows_peer(p) == old(self).knows_peer(p) && (old(
                    self,
                ).knows_peer(p) ==> final(self).nickname_of(p) == old(self).nickname_of(p)),
            final(self).messages == old(self).messages,
            final(self).private_messages == old(self).private_messages,
            final(self).nickname == old(self).nickname,
            final(self).screen == old(self).screen,
            final(self).quitting == old(self).quitting,
            final(self).num_connected_peers == old(self).num_connected_peers,
            final(self).topic == old(self).topic,
            final(self).peer_id == old(self).peer_id,
            final(self).rooms == old(self).rooms,
            final(self).same_session(*old(self)),
    {
        let found = self.find_nick(peer);
        match found {
            Some(i) => {
                let ghost pre = self.nicknames@;
                let _ = self.nicknames.remove(i);
                self.nicknames.insert(i, (peer, nickname));
                proof {
                    assert(self.nicknames@ =~= pre.update(i as int, (peer, nickname)));
                    assert(self.peers() =~= old(self).peers());
                    self.lemma_peers_eq_preserves(*old(self));
                    assert(final(self).knows_peer(peer)) by {
                        assert(self.peers()[i as int] == peer);
                    }
                    self.lemma_nick_index(peer);
                    assert(self.nick_index(peer) == i);
                    assert forall|p: PeerId|
                        p != peer && old(self).knows_peer(p) implies #[trigger] self.nickname_of(p)
                        == old(self).nickname_of(p) by {
                        old(self).lemma_nick_index(p);
                        self.lemma_nick_index(p);
                        assert(self.nick_index(p) == old(self).nick_index(p));
                    }
                }
            },
            None => {
                let ghost pre = self.nicknames@;
                self.nicknames.push((peer, nickname));
                proof {
                    assert(self.nicknames@ =~= pre.push((peer, nickname)));
                    let n = pre.len() as int;
                    assert(forall|j: int| 0 <= j < n ==> self.nicknames@[j] == pre[j]);
                    assert forall|a: int, b: int|
                        0 <= a < b < self.nicknames@.len() implies self.nicknames@[a].0
                        != self.nicknames@[b].0 by {
                        if b < n {
                            assert(old(self).nicknames@[a].0 != old(self).nicknames@[b].0);
                        } else {
                            assert(self.nicknames@[b].0 == peer);
                            if pre[a].0 == peer {
                                assert(old(self).peers()[a] == peer);
                            }
                        }
                    }
                    assert(self.nicks_wf());
                    assert(self.nicknames@[n].0 == peer);
                    assert(self.knows_peer(peer)) by {
                        assert(self.peers()[n] == peer);
                    }
                    self.lemma_nick_index(peer);
                    assert(self.nick_index(peer) == n);
                    assert forall|p: PeerId| p != peer implies #[trigger] self.knows_peer(p) == old(
                        self,
                    ).knows_peer(p) && (old(self).knows_peer(p) ==> self.nickname_of(p) == old(
                        self,
                    ).nickname_of(p)) by {
                        if old(self).knows_peer(p) {
                            old(self).lemma_nick_index(p);
                            let j = old(self).nick_index(p);
                            assert(self.peers()[j] == p);
                            self.lemma_nick_index(p);
                            assert(self.nick_index(p) == j);
                        } else {
                            if self.knows_peer(p) {
                                self.lemma_nick_index(p);
                                let j = self.nick_index(p);
                                assert(j < n ==> old(self).peers()[j] == p);
                            }
                        }
                    }
                }
            },
        }
    }

    /// Drop the directory entry for `peer`, if any.
    fn remove_nickname(&mut self, peer: PeerId)
        requires
            old(self).wf(),
        ensures
            final(self).wf(),
            !final(self).knows_peer(peer),
            forall|p: PeerId|
                p != peer ==> final(self).knows_peer(p) == old(self).knows_peer(p) && (old(
                    self,
                ).knows_peer(p) ==> final(self).nickname_of(p) == old(self).nickname_of(p)),
            final(self).messages == old(self).messages,
            final(self).private_messages == old(self).private_messages,
            final(self).nickname == old(self).nickname,
            final(self).screen == old(self).screen,
            final(self).quitting == old(self).quitting,
            final(self).num_connected_peers == old(self).num_connected_peers,
            final(self).topic == old(self).topic,
            final(self).peer_id == old(self).peer_id,
            final(self).rooms == old(self).rooms,
            final(self).same_session(*old(self)),
    {
        let found = self.find_nick(peer);
        match found {
            Some(i) => {
                let ghost pre = self.nicknames@;
                let _ = self.nicknames.remove(i);
                proof {
                    let n = self.nicknames@.len() as int;
                    assert(forall|k: int|
                        0 <= k < n ==> self.nicknames@[k] == (if k < i as int {
                            pre[k]
                        } else {
                            pre[k + 1]
                        }));
                    assert(self.nicks_wf());
                    assert(!self.knows_peer(peer)) by {
                        assert forall|k: int| 0 <= k < n implies self.peers()[k] != peer by {
                            if k < i as int {
                                assert(pre[k].0 != pre[i as int].0);
                            } else {
                                assert(pre[k + 1].0 != pre[i as int].0);
                            }
                        }
                    }
                    assert forall|p: PeerId|
                        p != peer implies #[trigger] self.knows_peer(p) == old(self).knows_peer(p)
                        && (old(self).knows_peer(p) ==> self.nickname_of(p) == old(
                        self,
                    ).nickname_of(p)) by {
                        if old(self).knows_peer(p) {
                            old(self).lemma_nick_index(p);
                            let j = old(self).nick_index(p);
                            let k = if j < i as int {
                                j
                            } else {
                                j - 1
                            };
                            assert(j != i as int);
                            assert(self.peers()[k] == p);
                            self.lemma_nick_index(p);
                            assert(self.nick_index(p) == k);
                        } else {
                            if self.knows_peer(p) {
                                self.lemma_nick_index(p);
                                let k = self.nick_index(p);
                                if k < i as int {
                                    assert(old(self).peers()[k] == p);
                                } else {
                                    assert(old(self).peers()[k + 1] == p);
                                }
                            }
                        }
                    }
                }
            },
            None => {
            },
        }
    }

    /// Record that a peer went away.
    ///
    /// Dropping to zero peers while chatting posts a notice and leaves any
    /// active private session; losing the session's counterpart forces the
    /// same transition as a received Leave, with an error notice.
    pub fn remove_peer(&mut self, peer_id: PeerId)
        requires
            old(self).wf(),
        ensures
            final(self).wf(),
            old(self).num_connected_peers == 0 ==> *final(self) == *old(self),
            old(self).num_connected_peers > 0 ==> {
                let drop_all = old(self).num_connected_peers == 1 && old(self).screen
                    == Screen::Chat;
                let cleared_first = drop_all && old(self).connected;
                let was_counter = !cleared_first && old(self).connected_peer == Some(peer_id);
                let cleared = cleared_first || was_counter;
                &&& final(self).num_connected_peers == old(self).num_connected_peers - 1
                &&& !final(self).knows_peer(peer_id)
                &&& forall|p: PeerId|
                    p != peer_id ==> final(self).knows_peer(p) == old(self).knows_peer(p) && (old(
                        self,
                    ).knows_peer(p) ==> final(self).nickname_of(p) == old(self).nickname_of(p))
                &&& final(self).connected == (old(self).connected && !cleared)
                &&& final(self).connected_peer == (if cleared {
                    Option::<PeerId>::None
                } else {
                    old(self).connected_peer
                })
                &&& final(self).requested_file == (if cleared {
                    Option::<String>::None
                } else {
                    old(self).requested_file
                })
                &&& final(self).requesting_file == (old(self).requesting_file && !cleared)
                &&& final(self).private_messages == old(self).private_messages
                &&& final(self).topics() == old(self).topics()
                &&& if old(self).has_log(old(self).topic@) {
                    &&& final(self).room_log(old(self).topic@) == {
                        let l0 = old(self).room_log(old(self).topic@);
                        let l1 = if drop_all {
                            l0.push((MessageType::Error, msg_no_peers()))
                        } else {
                            l0
                        };
                        if was_counter {
                            l1.push((MessageType::Error, msg_counterpart_gone()))
                        } else {
                            l1
                        }
                    }
                    &&& forall|tp: Seq<char>|
                        old(self).has_log(tp) && tp != old(self).topic@ ==> final(self).room_log(tp)
                            == old(self).room_log(tp)
                } else {
                    final(self).messages == old(self).messages
                }
                &&& final(self).nickname == old(self).nickname
                &&& final(self).screen == old(self).screen
                &&& final(self).quitting == old(self).quitting
                &&& final(self).topic == old(self).topic
                &&& final(self).peer_id == old(self).peer_id
                &&& final(self).rooms == old(self).rooms
            },
    {
        if self.num_connected_peers == 0 {
            return ;
        }
        let topic_str = self.topic.clone();
        if self.num_connected_peers == 1 && self.screen == Screen::Chat {
            if self.connected {
                self.connected = false;
                self.connected_peer = None;
                self.requesting_file = false;
                self.requested_file = None;
            }
            self.add_message(
                MessageType::Error,
                String::from_str("No connected peers."),
                Some(&topic_str),
            );
        }
        let ghost mid1: App = *self;
        self.remove_nickname(peer_id);
        let ghost mid2: App = *self;
        proof {
            mid1.lemma_nicknames_eq(*old(self));
        }
        let is_counterpart = match self.connected_peer {
            Some(cp) => cp == peer_id,
            None => false,
        };
        if is_counterpart {
            self.connected = false;
            self.connected_peer = None;
            self.requested_file = None;
            self.requesting_file = false;
            let ghost mid3: App = *self;
            proof {
                mid3.lemma_messages_eq(mid2);
                assert(mid3.topics() =~= mid2.topics());
            }
            self.add_message(
                MessageType::Error,
                String::from_str("Connected peer has left the application."),
                Some(&topic_str),
            );
        }
        let ghost mid4: App = *self;
        self.num_connected_peers = self.num_connected_peers - 1;
        proof {
            self.lemma_nicknames_eq(mid2);
            mid2.lemma_messages_eq(mid1);
            self.lemma_messages_eq(mid4);
            assert(self.topics() =~= mid4.topics());
            assert forall|tp: Seq<char>|
                old(self).has_log(tp) && tp != old(self).topic@ implies self.room_log(tp) == old(
                self,
            ).room_log(tp) by {
                assert(mid1.room_log(tp) == old(self).room_log(tp));
                assert(mid2.room_log(tp) == mid1.room_log(tp));
                assert(mid4.room_log(tp) == mid2.room_log(tp));
                assert(self.room_log(tp) == mid4.room_log(tp));
            }
        }
    }

    /// Whether `room` is already in the local room catalog.
    pub fn room_exists(&self, room: &String) -> (r: bool)
        ensures
            r == self.rooms_view().contains(room@),
    {
        let n = self.rooms.len();
        let mut i: usize = 0;
        while i < n
            invariant
                n == self.rooms@.len(),
                i <= n,
                forall|j: int| 0 <= j < i ==> self.rooms@[j]@ != room@,
            decreases n - i,
        {
            if self.rooms[i] == *room {
                proof {
                    assert(self.rooms_view()[i as int] == room@);
                }
                return true;
            }
            i += 1;
        }
        proof {
            assert(forall|j: int| 0 <= j < self.rooms_view().len() ==> self.rooms_view()[j] != room@);
        }
        false
    }

    /// Switch to `room`, initializing its log with the greeting lines on
    /// the first join. Returns whether the underlying topic subscription
    /// must change.
    pub fn join_room(&mut self, room: &String) -> (subscribe: bool)
        requires
            old(self).wf(),
        ensures
            final(self).wf(),
            subscribe == (old(self).topic@ != room@),
            old(self).topic@ == room@ ==> *final(self) == *old(self),
            join_transition(*old(self), *final(self), room@, old(self).nickname@),
            final(self).nickname == old(self).nickname,
            final(self).screen == old(self).screen,
            final(self).quitting == old(self).quitting,
            final(self).num_connected_peers == old(self).num_connected_peers,
            final(self).peer_id == old(self).peer_id,
            final(self).nicknames == old(self).nicknames,
            final(self).rooms == old(self).rooms,
            final(self).same_session(*old(self)),
    {
        if self.topic == *room {
            return false;
        }
        self.topic = room.clone();
        let ghost s1: App = *self;
        proof {
            assert(s1.topics() =~= old(self).topics());
            s1.lemma_topics_eq_preserves(*old(self));
        }
        let found = self.find_log(room);
        match found {
            Some(i) => {
                proof {
                    assert(old(self).has_log(room@)) by {
                        assert(old(self).topics()[i as int] == room@);
                    }
                }
            },
            None => {
                let ghost n = self.messages@.len() as int;
                self.messages.push((room.clone(), Vec::new()));
                let ghost s2: App = *self;
                proof {
                    assert(self.topics() =~= s1.topics().push(room@));
                    assert forall|a: int, b: int|
                        0 <= a < b < self.messages@.len() implies self.messages@[a].0@
                        != self.messages@[b].0@ by {
                        if b < n {
                            assert(s1.messages@[a].0@ != s1.messages@[b].0@);
                        } else {
                            assert(self.messages@[b].0@ == room@);
                            assert(s1.topics()[a] == s1.messages@[a].0@);
                        }
                    }
                    assert(self.wf());
                    assert(self.messages@[n].0@ == room@);
                    assert(self.has_log(room@)) by {
                        assert(self.topics()[n] == room@);
                    }
                    self.lemma_log_index(room@);
                    assert(self.log_index(room@) == n);
                    assert(self.room_log(room@) =~= Seq::<(MessageType, Seq<char>)>::empty());
                }
                let m1 = concat2("Logged in as: ", self.nickname.as_str());
                self.add_message(MessageType::Info, m1, Some(room));
                let m2 = concat2("Joined chat room: ", room.as_str());
                self.add_message(MessageType::Info, m2, Some(room));
                self.add_message(
                    MessageType::Help,
                    String::from_str("Type \"/help\" to view all available commands"),
                    Some(room),
                );
                proof {
                    assert(self.room_log(room@) =~= join_log(old(self).nickname@, room@));
                    assert(self.topics() == s2.topics());
                    assert forall|tp: Seq<char>|
                        old(self).has_log(tp) implies self.room_log(tp) == old(self).room_log(
                        tp,
                    ) by {
                        assert(tp != room@);
                        old(self).lemma_log_index(tp);
                        let j = old(self).log_index(tp);
                        assert(s2.messages@[j] == old(self).messages@[j]);
                        assert(s2.has_log(tp)) by {
                            assert(s2.topics()[j] == tp);
                        }
                        s2.lemma_log_index(tp);
                        assert(s2.log_index(tp) == j);
                        assert(s2.room_log(tp) == old(self).room_log(tp));
                        assert(self.room_log(tp) == s2.room_log(tp));
                    }
                }
            },
        }
        true
    }

    /// Create a new room: refuse a name already in the catalog, otherwise
    /// append it and join it. On success the caller must persist the full
    /// room list and subscribe to the new topic.
    pub fn add_room(&mut self, room: &String) -> (r: Result<(), NetworkError>)
        requires
            old(self).wf(),
        ensures
            final(self).wf(),
            final(self).rooms_view() == create_room_spec(old(self).rooms_view(), room@),
            r is Err <==> old(self).rooms_view().contains(room@),
            old(self).rooms_view().contains(room@) ==> r is Err && r->Err_0
                == NetworkError::AlreadyExists && *final(self) == *old(self),
            !old(self).rooms_view().contains(room@) ==> {
                &&& r is Ok
                &&& final(self).rooms_view() == old(self).rooms_view().push(room@)
                &&& join_transition(*old(self), *final(self), room@, old(self).nickname@)
                &&& final(self).nickname == old(self).nickname
                &&& final(self).screen == old(self).screen
                &&& final(self).quitting == old(self).quitting
                &&& final(self).num_connected_peers == old(self).num_connected_peers
                &&& final(self).peer_id == old(self).peer_id
                &&& final(self).nicknames == old(self).nicknames
                &&& final(self).same_session(*old(self))
            },
    {
        if self.room_exists(room) {
            return Err(NetworkError::AlreadyExists);
        }
        self.rooms.push(room.clone());
        let ghost mid: App = *self;
        proof {
            mid.lemma_messages_eq(*old(self));
            assert(mid.topics() =~= old(self).topics());
            assert(mid.rooms_view() =~= old(self).rooms_view().push(room@));
        }
        let _ = self.join_room(room);
        proof {
            assert(self.rooms_view() == mid.rooms_view());
            assert(join_transition(*old(self), *self, room@, old(self).nickname@)) by {
                assert(join_transition(mid, *self, room@, mid.nickname@));
                if mid.topic@ != room@ && !mid.has_log(room@) {
                    assert(!old(self).has_log(room@));
                }
            }
        }
        Ok(())
    }

    /// Invite the peer nicknamed `nickname` to a private session.
    ///
    /// Refused while a session is already pending or active, and when no
    /// known peer carries the nickname. On success the caller must send a
    /// Join request to the returned peer.
    pub fn connect(&mut self, nickname: &String) -> (r: Result<PeerId, NetworkError>)
        requires
            old(self).wf(),
        ensures
            final(self).wf(),
            (old(self).connected || old(self).connected_peer is Some) ==> r is Err && r->Err_0
                == NetworkError::AlreadyConnected && *final(self) == *old(self),
            !(old(self).connected || old(self).connected_peer is Some) ==> if old(
                self,
            ).has_nickname_value(nickname@) {
                &&& r is Ok
                &&& old(self).knows_peer(r->Ok_0)
                &&& old(self).nickname_of(r->Ok_0) == nickname@
                &&& final(self).connected_peer == Some(r->Ok_0)
                &&& !final(self).connected
                &&& final(self).requested_file == old(self).requested_file
                &&& final(self).requesting_file == old(self).requesting_file
                &&& final(self).private_messages == old(self).private_messages
                &&& final(self).topics() == old(self).topics()
                &&& if old(self).has_log(old(self).topic@) {
                    &&& final(self).room_log(old(self).topic@) == old(self).room_log(
                        old(self).topic@,
                    ).push((MessageType::Info, "Connection sent to "@ + nickname@))
                    &&& forall|tp: Seq<char>|
                        old(self).has_log(tp) && tp != old(self).topic@ ==> final(self).room_log(
                            tp,
                        ) == old(self).room_log(tp)
                } else {
                    final(self).messages == old(self).messages
                }
                &&& final(self).nickname == old(self).nickname
                &&& final(self).screen == old(self).screen
                &&& final(self).quitting == old(self).quitting
                &&& final(self).num_connected_peers == old(self).num_connected_peers
                &&& final(self).topic == old(self).topic
                &&& final(self).peer_id == old(self).peer_id
                &&& final(self).nicknames == old(self).nicknames
                &&& final(self).rooms == old(self).rooms
            } else {
                &&& r is Err
                &&& r->Err_0 == NetworkError::NotFound
                &&& *final(self) == *old(self)
            },
    {
        if self.connected || self.connected_peer.is_some() {
            return Err(NetworkError::AlreadyConnected);
        }
        let found = self.peer_of_nickname(nickname);
        match found {
            None => Err(NetworkError::NotFound),
            Some(p) => {
                proof {
                    assert(old(self).has_nickname_value(nickname@)) by {
                        old(self).lemma_nick_index(p);
                        assert(old(self).nicknames@[old(self).nick_index(p)].1@ == nickname@);
                    }
                }
                self.connected_peer = Some(p);
                let ghost mid: App = *self;
                proof {
                    mid.lemma_messages_eq(*old(self));
                    assert(mid.topics() =~= old(self).topics());
                }
                let topic_str = self.topic.clone();
                let m = concat2("Connection sent to ", nickname.as_str());
                self.add_message(MessageType::Info, m, Some(&topic_str));
                Ok(p)
            },
        }
    }

    /// Enter the active private session with the current counterpart:
    /// set `connected`, reset the private log, and post the greeting
    /// lines. Does nothing when no counterpart is set.
    pub fn join_private_dm(&mut self)
        requires
            old(self).wf(),
        ensures
            final(self).wf(),
            old(self).connected_peer is None ==> *final(self) == *old(self),
            old(self).connected_peer is Some ==> {
                let cp = old(self).connected_peer->0;
                &&& final(self).connected
                &&& final(self).connected_peer == old(self).connected_peer
                &&& final(self).requested_file == old(self).requested_file
                &&& final(self).requesting_file == old(self).requesting_file
                &&& final(self).private_log() == dm_log(old(self).display_nickname(cp))
                &&& final(self).messages == old(self).messages
                &&& final(self).nickname == old(self).nickname
                &&& final(self).screen == old(self).screen
                &&& final(self).quitting == old(self).quitting
                &&& final(self).num_connected_peers == old(self).num_connected_peers
                &&& final(self).topic == old(self).topic
                &&& final(self).peer_id == old(self).peer_id
                &&& final(self).nicknames == old(self).nicknames
                &&& final(self).rooms == old(self).rooms
            },
    {
        match self.connected_peer {
            None => {
            },
            Some(cp) => {
                self.connected = true;
                self.private_messages = Vec::new();
                proof {
                    self.lemma_nicknames_eq(*old(self));
                    assert(self.private_log() =~= Seq::<(MessageType, Seq<char>)>::empty());
                }
                let nick = self.display_name(cp);
                let m1 = concat2("Joined private message with ", nick.as_str());
                self.add_message(MessageType::Info, m1, None);
                self.add_message(
                    MessageType::Info,
                    String::from_str("To leave the private message, type \"/leave\""),
                    None,
                );
                self.add_message(
                    MessageType::Help,
                    String::from_str("Type \"/help\" to view all available commands"),
                    None,
                );
                proof {
                    assert(self.private_log() =~= dm_log(old(self).display_nickname(cp)));
                }
            },
        }
    }

    /// Accept the incoming request. `file_exists` says whether the file
    /// under negotiation (if any) exists in local storage; when it does
    /// not, a Reject is emitted instead and the file-request state is
    /// cleared. Accepting with no file under negotiation enters the
    /// active session.
    pub fn accept_request(&mut self, file_exists: bool) -> (r: AcceptOutcome)
        requires
            old(self).wf(),
        ensures
            final(self).wf(),
            match old(self).connected_peer {
                None => {
                    &&& r == AcceptOutcome::NoRequest
                    &&& final(self).same_session(*old(self))
                    &&& final(self).private_messages == old(self).private_messages
                    &&& final(self).topics() == old(self).topics()
                    &&& if old(self).has_log(old(self).topic@) {
                        &&& final(self).room_log(old(self).topic@) == old(self).room_log(
                            old(self).topic@,
                        ).push(
                            (
                                MessageType::Error,
                                "Unable to accept request as there is no incoming request."@,
                            ),
                        )
                        &&& forall|tp: Seq<char>|
                            old(self).has_log(tp) && tp != old(self).topic@ ==> final(self).room_log(tp) == old(self).room_log(tp)
                    } else {
                        final(self).messages == old(self).messages
                    }
                    &&& final(self).same_but_logs(*old(self))
                },
                Some(cp) => {
                    &&& final(self).messages == old(self).messages
                    &&& if old(self).requested_file is Some && !file_exists {
                        &&& r == (AcceptOutcome::Reject { peer: cp })
                        &&& final(self).connected == old(self).connected
                        &&& final(self).connected_peer == old(self).connected_peer
                        &&& final(self).requested_file is None
                        &&& !final(self).requesting_file
                        &&& final(self).private_log() == old(self).private_log() + seq![
                            (
                                MessageType::Error,
                                "Unable to send file as file doesn't exist"@,
                            ),
                            (MessageType::Error, "Sending automatic reject message"@),
                        ]
                    } else if old(self).requested_file is None {
                        &&& r == (AcceptOutcome::Accept { peer: cp })
                        &&& final(self).connected
                        &&& final(self).connected_peer == old(self).connected_peer
                        &&& final(self).requested_file is None
                        &&& !final(self).requesting_file
                        &&& final(self).private_log() == dm_log(old(self).display_nickname(cp))
                    } else {
                        &&& r == (AcceptOutcome::Accept { peer: cp })
                        &&& *final(self) == *old(self)
                    }
                    &&& final(self).nickname == old(self).nickname
                    &&& final(self).screen == old(self).screen
                    &&& final(self).quitting == old(self).quitting
                    &&& final(self).num_connected_peers == old(self).num_connected_peers
                    &&& final(self).topic == old(self).topic
                    &&& final(self).peer_id == old(self).peer_id
                    &&& final(self).nicknames == old(self).nicknames
                    &&& final(self).rooms == old(self).rooms
                },
            },
    {
        let topic_str = self.topic.clone();
        match self.connected_peer {
            None => {
                self.add_message(
                    MessageType::Error,
                    String::from_str("Unable to accept request as there is no incoming request."),
                    Some(&topic_str),
                );
                AcceptOutcome::NoRequest
            },
            Some(cp) => {
                let has_file_request = self.requested_file.is_some();
                if has_file_request && !file_exists {
                    self.add_message(
                        MessageType::Error,
                        String::from_str("Unable to send file as file doesn't exist"),
                        None,
                    );
                    self.add_message(
                        MessageType::Error,
                        String::from_str("Sending automatic reject message"),
                        None,
                    );
                    self.requesting_file = false;
                    self.requested_file = None;
                    proof {
                        assert(self.private_log() =~= old(self).private_log() + seq![
                            (
                                MessageType::Error,
                                "Unable to send file as file doesn't exist"@,
                            ),
                            (MessageType::Error, "Sending automatic reject message"@),
                        ]);
                    }
                    AcceptOutcome::Reject { peer: cp }
                } else {
                    if !has_file_request {
                        self.join_private_dm();
                    }
                    AcceptOutcome::Accept { peer: cp }
                }
            },
        }
    }

    /// Reject the incoming request. A file negotiation in progress is
    /// cancelled without ending the session; otherwise the session returns
    /// to idle. On `Some(peer)` the caller must send a Reject request.
    pub fn reject_request(&mut self) -> (r: Option<PeerId>)
        requires
            old(self).wf(),
        ensures
            final(self).wf(),
            match old(self).connected_peer {
                None => {
                    &&& r is None
                    &&& final(self).same_session(*old(self))
                    &&& final(self).private_messages == old(self).private_messages
                    &&& final(self).topics() == old(self).topics()
                    &&& if old(self).has_log(old(self).topic@) {
                        &&& final(self).room_log(old(self).topic@) == old(self).room_log(
                            old(self).topic@,
                        ).push(
                            (
                                MessageType::Error,
                                "Unable to reject request as there is no incoming request."@,
                            ),
                        )
                        &&& forall|tp: Seq<char>|
                            old(self).has_log(tp) && tp != old(self).topic@ ==> final(self).room_log(tp) == old(self).room_log(tp)
                    } else {
                        final(self).messages == old(self).messages
                    }
                    &&& final(self).same_but_logs(*old(self))
                },
                Some(cp) => {
                    &&& r == Some(cp)
                    &&& final(self).messages == old(self).messages
                    &&& final(self).private_messages == old(self).private_messages
                    &&& if old(self).requested_file is Some {
                        &&& final(self).requested_file is None
                        &&& !final(self).requesting_file
                        &&& final(self).connected == old(self).connected
                        &&& final(self).connected_peer == old(self).connected_peer
                    } else {
                        &&& final(self).connected_peer is None
                        &&& !final(self).connected
                        &&& final(self).requested_file is None
                        &&& !final(self).requesting_file
                    }
                    &&& final(self).nickname == old(self).nickname
                    &&& final(self).screen == old(self).screen
                    &&& final(self).quitting == old(self).quitting
                    &&& final(self).num_connected_peers == old(self).num_connected_peers
                    &&& final(self).topic == old(self).topic
                    &&& final(self).peer_id == old(self).peer_id
                    &&& final(self).nicknames == old(self).nicknames
                    &&& final(self).rooms == old(self).rooms
                },
            },
    {
        let topic_str = self.topic.clone();
        match self.connected_peer {
            None => {
                self.add_message(
                    MessageType::Error,
                    String::from_str("Unable to reject request as there is no incoming request."),
                    Some(&topic_str),
                );
                None
            },
            Some(cp) => {
                if self.requested_file.is_some() {
                    self.requested_file = None;
                    self.requesting_file = false;
                } else {
                    self.connected_peer = None;
                    self.connected = false;
                }
                Some(cp)
            },
        }
    }

    /// Leave the private session: return to idle and post which room the
    /// user is back in. On `Ok(peer)` the caller must send a Leave request.
    pub fn leave_private_dm(&mut self) -> (r: Result<PeerId, NetworkError>)
        requires
            old(self).wf(),
        ensures
            final(self).wf(),
            old(self).connected_peer is None ==> r is Err && r->Err_0 == NetworkError::NotFound
                && *final(self) == *old(self),
            old(self).connected_peer is Some ==> {
                &&& r is Ok
                &&& r->Ok_0 == old(self).connected_peer->0
                &&& !final(self).connected
                &&& final(self).connected_peer is None
                &&& final(self).requested_file is None
                &&& !final(self).requesting_file
                &&& final(self).private_messages == old(self).private_messages
                &&& final(self).topics() == old(self).topics()
                &&& if old(self).has_log(old(self).topic@) {
                    &&& final(self).room_log(old(self).topic@) == old(self).room_log(
                        old(self).topic@,
                    ).push((MessageType::Info, "You have been moved back to "@ + old(self).topic@))
                    &&& forall|tp: Seq<char>|
                        old(self).has_log(tp) && tp != old(self).topic@ ==> final(self).room_log(
                            tp,
                        ) == old(self).room_log(tp)
                } else {
                    final(self).messages == old(self).messages
                }
                &&& final(self).nickname == old(self).nickname
                &&& final(self).screen == old(self).screen
                &&& final(self).quitting == old(self).quitting
                &&& final(self).num_connected_peers == old(self).num_connected_peers
                &&& final(self).topic == old(self).topic
                &&& final(self).peer_id == old(self).peer_id
                &&& final(self).nicknames == old(self).nicknames
                &&& final(self).rooms == old(self).rooms
            },
    {
        match self.connected_peer {
            None => Err(NetworkError::NotFound),
            Some(cp) => {
                self.connected = false;
                self.connected_peer = None;
                self.requested_file = None;
                self.requesting_file = false;
                let ghost mid: App = *self;
                proof {
                    mid.lemma_messages_eq(*old(self));
                    assert(mid.topics() =~= old(self).topics());
                }
                let topic_str = self.topic.clone();
                let m = concat2("You have been moved back to ", topic_str.as_str());
                self.add_message(MessageType::Info, m, Some(&topic_str));
                Ok(cp)
            },
        }
    }

    /// Ask the counterpart for a file. Valid only while the session is
    /// active; on `Ok(peer)` the caller must send a FileRequest for
    /// `filename` to that peer.
    pub fn request_file(&mut self, filename: &String) -> (r: Result<PeerId, NetworkError>)
        requires
            old(self).wf(),
        ensures
            final(self).wf(),
            !old(self).connected ==> r is Err && r->Err_0 == NetworkError::NotFound && *final(self)
                == *old(self),
            old(self).connected ==> {
                &&& r is Ok
                &&& r->Ok_0 == old(self).connected_peer->0
                &&& final(self).requesting_file
                &&& final(self).requested_file is Some
                &&& final(self).requested_file->0@ == filename@
                &&& final(self).connected
                &&& final(self).connected_peer == old(self).connected_peer
                &&& final(self).messages == old(self).messages
                &&& final(self).private_log() == old(self).private_log().push(
                    (MessageType::Info, "Requested file: "@ + filename@),
                )
                &&& final(self).nickname == old(self).nickname
                &&& final(self).screen == old(self).screen
                &&& final(self).quitting == old(self).quitting
                &&& final(self).num_connected_peers == old(self).num_connected_peers
                &&& final(self).topic == old(self).topic
                &&& final(self).peer_id == old(self).peer_id
                &&& final(self).nicknames == old(self).nicknames
                &&& final(self).rooms == old(self).rooms
            },
    {
        if !self.connected {
            return Err(NetworkError::NotFound);
        }
        let cp = match self.connected_peer {
            Some(p) => p,
            None => {
                return Err(NetworkError::NotFound);
            },
        };
        let m = concat2("Requested file: ", filename.as_str());
        self.add_message(MessageType::Info, m, None);
        self.requesting_file = true;
        self.requested_file = Some(filename.clone());
        Ok(cp)
    }

    /// Record the chosen nickname, move to the chat screen, and join the
    /// default room. Returns whether the underlying topic subscription must
    /// change; the caller must also publish the nickname record and
    /// refresh the room catalog.
    pub fn login(&mut self, nickname: &String) -> (subscribe: bool)
        requires
            old(self).wf(),
        ensures
            final(self).wf(),
            final(self).nickname@ == nickname@,
            final(self).screen == Screen::Chat,
            final(self).rooms_view() == old(self).rooms_view().push("Global"@),
            subscribe == (old(self).topic@ != "Global"@),
            join_transition(*old(self), *final(self), "Global"@, nickname@),
            final(self).quitting == old(self).quitting,
            final(self).num_connected_peers == old(self).num_connected_peers,
            final(self).peer_id == old(self).peer_id,
            final(self).nicknames == old(self).nicknames,
            final(self).same_session(*old(self)),
    {
        self.nickname = nickname.clone();
        self.screen = Screen::Chat;
        let g = String::from_str("Global");
        self.rooms.push(g.clone());
        let ghost mid: App = *self;
        proof {
            mid.lemma_messages_eq(*old(self));
            assert(mid.topics() =~= old(self).topics());
            assert(mid.rooms_view() =~= old(self).rooms_view().push("Global"@));
        }
        let subscribe = self.join_room(&g);
        proof {
            assert(self.rooms_view() == mid.rooms_view());
            assert(join_transition(*old(self), *self, "Global"@, nickname@)) by {
                assert(join_transition(mid, *self, "Global"@, mid.nickname@));
                if mid.topic@ != "Global"@ && !mid.has_log("Global"@) {
                    assert(!old(self).has_log("Global"@));
                }
            }
        }
        subscribe
    }

    /// Decide where an outgoing chat line goes: nowhere without peers, to
    /// the counterpart while a session is active, otherwise to the current
    /// topic. The caller sends, and on success records the local echo with
    /// `record_own_message`.
    pub fn plan_submit(&self, text: &String) -> (r: SubmitAction)
        requires
            self.wf(),
        ensures
            self.num_connected_peers == 0 ==> r is NoPeers,
            self.num_connected_peers > 0 && self.connected ==> (r matches SubmitAction::Private {
                peer,
                request,
            } && peer == self.connected_peer->0 && request.request_type == RequestType::Message && (
            request.message matches Some(m) && m@ == text@) && request.filename is None),
            self.num_connected_peers > 0 && !self.connected ==> (r matches SubmitAction::Publish {
                topic,
            } && topic@ == self.topic@),
    {
        if self.num_connected_peers == 0 {
            return SubmitAction::NoPeers;
        }
        if self.connected {
            let cp = match self.connected_peer {
                Some(p) => p,
                None => {
                    return SubmitAction::NoPeers;
                },
            };
            SubmitAction::Private {
                peer: cp,
                request: PrivateRequest {
                    request_type: RequestType::Message,
                    message: Some(text.clone()),
                    filename: None,
                },
            }
        } else {
            SubmitAction::Publish { topic: self.topic.clone() }
        }
    }

    /// Append the local user's own chat line ("{nick}: {text}") to the log
    /// it was sent to: the private log while a session is active, otherwise
    /// the current room's log.
    pub fn record_own_message(&mut self, text: &String)
        requires
            old(self).wf(),
        ensures
            final(self).wf(),
            final(self).same_but_logs(*old(self)),
            final(self).topics() == old(self).topics(),
            ({
                let line = (MessageType::Message, msg_nick_line(old(self).nickname@, text@));
                if old(self).connected {
                    &&& final(self).private_log() == old(self).private_log().push(line)
                    &&& final(self).messages == old(self).messages
                } else {
                    &&& final(self).private_messages == old(self).private_messages
                    &&& if old(self).has_log(old(self).topic@) {
                        &&& final(self).room_log(old(self).topic@) == old(self).room_log(
                            old(self).topic@,
                        ).push(line)
                        &&& forall|tp: Seq<char>|
                            old(self).has_log(tp) && tp != old(self).topic@ ==> final(self).room_log(tp) == old(self).room_log(tp)
                    } else {
                        final(self).messages == old(self).messages
                    }
                }
            }),
    {
        let m = concat3(self.nickname.as_str(), ": ", text.as_str());
        if self.connected {
            self.add_message(MessageType::Message, m, None);
        } else {
            let topic_str = self.topic.clone();
            self.add_message(MessageType::Message, m, Some(&topic_str));
        }
    }

    /// Unchanged logs keep `has_log` and `room_log` in step.
    pub proof fn lemma_messages_eq(self, other: App)
        requires
            self.messages == other.messages,
            other.logs_wf(),
        ensures
            self.logs_wf(),
            forall|tp: Seq<char>| self.has_log(tp) == other.has_log(tp),
            forall|tp: Seq<char>|
                other.has_log(tp) ==> self.room_log(tp) == other.room_log(tp),
    {
        assert(self.topics() =~= other.topics());
        self.lemma_topics_eq_preserves(other);
        assert forall|tp: Seq<char>|
            other.has_log(tp) implies self.room_log(tp) == other.room_log(tp) by {
            other.lemma_log_index(tp);
            let j = other.log_index(tp);
            assert(self.messages@[j].0@ == tp);
            self.lemma_log_index(tp);
            assert(self.log_index(tp) == j);
        }
    }

    /// An unchanged directory keeps `knows_peer` and `nickname_of` in step.
    pub proof fn lemma_nicknames_eq(self, other: App)
        requires
            self.nicknames == other.nicknames,
            other.nicks_wf(),
        ensures
            self.nicks_wf(),
            forall|p: PeerId| self.knows_peer(p) == other.knows_peer(p),
            forall|p: PeerId|
                other.knows_peer(p) ==> self.nickname_of(p) == other.nickname_of(p),
    {
        assert(self.peers() =~= other.peers());
        self.lemma_peers_eq_preserves(other);
        assert forall|p: PeerId|
            other.knows_peer(p) implies self.nickname_of(p) == other.nickname_of(p) by {
            other.lemma_nick_index(p);
            let j = other.nick_index(p);
            assert(self.nicknames@[j].0 == p);
            self.lemma_nick_index(p);
            assert(self.nick_index(p) == j);
        }
    }

    /// Equal peer sequences keep `knows_peer` and well-formedness in step.
    proof fn lemma_peers_eq_preserves(self, other: App)
        requires
            self.peers() == other.peers(),
            other.nicks_wf(),
        ensures
            self.nicks_wf(),
            forall|p: PeerId| self.knows_peer(p) == other.knows_peer(p),
    {
        assert(self.peers().len() == self.nicknames@.len());
        assert(other.peers().len() == other.nicknames@.len());
        assert forall|i: int, j: int|
            0 <= i < j < self.nicknames@.len() implies self.nicknames@[i].0
            != self.nicknames@[j].0 by {
            assert(self.peers()[i] == self.nicknames@[i].0);
            assert(self.peers()[j] == self.nicknames@[j].0);
            assert(other.peers()[i] == other.nicknames@[i].0);
            assert(other.peers()[j] == other.nicknames@[j].0);
        }
    }

    /// Equal topic sequences keep `has_log` and well-formedness in step.
    proof fn lemma_topics_eq_preserves(self, other: App)
        requires
            self.topics() == other.topics(),
            other.logs_wf(),
        ensures
            self.logs_wf(),
            forall|tp: Seq<char>| self.has_log(tp) == other.has_log(tp),
    {
        assert(self.topics().len() == self.messages@.len());
        assert(other.topics().len() == other.messages@.len());
        assert forall|i: int, j: int|
            0 <= i < j < self.messages@.len() implies self.messages@[i].0@ != self.messages@[j].0@ by {
            assert(self.topics()[i] == self.messages@[i].0@);
            assert(self.topics()[j] == self.messages@[j].0@);
            assert(other.topics()[i] == other.messages@[i].0@);
            assert(other.topics()[j] == other.messages@[j].0@);
        }
    }
}

} // verus!
