//! The network engine's decision logic: inbound overlay events are applied
//! to the session state, and each function returns the action the caller
//! (the task that owns the overlay connection) must perform.
//!
//! Nickname records are eventually consistent, so a message or private
//! request can arrive before its sender's nickname is known. The
//! `Resolver` buffers such items keyed by the id of the DHT lookup issued
//! for them, and each completion redelivers exactly one buffered item.

use vstd::prelude::*;
use vstd::string::StringExecFns;

use crate::codec::{cbor_decode_rooms, rooms_of_cbor, utf8_lossy, utf8_lossy_of, utf8_of};
use crate::protocol::{PeerId, PrivateRequest, PrivateResponse, RequestType};
use crate::state::{dm_log, msg_nick_line, App, MessageType};

verus! {

/// An item buffered until its sender's nickname lookup completes.
#[derive(Clone, Debug)]
pub enum PendingItem {
    /// A public chat message from a peer with no known nickname yet.
    PublicMessage { topic: String, data: Vec<u8> },
    /// A private request from a peer with no known nickname yet.
    Request { request: PrivateRequest },
}

/// The pending-query correlation table: one entry per outstanding DHT
/// lookup, keyed by the opaque query id the DHT layer assigned.
pub struct Resolver {
    pub pending: Vec<(u64, PendingItem)>,
}

impl Resolver {
    /// The outstanding query ids, in insertion order.
    pub open spec fn qids(self) -> Seq<u64> {
        Seq::new(self.pending@.len(), |i: int| self.pending@[i].0)
    }

    /// Whether a lookup with id `qid` is outstanding.
    pub open spec fn has_query(self, qid: u64) -> bool {
        self.qids().contains(qid)
    }

    /// The position of `qid`'s entry; meaningful only when `has_query`.
    pub open spec fn query_index(self, qid: u64) -> int {
        choose|i: int| 0 <= i < self.pending@.len() && self.pending@[i].0 == qid
    }

    /// The item buffered under `qid`.
    pub open spec fn item_of(self, qid: u64) -> PendingItem
        recommends
            self.has_query(qid),
    {
        self.pending@[self.query_index(qid)].1
    }

    /// At most one entry per outstanding query id.
    pub open spec fn wf(self) -> bool {
        forall|i: int, j: int|
            0 <= i < j < self.pending@.len() ==> self.pending@[i].0 != self.pending@[j].0
    }

    /// `query_index` points at the one entry whose key is `qid`.
    pub proof fn lemma_query_index(self, qid: u64)
        requires
            self.wf(),
            self.has_query(qid),
        ensures
            0 <= self.query_index(qid) < self.pending@.len(),
            self.pending@[self.query_index(qid)].0 == qid,
            forall|j: int|
                0 <= j < self.pending@.len() && self.pending@[j].0 == qid ==> j
                    == self.query_index(qid),
    {
        let w = choose|i: int| 0 <= i < self.qids().len() && self.qids()[i] == qid;
        assert(self.pending@[w].0 == qid);
        assert(0 <= self.query_index(qid) < self.pending@.len() && self.pending@[self.query_index(
            qid,
        )].0 == qid);
    }

    /// An empty table.
    pub fn new() -> (r: Resolver)
        ensures
            r.wf(),
            r.pending@.len() == 0,
    {
        Resolver { pending: Vec::new() }
    }

    /// Find the position of `qid`'s entry.
    fn find_query(&self, qid: u64) -> (r: Option<usize>)
        ensures
            match r {
                Some(i) => i < self.pending@.len() && self.pending@[i as int].0 == qid,
                None => !self.has_query(qid),
            },
    {
        let n = self.pending.len();
        let mut i: usize = 0;
        while i < n
            invariant
                n == self.pending@.len(),
                i <= n,
                forall|j: int| 0 <= j < i ==> self.pending@[j].0 != qid,
            decreases n - i,
        {
            if self.pending[i].0 == qid {
                return Some(i);
            }
            i += 1;
        }
        assert(!self.has_query(qid)) by {
            assert(forall|j: int| 0 <= j < self.qids().len() ==> self.qids()[j] != qid);
        }
        None
    }

    /// Buffer an item under a fresh query id.
    fn buffer(&mut self, query_id: u64, item: PendingItem)
        requires
            old(self).wf(),
            !old(self).has_query(query_id),
        ensures
            final(self).wf(),
            final(self).has_query(query_id),
            final(self).item_of(query_id) == item,
            forall|q: u64|
                q != query_id ==> final(self).has_query(q) == old(self).has_query(q) && (old(
                    self,
                ).has_query(q) ==> final(self).item_of(q) == old(self).item_of(q)),
    {
        let ghost pre = self.pending@;
        let ghost n = pre.len() as int;
        self.pending.push((query_id, item));
        proof {
            assert(forall|j: int| 0 <= j < n ==> self.pending@[j] == pre[j]);
            assert forall|a: int, b: int|
                0 <= a < b < self.pending@.len() implies self.pending@[a].0
                != self.pending@[b].0 by {
                if b < n {
                    assert(old(self).pending@[a].0 != old(self).pending@[b].0);
                } else {
                    assert(self.pending@[b].0 == query_id);
                    if pre[a].0 == query_id {
                        assert(old(self).qids()[a] == query_id);
                    }
                }
            }
            assert(self.wf());
            assert(self.pending@[n].0 == query_id);
            assert(self.has_query(query_id)) by {
                assert(self.qids()[n] == query_id);
            }
            self.lemma_query_index(query_id);
            assert(self.query_index(query_id) == n);
            assert forall|q: u64| q != query_id implies #[trigger] self.has_query(q) == old(
                self,
            ).has_query(q) && (old(self).has_query(q) ==> self.item_of(q) == old(self).item_of(
                q,
            )) by {
                if old(self).has_query(q) {
                    old(self).lemma_query_index(q);
                    let j = old(self).query_index(q);
                    assert(self.qids()[j] == q);
                    self.lemma_query_index(q);
                    assert(self.query_index(q) == j);
                } else {
                    if self.has_query(q) {
                        self.lemma_query_index(q);
                        let j = self.query_index(q);
                        assert(j < n ==> old(self).qids()[j] == q);
                    }
                }
            }
        }
    }

    /// Buffer a public message whose sender is being resolved.
    pub fn buffer_message(&mut self, query_id: u64, topic: String, data: Vec<u8>)
        requires
            old(self).wf(),
            !old(self).has_query(query_id),
        ensures
            final(self).wf(),
            final(self).has_query(query_id),
            final(self).item_of(query_id) == (PendingItem::PublicMessage { topic, data }),
            forall|q: u64|
                q != query_id ==> final(self).has_query(q) == old(self).has_query(q) && (old(
                    self,
                ).has_query(q) ==> final(self).item_of(q) == old(self).item_of(q)),
    {
        self.buffer(query_id, PendingItem::PublicMessage { topic, data });
    }

    /// Buffer a private request whose sender is being resolved.
    pub fn buffer_request(&mut self, query_id: u64, request: PrivateRequest)
        requires
            old(self).wf(),
            !old(self).has_query(query_id),
        ensures
            final(self).wf(),
            final(self).has_query(query_id),
            final(self).item_of(query_id) == (PendingItem::Request { request }),
            forall|q: u64|
                q != query_id ==> final(self).has_query(q) == old(self).has_query(q) && (old(
                    self,
                ).has_query(q) ==> final(self).item_of(q) == old(self).item_of(q)),
    {
        self.buffer(query_id, PendingItem::Request { request });
    }

    /// Remove and return the item buffered under `query_id`, if any.
    pub fn take(&mut self, query_id: u64) -> (r: Option<PendingItem>)
        requires
            old(self).wf(),
        ensures
            final(self).wf(),
            !final(self).has_query(query_id),
            match r {
                Some(item) => old(self).has_query(query_id) && item == old(self).item_of(query_id),
                None => !old(self).has_query(query_id) && *final(self) == *old(self),
            },
            forall|q: u64|
                q != query_id ==> final(self).has_query(q) == old(self).has_query(q),
            forall|q: u64|
                q != query_id && old(self).has_query(q) ==> final(self).item_of(q) == old(
                    self,
                ).item_of(q),
    {
        let found = self.find_query(query_id);
        match found {
            None => None,
            Some(i) => {
                let ghost pre = self.pending@;
                let entry = self.pending.remove(i);
                proof {
                    assert(old(self).has_query(query_id)) by {
                        assert(old(self).qids()[i as int] == query_id);
                    }
                    old(self).lemma_query_index(query_id);
                    assert(old(self).query_index(query_id) == i);
                    let n = self.pending@.len() as int;
                    assert(forall|k: int|
                        0 <= k < n ==> self.pending@[k] == (if k < i as int {
                            pre[k]
                        } else {
                            pre[k + 1]
                        }));
                    assert(self.wf());
                    assert(!self.has_query(query_id)) by {
                        assert forall|k: int| 0 <= k < n implies self.qids()[k] != query_id by {
                            if k < i as int {
                                assert(pre[k].0 != pre[i as int].0);
                            } else {
                                assert(pre[k + 1].0 != pre[i as int].0);
                            }
                        }
                    }
                    assert forall|q: u64| q != query_id implies #[trigger] self.has_query(q) == old(
                        self,
                    ).has_query(q) by {
                        if old(self).has_query(q) {
                            old(self).lemma_query_index(q);
                            let j = old(self).query_index(q);
                            let k = if j < i as int {
                                j
                            } else {
                                j - 1
                            };
                            assert(j != i as int);
                            assert(self.qids()[k] == q);
                        } else {
                            if self.has_query(q) {
                                self.lemma_query_index(q);
                                let k = self.query_index(q);
                                if k < i as int {
                                    assert(old(self).qids()[k] == q);
                                } else {
                                    assert(old(self).qids()[k + 1] == q);
                                }
                            }
                        }
                    }
                    assert forall|q: u64|
                        q != query_id && old(self).has_query(q) implies #[trigger] self.item_of(q)
                        == old(self).item_of(q) by {
                        old(self).lemma_query_index(q);
                        let j = old(self).query_index(q);
                        let k = if j < i as int {
                            j
                        } else {
                            j - 1
                        };
                        assert(j != i as int);
                        assert(self.qids()[k] == q);
                        self.lemma_query_index(q);
                        assert(self.query_index(q) == k);
                    }
                }
                Some(entry.1)
            },
        }
    }
}

/// A DHT lookup failed or returned malformed data: the buffered item, if
/// any, is dropped and never redelivered.
pub fn on_query_failed(resolver: &mut Resolver, query_id: u64)
    requires
        old(resolver).wf(),
    ensures
        final(resolver).wf(),
        !final(resolver).has_query(query_id),
        forall|q: u64|
            q != query_id ==> final(resolver).has_query(q) == old(resolver).has_query(q),
        forall|q: u64|
            q != query_id && old(resolver).has_query(q) ==> final(resolver).item_of(q) == old(
                resolver,
            ).item_of(q),
{
    let _ = resolver.take(query_id);
}

/// An inbound public message. When the sender's nickname is known the
/// message is displayed at once in its topic's log; otherwise nothing
/// changes and the caller must issue a nickname lookup for `peer` and
/// buffer the message under the lookup's query id.
pub fn on_public_message(app: &mut App, peer: PeerId, topic: &String, data: &Vec<u8>) -> (displayed:
    bool)
    requires
        old(app).wf(),
    ensures
        final(app).wf(),
        displayed == old(app).knows_peer(peer),
        !displayed ==> *final(app) == *old(app),
        displayed ==> {
            let line = (
                MessageType::Message,
                msg_nick_line(old(app).nickname_of(peer), utf8_lossy_of(data@)),
            );
            &&& final(app).same_but_logs(*old(app))
            &&& final(app).private_messages == old(app).private_messages
            &&& final(app).topics() == old(app).topics()
            &&& if old(app).has_log(topic@) {
                &&& final(app).room_log(topic@) == old(app).room_log(topic@).push(line)
                &&& forall|tp: Seq<char>|
                    old(app).has_log(tp) && tp != topic@ ==> final(app).room_log(tp) == old(
                        app,
                    ).room_log(tp)
            } else {
                final(app).messages == old(app).messages
            }
        },
{
    let nick = app.lookup_nickname(peer);
    match nick {
        None => false,
        Some(n) => {
            let text = utf8_lossy(data);
            let m = crate::state::concat3(n.as_str(), ": ", text.as_str());
            app.add_message(MessageType::Message, m, Some(topic));
            true
        },
    }
}

/// What the caller must do after an inbound private request was handled.
#[derive(Clone, Debug)]
pub enum RequestOutcome {
    /// Nothing further to do.
    Done,
    /// The sender's nickname is unknown: the caller must issue a DHT
    /// lookup for `peer` and buffer the request under the lookup's query
    /// id.
    NeedsNickname { peer: PeerId },
    /// A request must be sent to `peer` (the FileRequest re-sent once the
    /// handshake round of a file negotiation was accepted).
    Send { peer: PeerId, request: PrivateRequest },
}

/// Apply an inbound private request from `peer` to the negotiator state.
///
/// A Join is dropped while a counterpart is set, and buffered while the
/// sender's nickname is unresolved. An Accept while a file request is in
/// flight re-sends the FileRequest; otherwise it enters the active
/// session. A Reject cancels the file negotiation if one is in progress
/// and otherwise returns the session to idle. A Leave always returns to
/// idle. Requests that need a counterpart are ignored when none is set.
pub fn handle_private_request(app: &mut App, peer: PeerId, request: PrivateRequest) -> (r:
    RequestOutcome)
    requires
        old(app).wf(),
    ensures
        final(app).wf(),
        match request.request_type {
            RequestType::Join => {
                if old(app).connected_peer is Some {
                    &&& r is Done
                    &&& *final(app) == *old(app)
                } else if !old(app).knows_peer(peer) {
                    &&& (r matches RequestOutcome::NeedsNickname { peer: p } && p == peer)
                    &&& *final(app) == *old(app)
                } else {
                    let line = (
                        MessageType::Info,
                        old(app).nickname_of(peer)
                            + " has invited you to chat! Type \"/accept\" to accept or \"/reject\" to reject"@,
                    );
                    &&& r is Done
                    &&& final(app).connected_peer == Some(peer)
                    &&& !final(app).connected
                    &&& final(app).requested_file == old(app).requested_file
                    &&& final(app).requesting_file == old(app).requesting_file
                    &&& final(app).private_messages == old(app).private_messages
                    &&& final(app).topics() == old(app).topics()
                    &&& if old(app).has_log(old(app).topic@) {
                        &&& final(app).room_log(old(app).topic@) == old(app).room_log(
                            old(app).topic@,
                        ).push(line)
                        &&& forall|tp: Seq<char>|
                            old(app).has_log(tp) && tp != old(app).topic@ ==> final(app).room_log(
                                tp,
                            ) == old(app).room_log(tp)
                    } else {
                        final(app).messages == old(app).messages
                    }
                    &&& final(app).same_but_session_and_logs(*old(app))
                }
            },
            RequestType::Accept => {
                if old(app).connected_peer is None {
                    &&& r is Done
                    &&& *final(app) == *old(app)
                } else if old(app).requesting_file {
                    &&& (r matches RequestOutcome::Send { peer: p, request: rq } && p == old(
                        app,
                    ).connected_peer->0 && rq.request_type == RequestType::FileRequest
                        && rq.message is None && rq.filename is Some && rq.filename->0@ == old(
                        app,
                    ).requested_file->0@)
                    &&& *final(app) == *old(app)
                } else {
                    let cp = old(app).connected_peer->0;
                    &&& r is Done
                    &&& final(app).connected
                    &&& final(app).connected_peer == old(app).connected_peer
                    &&& final(app).requested_file == old(app).requested_file
                    &&& final(app).requesting_file == old(app).requesting_file
                    &&& final(app).private_log() == dm_log(old(app).display_nickname(cp))
                    &&& final(app).messages == old(app).messages
                    &&& final(app).same_but_session_and_logs(*old(app))
                }
            },
            RequestType::Reject => {
                if old(app).connected_peer is None {
                    &&& r is Done
                    &&& *final(app) == *old(app)
                } else {
                    let cp = old(app).connected_peer->0;
                    let line = (
                        MessageType::Info,
                        old(app).display_nickname(cp) + " has rejected the request."@,
                    );
                    &&& r is Done
                    &&& if old(app).requested_file is Some {
                        &&& final(app).requested_file is None
                        &&& !final(app).requesting_file
                        &&& final(app).connected == old(app).connected
                        &&& final(app).connected_peer == old(app).connected_peer
                    } else {
                        &&& final(app).connected_peer is None
                        &&& !final(app).connected
                        &&& final(app).requested_file is None
                        &&& !final(app).requesting_file
                    }
                    &&& if old(app).connected {
                        &&& final(app).private_log() == old(app).private_log().push(line)
                        &&& final(app).messages == old(app).messages
                    } else {
                        &&& final(app).private_messages == old(app).private_messages
                        &&& final(app).topics() == old(app).topics()
                        &&& if old(app).has_log(old(app).topic@) {
                            &&& final(app).room_log(old(app).topic@) == old(app).room_log(
                                old(app).topic@,
                            ).push(line)
                            &&& forall|tp: Seq<char>|
                                old(app).has_log(tp) && tp != old(app).topic@ ==> final(app).room_log(tp) == old(app).room_log(tp)
                        } else {
                            final(app).messages == old(app).messages
                        }
                    }
                    &&& final(app).same_but_session_and_logs(*old(app))
                }
            },
            RequestType::Message => {
                if old(app).connected_peer is None {
                    &&& r is Done
                    &&& *final(app) == *old(app)
                } else {
                    let cp = old(app).connected_peer->0;
                    let text = match request.message {
                        Some(m) => m@,
                        None => Seq::<char>::empty(),
                    };
                    let line = (
                        MessageType::Message,
                        msg_nick_line(old(app).display_nickname(cp), text),
                    );
                    &&& r is Done
                    &&& final(app).private_log() == old(app).private_log().push(line)
                    &&& final(app).messages == old(app).messages
                    &&& final(app).same_session(*old(app))
                    &&& final(app).same_but_session_and_logs(*old(app))
                }
            },
            RequestType::FileRequest => {
                if old(app).connected_peer is None || request.filename is None {
                    &&& r is Done
                    &&& *final(app) == *old(app)
                } else {
                    let cp = old(app).connected_peer->0;
                    let f = request.filename->0;
                    &&& r is Done
                    &&& final(app).requested_file is Some
                    &&& final(app).requested_file->0@ == f@
                    &&& final(app).requesting_file == old(app).requesting_file
                    &&& final(app).connected == old(app).connected
                    &&& final(app).connected_peer == old(app).connected_peer
                    &&& final(app).private_log() == old(app).private_log() + seq![
                        (
                            MessageType::Info,
                            old(app).display_nickname(cp) + " has requested the file: "@ + f@,
                        ),
                        (
                            MessageType::Info,
                            "Type \"/accept\" or \"/reject\" to accept or reject the request"@,
                        ),
                    ]
                    &&& final(app).messages == old(app).messages
                    &&& final(app).same_but_session_and_logs(*old(app))
                }
            },
            RequestType::Leave => {
                if old(app).connected_peer is None {
                    &&& r is Done
                    &&& *final(app) == *old(app)
                } else {
                    let cp = old(app).connected_peer->0;
                    let line = (
                        MessageType::Info,
                        old(app).display_nickname(cp)
                            + " has left the chat. You have been moved back to "@ + old(
                            app,
                        ).topic@,
                    );
                    &&& r is Done
                    &&& !final(app).connected
                    &&& final(app).connected_peer is None
                    &&& final(app).requested_file is None
                    &&& !final(app).requesting_file
                    &&& final(app).private_messages == old(app).private_messages
                    &&& final(app).topics() == old(app).topics()
                    &&& if old(app).has_log(old(app).topic@) {
                        &&& final(app).room_log(old(app).topic@) == old(app).room_log(
                            old(app).topic@,
                        ).push(line)
                        &&& forall|tp: Seq<char>|
                            old(app).has_log(tp) && tp != old(app).topic@ ==> final(app).room_log(
                                tp,
                            ) == old(app).room_log(tp)
                    } else {
                        final(app).messages == old(app).messages
                    }
                    &&& final(app).same_but_session_and_logs(*old(app))
                }
            },
        },
{
    match request.request_type {
        RequestType::Join => {
            if app.connected_peer.is_some() {
                return RequestOutcome::Done;
            }
            let nick = app.lookup_nickname(peer);
            match nick {
                None => RequestOutcome::NeedsNickname { peer },
                Some(n) => {
                    let topic_str = app.topic.clone();
                    let m = crate::state::concat2(
                        n.as_str(),
                        " has invited you to chat! Type \"/accept\" to accept or \"/reject\" to reject",
                    );
                    app.add_message(MessageType::Info, m, Some(&topic_str));
                    let ghost mid: App = *app;
                    app.connected_peer = Some(peer);
                    proof {
                        app.lemma_messages_eq(mid);
                        assert(app.topics() =~= mid.topics());
                        assert forall|tp: Seq<char>|
                            old(app).has_log(tp) && tp != old(app).topic@ implies app.room_log(tp)
                            == old(app).room_log(tp) by {
                            assert(mid.room_log(tp) == old(app).room_log(tp));
                            assert(app.room_log(tp) == mid.room_log(tp));
                        }
                    }
                    RequestOutcome::Done
                },
            }
        },
        RequestType::Accept => {
            match app.connected_peer {
                None => RequestOutcome::Done,
                Some(cp) => {
                    if app.requesting_file {
                        let filename = match &app.requested_file {
                            Some(f) => Some(f.clone()),
                            None => None,
                        };
                        RequestOutcome::Send {
                            peer: cp,
                            request: PrivateRequest {
                                request_type: RequestType::FileRequest,
                                message: None,
                                filename,
                            },
                        }
                    } else {
                        app.join_private_dm();
                        RequestOutcome::Done
                    }
                },
            }
        },
        RequestType::Reject => {
            match app.connected_peer {
                None => RequestOutcome::Done,
                Some(cp) => {
                    let nick = app.display_name(cp);
                    let m = crate::state::concat2(nick.as_str(), " has rejected the request.");
                    if app.connected {
                        app.add_message(MessageType::Info, m, None);
                    } else {
                        let topic_str = app.topic.clone();
                        app.add_message(MessageType::Info, m, Some(&topic_str));
                    }
                    let ghost mid: App = *app;
                    if app.requested_file.is_some() {
                        app.requested_file = None;
                        app.requesting_file = false;
                    } else {
                        app.connected_peer = None;
                        app.connected = false;
                    }
                    proof {
                        app.lemma_messages_eq(mid);
                        assert(app.topics() =~= mid.topics());
                        assert forall|tp: Seq<char>|
                            old(app).has_log(tp) && tp != old(app).topic@ implies app.room_log(tp)
                            == old(app).room_log(tp) by {
                            assert(mid.room_log(tp) == old(app).room_log(tp));
                            assert(app.room_log(tp) == mid.room_log(tp));
                        }
                        if old(app).has_log(old(app).topic@) && !old(app).connected {
                            assert(mid.room_log(old(app).topic@) == old(app).room_log(
                                old(app).topic@,
                            ).push(
                                (
                                    MessageType::Info,
                                    old(app).display_nickname(cp) + " has rejected the request."@,
                                ),
                            ));
                            assert(app.room_log(old(app).topic@) == mid.room_log(old(app).topic@));
                        }
                    }
                    RequestOutcome::Done
                },
            }
        },
        RequestType::Message => {
            match app.connected_peer {
                None => RequestOutcome::Done,
                Some(cp) => {
                    let nick = app.display_name(cp);
                    let text = match &request.message {
                        Some(m) => m.clone(),
                        None => String::new(),
                    };
                    let line = crate::state::concat3(nick.as_str(), ": ", text.as_str());
                    app.add_message(MessageType::Message, line, None);
                    RequestOutcome::Done
                },
            }
        },
        RequestType::FileRequest => {
            match app.connected_peer {
                None => RequestOutcome::Done,
                Some(cp) => {
                    match request.filename {
                        None => RequestOutcome::Done,
                        Some(f) => {
                            let nick = app.display_name(cp);
                            let m1 = crate::state::concat3(
                                nick.as_str(),
                                " has requested the file: ",
                                f.as_str(),
                            );
                            app.add_message(MessageType::Info, m1, None);
                            app.add_message(
                                MessageType::Info,
                                String::from_str(
                                    "Type \"/accept\" or \"/reject\" to accept or reject the request",
                                ),
                                None,
                            );
                            app.requested_file = Some(f);
                            proof {
                                assert(app.private_log() =~= old(app).private_log() + seq![
                                    (
                                        MessageType::Info,
                                        old(app).display_nickname(cp) + " has requested the file: "@
                                            + request.filename->0@,
                                    ),
                                    (
                                        MessageType::Info,
                                        "Type \"/accept\" or \"/reject\" to accept or reject the request"@,
                                    ),
                                ]);
                            }
                            RequestOutcome::Done
                        },
                    }
                },
            }
        },
        RequestType::Leave => {
            match app.connected_peer {
                None => RequestOutcome::Done,
                Some(cp) => {
                    let nick = app.display_name(cp);
                    let topic_str = app.topic.clone();
                    let m = crate::state::concat3(
                        nick.as_str(),
                        " has left the chat. You have been moved back to ",
                        topic_str.as_str(),
                    );
                    app.add_message(MessageType::Info, m, Some(&topic_str));
                    let ghost mid: App = *app;
                    app.connected_peer = None;
                    app.connected = false;
                    app.requested_file = None;
                    app.requesting_file = false;
                    proof {
                        app.lemma_messages_eq(mid);
                        assert(app.topics() =~= mid.topics());
                        assert forall|tp: Seq<char>|
                            old(app).has_log(tp) && tp != old(app).topic@ implies app.room_log(tp)
                            == old(app).room_log(tp) by {
                            assert(mid.room_log(tp) == old(app).room_log(tp));
                            assert(app.room_log(tp) == mid.room_log(tp));
                        }
                        if old(app).has_log(old(app).topic@) {
                            assert(app.room_log(old(app).topic@) == mid.room_log(old(app).topic@));
                        }
                    }
                    RequestOutcome::Done
                },
            }
        },
    }
}

/// A record arrived under the room-catalog key: replace the local catalog
/// when the value parses as a list of strings, drop it otherwise.
pub fn on_rooms_record(app: &mut App, value: &Vec<u8>) -> (replaced: bool)
    requires
        old(app).wf(),
    ensures
        final(app).wf(),
        match rooms_of_cbor(value@) {
            Some(rs) => {
                &&& replaced
                &&& final(app).rooms_view() == rs
                &&& final(app).messages == old(app).messages
                &&& final(app).private_messages == old(app).private_messages
                &&& final(app).nickname == old(app).nickname
                &&& final(app).screen == old(app).screen
                &&& final(app).quitting == old(app).quitting
                &&& final(app).num_connected_peers == old(app).num_connected_peers
                &&& final(app).topic == old(app).topic
                &&& final(app).peer_id == old(app).peer_id
                &&& final(app).nicknames == old(app).nicknames
                &&& final(app).same_session(*old(app))
            },
            None => !replaced && *final(app) == *old(app),
        },
{
    let parsed = cbor_decode_rooms(value);
    match parsed {
        Some(rooms) => {
            app.rooms = rooms;
            proof {
                assert(app.rooms_view() =~= rooms_of_cbor(value@)->0);
            }
            true
        },
        None => false,
    }
}

/// The DHT key under which the room catalog is replicated: the bytes of
/// "rooms".
pub open spec fn rooms_key() -> Seq<u8> {
    seq![114u8, 111u8, 111u8, 109u8, 115u8]
}

/// Whether `key` is the room-catalog record key.
fn is_rooms_key(key: &Vec<u8>) -> (r: bool)
    ensures
        r == (key@ == rooms_key()),
{
    if key.len() != 5 {
        proof {
            assert(key@ != rooms_key());
        }
        return false;
    }
    let r = key[0] == 114 && key[1] == 111 && key[2] == 111 && key[3] == 109 && key[4] == 115;
    proof {
        if r {
            assert(key@ =~= rooms_key());
        } else {
            assert(key@ != rooms_key());
        }
    }
    r
}

/// What the caller must do after a fetched DHT record was applied.
#[derive(Clone, Debug)]
pub enum RecordOutcome {
    /// Handled: the room catalog was replaced, a buffered message was
    /// displayed, the record was malformed, or nothing was pending.
    Done,
    /// A buffered private request must be redelivered to
    /// `handle_private_request` with `peer` as its sender.
    Redeliver { peer: PeerId, request: PrivateRequest },
}

/// A fetched DHT record arrived for the lookup `query_id`.
///
/// A record under the room-catalog key replaces the local catalog. Any
/// other record is a nickname record: its value is the peer's nickname in
/// UTF-8, and `peer_of_key` is the peer whose identifier the record key
/// carries. The nickname enters the directory and the one item buffered
/// under `query_id`, if any, is redelivered: a public message is displayed
/// with the resolved nickname; a private request is handed back for
/// redelivery. A malformed record only drops the buffered item.
pub fn on_record_found(
    app: &mut App,
    resolver: &mut Resolver,
    query_id: u64,
    key: &Vec<u8>,
    peer_of_key: Option<PeerId>,
    value: Vec<u8>,
) -> (r: RecordOutcome)
    requires
        old(app).wf(),
        old(resolver).wf(),
    ensures
        final(app).wf(),
        final(resolver).wf(),
        if key@ == rooms_key() {
            &&& r is Done
            &&& *final(resolver) == *old(resolver)
            &&& match rooms_of_cbor(value@) {
                Some(rs) => {
                    &&& final(app).rooms_view() == rs
                    &&& final(app).messages == old(app).messages
                    &&& final(app).private_messages == old(app).private_messages
                    &&& final(app).nicknames == old(app).nicknames
                    &&& final(app).same_session(*old(app))
                    &&& final(app).nickname == old(app).nickname
                    &&& final(app).screen == old(app).screen
                    &&& final(app).quitting == old(app).quitting
                    &&& final(app).num_connected_peers == old(app).num_connected_peers
                    &&& final(app).topic == old(app).topic
                    &&& final(app).peer_id == old(app).peer_id
                },
                None => *final(app) == *old(app),
            }
        } else if peer_of_key is Some && utf8_of(value@) is Some {
            let p = peer_of_key->0;
            let nick = utf8_of(value@)->0;
            &&& !final(resolver).has_query(query_id)
            &&& forall|q: u64|
                q != query_id ==> final(resolver).has_query(q) == old(resolver).has_query(q)
            &&& forall|q: u64|
                q != query_id && old(resolver).has_query(q) ==> final(resolver).item_of(q) == old(
                    resolver,
                ).item_of(q)
            &&& final(app).knows_peer(p)
            &&& final(app).nickname_of(p) == nick
            &&& forall|p2: PeerId|
                p2 != p ==> final(app).knows_peer(p2) == old(app).knows_peer(p2) && (old(
                    app,
                ).knows_peer(p2) ==> final(app).nickname_of(p2) == old(app).nickname_of(p2))
            &&& final(app).same_session(*old(app))
            &&& final(app).nickname == old(app).nickname
            &&& final(app).screen == old(app).screen
            &&& final(app).quitting == old(app).quitting
            &&& final(app).num_connected_peers == old(app).num_connected_peers
            &&& final(app).topic == old(app).topic
            &&& final(app).peer_id == old(app).peer_id
            &&& final(app).rooms == old(app).rooms
            &&& if old(resolver).has_query(query_id) {
                match old(resolver).item_of(query_id) {
                    PendingItem::PublicMessage { topic, data } => {
                        let line = (
                            MessageType::Message,
                            msg_nick_line(nick, utf8_lossy_of(data@)),
                        );
                        &&& r is Done
                        &&& final(app).private_messages == old(app).private_messages
                        &&& final(app).topics() == old(app).topics()
                        &&& if old(app).has_log(topic@) {
                            &&& final(app).room_log(topic@) == old(app).room_log(topic@).push(
                                line,
                            )
                            &&& forall|tp: Seq<char>|
                                old(app).has_log(tp) && tp != topic@ ==> final(app).room_log(tp)
                                    == old(app).room_log(tp)
                        } else {
                            final(app).messages == old(app).messages
                        }
                    },
                    PendingItem::Request { request } => {
                        &&& (r matches RecordOutcome::Redeliver { peer: rp, request: rq } && rp
                            == p && rq == request)
                        &&& final(app).messages == old(app).messages
                        &&& final(app).private_messages == old(app).private_messages
                    },
                }
            } else {
                &&& r is Done
                &&& final(app).messages == old(app).messages
                &&& final(app).private_messages == old(app).private_messages
            }
        } else {
            &&& r is Done
            &&& *final(app) == *old(app)
            &&& !final(resolver).has_query(query_id)
            &&& forall|q: u64|
                q != query_id ==> final(resolver).has_query(q) == old(resolver).has_query(q)
            &&& forall|q: u64|
                q != query_id && old(resolver).has_query(q) ==> final(resolver).item_of(q) == old(
                    resolver,
                ).item_of(q)
        },
{
    if is_rooms_key(key) {
        let _ = on_rooms_record(app, &value);
        return RecordOutcome::Done;
    }
    let p = match peer_of_key {
        Some(p) => p,
        None => {
            let _ = resolver.take(query_id);
            return RecordOutcome::Done;
        },
    };
    let nick = match crate::codec::utf8_strict(value) {
        Some(s) => s,
        None => {
            let _ = resolver.take(query_id);
            return RecordOutcome::Done;
        },
    };
    app.insert_nickname(p, nick.clone());
    let ghost mid: App = *app;
    let item = resolver.take(query_id);
    match item {
        None => RecordOutcome::Done,
        Some(PendingItem::PublicMessage { topic, data }) => {
            let text = utf8_lossy(&data);
            let m = crate::state::concat3(nick.as_str(), ": ", text.as_str());
            proof {
                mid.lemma_messages_eq(*old(app));
                assert(mid.topics() =~= old(app).topics());
            }
            app.add_message(MessageType::Message, m, Some(&topic));
            proof {
                assert forall|tp: Seq<char>|
                    old(app).has_log(tp) && tp != topic@ implies app.room_log(tp) == old(
                    app,
                ).room_log(tp) by {
                    assert(mid.room_log(tp) == old(app).room_log(tp));
                    assert(app.room_log(tp) == mid.room_log(tp));
                }
                if old(app).has_log(topic@) {
                    assert(mid.room_log(topic@) == old(app).room_log(topic@));
                    assert(app.room_log(topic@) == mid.room_log(topic@).push(
                        (
                            MessageType::Message,
                            msg_nick_line(utf8_of(value@)->0, utf8_lossy_of(data@)),
                        ),
                    ));
                }
            }
            RecordOutcome::Done
        },
        Some(PendingItem::Request { request }) => RecordOutcome::Redeliver { peer: p, request },
    }
}

/// What the caller must answer to an inbound request/response message.
#[derive(Clone, Debug)]
pub enum InboundAction {
    /// The local peer already holds a file under negotiation for the
    /// counterpart (the second leg of a file exchange): answer with the
    /// named file's bytes, without prompting the user. The acknowledgment
    /// flag of the response is false.
    SendFile { filename: String },
    /// Answer with a plain acknowledgment and hand the request to
    /// `handle_private_request`.
    Handle { request: PrivateRequest },
}

/// An inbound request arrived on the request/response channel: decide
/// whether to answer it with the file already under negotiation, or to
/// acknowledge it and handle it as a protocol message.
pub fn on_inbound_request(app: &mut App, request: PrivateRequest) -> (r: InboundAction)
    requires
        old(app).wf(),
    ensures
        final(app).wf(),
        if old(app).requested_file is Some && !old(app).requesting_file {
            &&& (r matches InboundAction::SendFile { filename } && filename@ == old(
                app,
            ).requested_file->0@)
            &&& final(app).requested_file is None
            &&& !final(app).requesting_file
            &&& final(app).connected == old(app).connected
            &&& final(app).connected_peer == old(app).connected_peer
            &&& final(app).messages == old(app).messages
            &&& final(app).private_messages == old(app).private_messages
            &&& final(app).same_but_session_and_logs(*old(app))
        } else {
            &&& (r matches InboundAction::Handle { request: rq } && rq == request)
            &&& *final(app) == *old(app)
        },
{
    if app.requested_file.is_some() && !app.requesting_file {
        let f = match &app.requested_file {
            Some(f) => f.clone(),
            None => String::new(),
        };
        app.requested_file = None;
        InboundAction::SendFile { filename: f }
    } else {
        InboundAction::Handle { request }
    }
}

/// An inbound response arrived on the request/response channel.
///
/// A plain acknowledgment is ignored, as is any response while no file
/// request of ours is in flight. Otherwise an absent or empty payload is
/// reported as a download failure, and a non-empty payload clears the
/// file-request state and must be written by the caller to local storage
/// under the requested name.
pub fn handle_private_response(app: &mut App, response: PrivateResponse) -> (write: Option<
    (String, Vec<u8>),
>)
    requires
        old(app).wf(),
    ensures
        final(app).wf(),
        response.ack ==> write is None && *final(app) == *old(app),
        !response.ack && !old(app).requesting_file ==> write is None && *final(app) == *old(app),
        !response.ack && old(app).requesting_file ==> {
            let empty = response.file_bytes is None || response.file_bytes->0@.len() == 0;
            if empty {
                &&& write is None
                &&& final(app).same_session(*old(app))
                &&& final(app).messages == old(app).messages
                &&& final(app).private_log() == old(app).private_log().push(
                    (MessageType::Error, "Unable to download file"@),
                )
                &&& final(app).same_but_session_and_logs(*old(app))
            } else {
                &&& (write matches Some(w) && w.0@ == old(app).requested_file->0@ && w.1@
                    == response.file_bytes->0@)
                &&& !final(app).requesting_file
                &&& final(app).requested_file is None
                &&& final(app).connected == old(app).connected
                &&& final(app).connected_peer == old(app).connected_peer
                &&& final(app).messages == old(app).messages
                &&& final(app).private_log() == old(app).private_log().push(
                    (MessageType::Info, "Downloaded file: "@ + old(app).requested_file->0@),
                )
                &&& final(app).same_but_session_and_logs(*old(app))
            }
        },
{
    if response.ack {
        return None;
    }
    if !app.requesting_file {
        return None;
    }
    let empty = match &response.file_bytes {
        None => true,
        Some(b) => b.len() == 0,
    };
    if empty {
        app.add_message(
            MessageType::Error,
            String::from_str("Unable to download file"),
            None,
        );
        None
    } else {
        let path = match &app.requested_file {
            Some(p) => p.clone(),
            None => String::new(),
        };
        let m = crate::state::concat2("Downloaded file: ", path.as_str());
        app.add_message(MessageType::Info, m, None);
        app.requesting_file = false;
        app.requested_file = None;
        let bytes = match response.file_bytes {
            Some(b) => b,
            None => Vec::new(),
        };
        Some((path, bytes))
    }
}

} // verus!
