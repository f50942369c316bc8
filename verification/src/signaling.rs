//! What the producer does with each message from the signalling server.
//!
//! Consumers may send ICE candidates before their offer has been handled.
//! Those candidates are held in a `CandidatesBuffer`, per consumer and in
//! the order they came, until the offer has set the remote description;
//! then they are handed out to be registered with the new connection, and
//! later candidates of that consumer go to its connection directly.

use crate::id_map::IdMap;
use crate::message::{ConnectionId, Message};
use vstd::prelude::*;
use webrtc::ice_transport::ice_candidate::RTCIceCandidateInit;
use webrtc::peer_connection::sdp::session_description::RTCSessionDescription;

verus! {

/// Seconds between two keep-alive pings to the signalling server.
pub const PING_INTERVAL_SECS: u64 = 60 * 9;

/// Seconds after which API Gateway closes an idle websocket.
pub const IDLE_TIMEOUT_SECS: u64 = 60 * 10;

/// A keep-alive ping goes out before the websocket could be closed for
/// being idle.
pub proof fn lemma_ping_before_idle_timeout()
    ensures
        PING_INTERVAL_SECS < IDLE_TIMEOUT_SECS,
{
}

/// Candidates waiting for their consumer's remote description, per
/// consumer, each list in the order the candidates came.
pub struct CandidatesBuffer<C> {
    lists: IdMap<Vec<C>>,
}

/// The buffer `m` after candidate `c` of consumer `id` was added to it.
pub open spec fn spec_buffered<C>(m: Map<Seq<char>, Seq<C>>, id: Seq<char>, c: C) -> Map<
    Seq<char>,
    Seq<C>,
> {
    if m.contains_key(id) {
        m.insert(id, m[id].push(c))
    } else {
        m.insert(id, seq![c])
    }
}

impl<C> View for CandidatesBuffer<C> {
    type V = Map<Seq<char>, Seq<C>>;

    closed spec fn view(&self) -> Map<Seq<char>, Seq<C>> {
        self.lists@.map_values(|v: Vec<C>| v@)
    }
}

impl<C> CandidatesBuffer<C> {
    pub closed spec fn wf(&self) -> bool {
        self.lists.wf()
    }

    /// A buffer that holds no candidate.
    pub fn new() -> (b: Self)
        ensures
            b.wf(),
            b@ == Map::<Seq<char>, Seq<C>>::empty(),
    {
        let b = CandidatesBuffer { lists: IdMap::new() };
        assert(b@ =~= Map::<Seq<char>, Seq<C>>::empty());
        b
    }

    /// Holds candidate `candidate` of consumer `id` after those it already
    /// holds for that consumer.
    pub fn push(&mut self, id: ConnectionId, candidate: C)
        requires
            old(self).wf(),
        ensures
            final(self).wf(),
            final(self)@ == spec_buffered(old(self)@, id@, candidate),
    {
        let ghost old_lists = self.lists@;
        let mut list = match self.lists.remove(&id) {
            Some(list) => list,
            None => Vec::new(),
        };
        let ghost old_list = list@;
        list.push(candidate);
        self.lists.insert(id, list);
        proof {
            if old_lists.contains_key(id@) {
                assert(old_list == old_lists[id@]@);
            } else {
                assert(list@ =~= seq![candidate]);
            }
            assert(self@ =~= spec_buffered(old(self)@, id@, candidate));
        }
    }

    /// Hands out, in the order they came, the candidates held for consumer
    /// `id`, and forgets them; `None` if none are held.
    pub fn take(&mut self, id: &ConnectionId) -> (r: Option<Vec<C>>)
        requires
            old(self).wf(),
        ensures
            final(self).wf(),
            old(self)@.contains_key(id@) ==> {
                &&& r matches Some(v) && v@ == old(self)@[id@]
                &&& final(self)@ == old(self)@.remove(id@)
            },
            !old(self)@.contains_key(id@) ==> r is None && final(self)@ == old(self)@,
    {
        let r = self.lists.remove(id);
        assert(self@ =~= old(self)@.remove(id@));
        r
    }
}

/// Handles a received candidate: where consumer `id` has a connection (its
/// offer has been handled and the remote description set), the candidate
/// is handed back, to be added to that connection at once; otherwise it is
/// buffered until the consumer's offer has been handled.
pub fn handle_candidate<C, T>(
    buffer: &mut CandidatesBuffer<C>,
    connections: &IdMap<T>,
    id: ConnectionId,
    candidate: C,
) -> (add_now: Option<C>)
    requires
        old(buffer).wf(),
        connections.wf(),
    ensures
        final(buffer).wf(),
        connections@.contains_key(id@) ==> {
            &&& add_now == Some(candidate)
            &&& final(buffer)@ == old(buffer)@
        },
        !connections@.contains_key(id@) ==> {
            &&& add_now is None
            &&& final(buffer)@ == spec_buffered(old(buffer)@, id@, candidate)
        },
{
    if connections.contains_key(&id) {
        Some(candidate)
    } else {
        buffer.push(id, candidate);
        None
    }
}

/// What arrived on the websocket.
pub enum Incoming {
    /// The stream ended.
    Closed,
    /// Receiving failed; the error's description.
    ReceiveError(String),
    Ping,
    Pong,
    /// A frame of another kind than text, ping or pong; its description.
    Unexpected(String),
    /// A text frame that is no message: the text as quoted for display, and
    /// the description of the parse error.
    Malformed { quoted_text: String, error: String },
    /// A text frame holding a message.
    Message(Message),
}

/// What the producer does in answer.
pub enum Reaction {
    /// The websocket is gone (a broken pipe): the listener stops.
    Disconnected(String),
    /// An error to report; the listener goes on.
    Failed(String),
    /// Answer a ping with a pong.
    SendPong,
    /// Nothing to do.
    Ignore,
    /// Add this candidate to the connection of consumer `id`.
    AddCandidate { id: ConnectionId, candidate: RTCIceCandidateInit },
    /// The candidate was buffered.
    CandidateBuffered,
    /// The connection of consumer `id` was dropped.
    ConnectionRemoved { id: ConnectionId },
    /// Set up a connection for consumer `id` with its offer.
    AcceptOffer { id: ConnectionId, offer: RTCSessionDescription },
    /// Report the server's response to a message of ours.
    Report { kind: String, data: String },
    /// A consumer sent an answer, which only the producer sends: an error.
    UnexpectedAnswer { id: ConnectionId, answer: RTCSessionDescription },
}

/// `r` is the reaction to `incoming`, where `buffer` and `connections` are
/// the candidate buffer and the consumers' connections before, and
/// `buffer_after` and `connections_after` after.
pub open spec fn spec_reaction<T>(
    incoming: Incoming,
    buffer: Map<Seq<char>, Seq<RTCIceCandidateInit>>,
    connections: Map<Seq<char>, T>,
    buffer_after: Map<Seq<char>, Seq<RTCIceCandidateInit>>,
    connections_after: Map<Seq<char>, T>,
    r: Reaction,
) -> bool {
    match incoming {
        Incoming::Message(Message::Candidate { id, data }) => {
            &&& connections_after == connections
            &&& if connections.contains_key(id@) {
                &&& r matches Reaction::AddCandidate { id: rid, candidate }
                &&& rid@ == id@ && candidate == data
                &&& buffer_after == buffer
            } else {
                &&& r is CandidateBuffered
                &&& buffer_after == spec_buffered(buffer, id@, data)
            }
        },
        Incoming::Message(Message::Disconnect { id }) => {
            &&& r matches Reaction::ConnectionRemoved { id: rid } && rid@ == id@
            &&& connections_after == connections.remove(id@)
            &&& buffer_after == buffer
        },
        _ => {
            &&& buffer_after == buffer
            &&& connections_after == connections
            &&& match incoming {
                Incoming::Closed => r matches Reaction::Disconnected(m) && m@
                    == "Websocket closed when reading message."@,
                Incoming::ReceiveError(e) => r matches Reaction::Failed(m) && m@
                    == "Received error on websocket: "@ + e@,
                Incoming::Ping => r is SendPong,
                Incoming::Pong => r is Ignore,
                Incoming::Unexpected(f) => r matches Reaction::Failed(m) && m@
                    == "Received unexpected packet on websocket: "@ + f@,
                Incoming::Malformed { quoted_text, error } => r matches Reaction::Failed(m) && m@
                    == "Unable to parse message as json.\nMessage: "@ + quoted_text@ + "\nErr: "@
                    + error@,
                Incoming::Message(Message::Offer { id, data }) => r matches Reaction::AcceptOffer {
                    id: rid,
                    offer,
                } && rid@ == id@ && offer == data,
                Incoming::Message(Message::Response { kind, data }) => r matches Reaction::Report {
                    kind: rk,
                    data: rd,
                } && rk@ == kind@ && rd@ == data@,
                Incoming::Message(Message::Answer { id, data }) => r matches Reaction::UnexpectedAnswer {
                    id: rid,
                    answer,
                } && rid@ == id@ && answer == data,
                _ => false,
            }
        },
    }
}

/// Decides what to do with what arrived on the websocket, given the
/// candidates buffered so far and the consumers' connections (one per
/// consumer whose offer has been handled). A disconnecting consumer's
/// connection is dropped here; the other reactions are carried out by the
/// caller.
pub fn handle_message<T>(
    buffer: &mut CandidatesBuffer<RTCIceCandidateInit>,
    connections: &mut IdMap<T>,
    incoming: Incoming,
) -> (r: Reaction)
    requires
        old(buffer).wf(),
        old(connections).wf(),
    ensures
        final(buffer).wf(),
        final(connections).wf(),
        spec_reaction(
            incoming,
            old(buffer)@,
            old(connections)@,
            final(buffer)@,
            final(connections)@,
            r,
        ),
{
    match incoming {
        Incoming::Closed => Reaction::Disconnected(
            String::from_str("Websocket closed when reading message."),
        ),
        Incoming::ReceiveError(e) => {
            let mut m = String::from_str("Received error on websocket: ");
            m.append(e.as_str());
            Reaction::Failed(m)
        },
        // Websocket pings keep the connection alive and need a pong.
        Incoming::Ping => Reaction::SendPong,
        Incoming::Pong => Reaction::Ignore,
        Incoming::Unexpected(f) => {
            let mut m = String::from_str("Received unexpected packet on websocket: ");
            m.append(f.as_str());
            Reaction::Failed(m)
        },
        Incoming::Malformed { quoted_text, error } => {
            let mut m = String::from_str("Unable to parse message as json.\nMessage: ");
            m.append(quoted_text.as_str());
            m.append("\nErr: ");
            m.append(error.as_str());
            Reaction::Failed(m)
        },
        Incoming::Message(msg) => match msg {
            Message::Candidate { id, data } => {
                let rid = id.clone();
                match handle_candidate(buffer, connections, id, data) {
                    Some(candidate) => Reaction::AddCandidate { id: rid, candidate },
                    None => Reaction::CandidateBuffered,
                }
            },
            Message::Disconnect { id } => {
                let _ = connections.remove(&id);
                Reaction::ConnectionRemoved { id }
            },
            Message::Offer { id, data } => Reaction::AcceptOffer { id, offer: data },
            Message::Response { kind, data } => Reaction::Report { kind, data },
            Message::Answer { id, data } => Reaction::UnexpectedAnswer { id, answer: data },
        },
    }
}

/// The buffer `m` after the candidates of `events` were added in order,
/// each event naming the consumer and the candidate.
pub open spec fn spec_buffered_all<C>(m: Map<Seq<char>, Seq<C>>, events: Seq<(Seq<char>, C)>) -> Map<
    Seq<char>,
    Seq<C>,
>
    decreases events.len(),
{
    if events.len() == 0 {
        m
    } else {
        spec_buffered(spec_buffered_all(m, events.drop_last()), events.last().0, events.last().1)
    }
}

/// The candidates of consumer `id` among `events`, in order.
pub open spec fn candidates_of<C>(events: Seq<(Seq<char>, C)>, id: Seq<char>) -> Seq<C>
    decreases events.len(),
{
    if events.len() == 0 {
        Seq::empty()
    } else if events.last().0 == id {
        candidates_of(events.drop_last(), id).push(events.last().1)
    } else {
        candidates_of(events.drop_last(), id)
    }
}

/// Candidates are kept per consumer in the order they came, whatever the
/// candidates of other consumers in between: after buffering `events` on a
/// buffer that held nothing for `id`, the buffer holds for `id` exactly the
/// candidates of `id` among `events`, and holds an entry for `id` only if
/// there is one.
pub proof fn lemma_buffered_in_order<C>(
    m: Map<Seq<char>, Seq<C>>,
    events: Seq<(Seq<char>, C)>,
    id: Seq<char>,
)
    requires
        !m.contains_key(id),
    ensures
        spec_buffered_all(m, events).contains_key(id) == (candidates_of(events, id).len() > 0),
        spec_buffered_all(m, events).contains_key(id) ==> spec_buffered_all(m, events)[id]
            == candidates_of(events, id),
    decreases events.len(),
{
    if events.len() > 0 {
        lemma_buffered_in_order(m, events.drop_last(), id);
    }
}

/// The candidates that were buffered for consumer `id` while its offer was
/// being handled, in the order they came, to be registered now that the
/// remote description is set; they leave the buffer.
pub fn take_buffered_candidates(
    buffer: &mut CandidatesBuffer<RTCIceCandidateInit>,
    id: &ConnectionId,
) -> (r: Vec<RTCIceCandidateInit>)
    requires
        old(buffer).wf(),
    ensures
        final(buffer).wf(),
        final(buffer)@ == old(buffer)@.remove(id@),
        old(buffer)@.contains_key(id@) ==> r@ == old(buffer)@[id@],
        !old(buffer)@.contains_key(id@) ==> r@.len() == 0,
{
    match buffer.take(id) {
        Some(candidates) => candidates,
        None => {
            assert(old(buffer)@.remove(id@) =~= old(buffer)@);
            Vec::new()
        },
    }
}

} // verus!
