//! The messages exchanged with the signalling server.
//!
//! On the wire they are JSON objects whose `action` field names the kind of
//! message; that encoding lives with the program that talks to the server.

use vstd::prelude::*;
use webrtc::ice_transport::ice_candidate::RTCIceCandidateInit;
use webrtc::peer_connection::sdp::session_description::RTCSessionDescription;

verus! {

#[verifier::external_type_specification]
#[verifier::external_body]
pub struct ExRTCIceCandidateInit(RTCIceCandidateInit);

#[verifier::external_type_specification]
#[verifier::external_body]
pub struct ExRTCSessionDescription(RTCSessionDescription);

/// The unique identifier that the signalling server gives every websocket
/// connection of a consumer.
pub type ConnectionId = String;

/// An ICE candidate addressed to a consumer.
#[derive(Default, Debug, PartialEq)]
pub struct CandidateMessage {
    pub id: String,
    pub action: String,
    pub data: RTCIceCandidateInit,
}

/// A message from or to the signalling server.
#[allow(inconsistent_fields)]
#[derive(Debug)]
pub enum Message {
    Answer { id: ConnectionId, data: RTCSessionDescription },
    Candidate { id: ConnectionId, data: RTCIceCandidateInit },
    Disconnect { id: ConnectionId },
    Offer { id: ConnectionId, data: RTCSessionDescription },
    /// The server's answer to a message of ours; `kind` is the `action` of
    /// that message (the `type` field on the wire).
    Response { kind: String, data: String },
}

} // verus!
