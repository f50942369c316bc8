use screenshare::message::Message;
use screenshare::id_map::IdMap;
use screenshare::signaling::{
    handle_candidate, handle_message, take_buffered_candidates, CandidatesBuffer, Incoming,
    Reaction, IDLE_TIMEOUT_SECS, PING_INTERVAL_SECS,
};
use webrtc::ice_transport::ice_candidate::RTCIceCandidateInit;
use webrtc::peer_connection::sdp::session_description::RTCSessionDescription;

fn cand(s: &str) -> RTCIceCandidateInit {
    RTCIceCandidateInit { candidate: s.to_string(), ..Default::default() }
}

fn texts(v: &[RTCIceCandidateInit]) -> Vec<String> {
    v.iter().map(|c| c.candidate.clone()).collect()
}

#[test]
fn buffer_keeps_order_per_consumer() {
    let mut b: CandidatesBuffer<u32> = CandidatesBuffer::new();
    b.push("a".to_string(), 1);
    b.push("b".to_string(), 10);
    b.push("a".to_string(), 2);
    b.push("a".to_string(), 3);
    assert_eq!(b.take(&"a".to_string()), Some(vec![1, 2, 3]));
    assert_eq!(b.take(&"a".to_string()), None);
    assert_eq!(b.take(&"b".to_string()), Some(vec![10]));
    assert_eq!(b.take(&"c".to_string()), None);
}

#[test]
fn candidate_with_connection_is_added_now() {
    let mut b = CandidatesBuffer::new();
    let mut conns: IdMap<&str> = IdMap::new();
    conns.insert("a".to_string(), "connection a");
    let r = handle_candidate(&mut b, &conns, "a".to_string(), 7u8);
    assert_eq!(r, Some(7));
    assert_eq!(b.take(&"a".to_string()), None);
}

#[test]
fn candidate_without_connection_is_buffered() {
    let mut b = CandidatesBuffer::new();
    let mut conns: IdMap<&str> = IdMap::new();
    conns.insert("other".to_string(), "connection");
    assert_eq!(handle_candidate(&mut b, &conns, "a".to_string(), 1u8), None);
    assert_eq!(handle_candidate(&mut b, &conns, "a".to_string(), 2u8), None);
    assert_eq!(handle_candidate(&mut b, &conns, "a".to_string(), 3u8), None);
    assert_eq!(b.take(&"a".to_string()), Some(vec![1, 2, 3]));
}

#[test]
fn id_map_operations() {
    let mut m: IdMap<u32> = IdMap::new();
    assert!(!m.contains_key(&"x".to_string()));
    m.insert("x".to_string(), 1);
    m.insert("y".to_string(), 2);
    m.insert("x".to_string(), 3);
    assert_eq!(m.get(&"x".to_string()), Some(&3));
    assert_eq!(m.get(&"y".to_string()), Some(&2));
    assert_eq!(m.remove(&"x".to_string()), Some(3));
    assert_eq!(m.remove(&"x".to_string()), None);
    assert!(m.contains_key(&"y".to_string()));
}

#[test]
fn buffered_candidates_are_registered_with_the_offer() {
    let mut b = CandidatesBuffer::new();
    let mut conns: IdMap<u32> = IdMap::new();
    for (id, c) in [("x", "c1"), ("y", "d1"), ("x", "c2")] {
        let r = handle_message(
            &mut b,
            &mut conns,
            Incoming::Message(Message::Candidate { id: id.to_string(), data: cand(c) }),
        );
        assert!(matches!(r, Reaction::CandidateBuffered));
    }
    let r = handle_message(
        &mut b,
        &mut conns,
        Incoming::Message(Message::Offer {
            id: "x".to_string(),
            data: RTCSessionDescription::default(),
        }),
    );
    match r {
        Reaction::AcceptOffer { id, .. } => assert_eq!(id, "x"),
        _ => panic!("expected AcceptOffer"),
    }
    assert_eq!(texts(&take_buffered_candidates(&mut b, &"x".to_string())), vec!["c1", "c2"]);
    conns.insert("x".to_string(), 1);
    // Once the connection exists, the consumer's candidates go to it.
    match handle_message(
        &mut b,
        &mut conns,
        Incoming::Message(Message::Candidate { id: "x".to_string(), data: cand("c3") }),
    ) {
        Reaction::AddCandidate { id, candidate } => {
            assert_eq!(id, "x");
            assert_eq!(candidate.candidate, "c3");
        }
        _ => panic!("expected AddCandidate"),
    }
    assert!(take_buffered_candidates(&mut b, &"x".to_string()).is_empty());
    assert_eq!(texts(&take_buffered_candidates(&mut b, &"y".to_string())), vec!["d1"]);
}

#[test]
fn frames_and_errors() {
    let mut b = CandidatesBuffer::new();
    let mut c: IdMap<u32> = IdMap::new();
    match handle_message(&mut b, &mut c, Incoming::Closed) {
        Reaction::Disconnected(m) => assert_eq!(m, "Websocket closed when reading message."),
        _ => panic!("expected Disconnected"),
    }
    match handle_message(&mut b, &mut c, Incoming::ReceiveError("reset".to_string())) {
        Reaction::Failed(m) => assert_eq!(m, "Received error on websocket: reset"),
        _ => panic!("expected Failed"),
    }
    assert!(matches!(handle_message(&mut b, &mut c, Incoming::Ping), Reaction::SendPong));
    assert!(matches!(handle_message(&mut b, &mut c, Incoming::Pong), Reaction::Ignore));
    match handle_message(&mut b, &mut c, Incoming::Unexpected("Binary([])".to_string())) {
        Reaction::Failed(m) => {
            assert_eq!(m, "Received unexpected packet on websocket: Binary([])")
        }
        _ => panic!("expected Failed"),
    }
    match handle_message(
        &mut b,
        &mut c,
        Incoming::Malformed { quoted_text: "\"{}\"".to_string(), error: "missing field".to_string() },
    ) {
        Reaction::Failed(m) => assert_eq!(
            m,
            "Unable to parse message as json.\nMessage: \"{}\"\nErr: missing field"
        ),
        _ => panic!("expected Failed"),
    }
}

#[test]
fn messages_without_candidates() {
    let mut b = CandidatesBuffer::new();
    let mut c: IdMap<u32> = IdMap::new();
    c.insert("z".to_string(), 9);
    match handle_message(
        &mut b,
        &mut c,
        Incoming::Message(Message::Disconnect { id: "z".to_string() }),
    ) {
        Reaction::ConnectionRemoved { id } => assert_eq!(id, "z"),
        _ => panic!("expected ConnectionRemoved"),
    }
    assert!(!c.contains_key(&"z".to_string()));
    match handle_message(
        &mut b,
        &mut c,
        Incoming::Message(Message::Response { kind: "offer".to_string(), data: "ok".to_string() }),
    ) {
        Reaction::Report { kind, data } => {
            assert_eq!(kind, "offer");
            assert_eq!(data, "ok");
        }
        _ => panic!("expected Report"),
    }
    match handle_message(
        &mut b,
        &mut c,
        Incoming::Message(Message::Answer {
            id: "z".to_string(),
            data: RTCSessionDescription::default(),
        }),
    ) {
        Reaction::UnexpectedAnswer { id, .. } => assert_eq!(id, "z"),
        _ => panic!("expected UnexpectedAnswer"),
    }
}

#[test]
fn ping_interval_below_idle_timeout() {
    assert_eq!(PING_INTERVAL_SECS, 540);
    assert!(PING_INTERVAL_SECS < IDLE_TIMEOUT_SECS);
}
