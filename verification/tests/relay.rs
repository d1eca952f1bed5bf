use escher_atlas::protocol::{ClientMessage, PeerId, ServerMessage};
use escher_atlas::relay::PeerSession;
use escher_atlas::room::Rooms;

#[test]
fn two_sessions_relay_a_handshake() {
    let mut rooms = Rooms::new();
    let alice_id = PeerId(1);
    let bob_id = PeerId(2);
    let mut alice = PeerSession::new(alice_id);
    let mut bob = PeerSession::new(bob_id);

    let out = alice.handle(&mut rooms, ClientMessage::Join { room: "test-room".into() });
    assert_eq!(out.len(), 1);
    assert_eq!(out[0].to, alice_id);
    match &out[0].message {
        ServerMessage::Joined { peer_id, peers } => {
            assert_eq!(*peer_id, alice_id);
            assert!(peers.is_empty(), "alice is first in the room, no peers yet");
        }
        other => panic!("unexpected {other:?}"),
    }

    let out = bob.handle(&mut rooms, ClientMessage::Join { room: "test-room".into() });
    assert_eq!(out.len(), 2);
    assert_eq!(out[0].to, alice_id);
    assert!(matches!(out[0].message, ServerMessage::PeerJoined { peer_id } if peer_id == bob_id));
    assert_eq!(out[1].to, bob_id);
    match &out[1].message {
        ServerMessage::Joined { peer_id, peers } => {
            assert_eq!(*peer_id, bob_id);
            assert_eq!(peers, &vec![alice_id], "bob sees alice already in the room");
        }
        other => panic!("unexpected {other:?}"),
    }

    let out = alice.handle(&mut rooms, ClientMessage::Offer { to: bob_id, sdp: "v=0 fake-sdp-offer".into() });
    assert_eq!(out.len(), 1);
    assert_eq!(out[0].to, bob_id);
    match &out[0].message {
        ServerMessage::Offer { from, sdp } => {
            assert_eq!(*from, alice_id, "the relay stamps the real sender");
            assert_eq!(sdp, "v=0 fake-sdp-offer");
        }
        other => panic!("unexpected {other:?}"),
    }

    let out = bob.handle(&mut rooms, ClientMessage::Answer { to: alice_id, sdp: "v=0 fake-sdp-answer".into() });
    assert!(matches!(&out[0].message, ServerMessage::Answer { from, sdp } if *from == bob_id && sdp == "v=0 fake-sdp-answer"));

    let out = bob.handle(&mut rooms, ClientMessage::IceCandidate { to: alice_id, candidate: "fake-candidate".into() });
    assert_eq!(out[0].to, alice_id);
    assert!(matches!(&out[0].message, ServerMessage::IceCandidate { from, candidate } if *from == bob_id && candidate == "fake-candidate"));

    let out = bob.disconnect(&mut rooms);
    assert_eq!(out.len(), 1);
    assert_eq!(out[0].to, alice_id);
    assert!(matches!(out[0].message, ServerMessage::PeerLeft { peer_id } if peer_id == bob_id));
    assert!(bob.joined_room.is_none());
}

#[test]
fn messages_to_peers_outside_the_room_are_dropped() {
    let mut rooms = Rooms::new();
    let mut alice = PeerSession::new(PeerId(10));
    let mut carol = PeerSession::new(PeerId(30));
    alice.handle(&mut rooms, ClientMessage::Join { room: "a".into() });
    carol.handle(&mut rooms, ClientMessage::Join { room: "b".into() });
    let out = alice.handle(&mut rooms, ClientMessage::Offer { to: PeerId(30), sdp: "x".into() });
    assert!(out.is_empty());
    let mut dave = PeerSession::new(PeerId(40));
    let out = dave.handle(&mut rooms, ClientMessage::Offer { to: PeerId(10), sdp: "x".into() });
    assert!(out.is_empty(), "a peer in no room reaches nobody");
}

#[test]
fn joining_another_room_leaves_the_first() {
    let mut rooms = Rooms::new();
    let mut alice = PeerSession::new(PeerId(1));
    let mut bob = PeerSession::new(PeerId(2));
    alice.handle(&mut rooms, ClientMessage::Join { room: "one".into() });
    bob.handle(&mut rooms, ClientMessage::Join { room: "one".into() });
    let out = bob.handle(&mut rooms, ClientMessage::Join { room: "two".into() });
    assert_eq!(out.len(), 2);
    assert_eq!(out[0].to, PeerId(1));
    assert!(matches!(out[0].message, ServerMessage::PeerLeft { peer_id } if peer_id == PeerId(2)));
    assert!(matches!(&out[1].message, ServerMessage::Joined { peers, .. } if peers.is_empty()));
    assert_eq!(bob.joined_room.as_deref(), Some("two"));
}

#[test]
fn rooms_close_when_the_last_peer_leaves() {
    let mut rooms = Rooms::new();
    let (existing, notes) = rooms.join("r", PeerId(5));
    assert!(existing.is_empty() && notes.is_empty());
    let notes = rooms.leave("r", PeerId(5));
    assert!(notes.is_empty());
    assert!(rooms.send_to("r", PeerId(5), ServerMessage::PeerLeft { peer_id: PeerId(1) }).is_none());
    let (existing, _) = rooms.join("r", PeerId(6));
    assert!(existing.is_empty(), "a reopened room starts empty");
}

use escher_atlas::relay_client::{client_reaction, ClientReaction};

#[test]
fn only_the_newcomer_offers_when_a_peer_joins() {
    let mut rooms = Rooms::new();
    let alice_id = PeerId(10);
    let bob_id = PeerId(20);
    let mut alice = PeerSession::new(alice_id);
    let mut bob = PeerSession::new(bob_id);
    alice.handle(&mut rooms, ClientMessage::Join { room: "lobby".into() });
    let out = bob.handle(&mut rooms, ClientMessage::Join { room: "lobby".into() });
    let mut reactions = out.into_iter().map(|d| (d.to, client_reaction(d.message)));
    let (to_alice, alice_reacts) = reactions.next().unwrap();
    assert_eq!(to_alice, alice_id);
    assert!(matches!(alice_reacts, ClientReaction::AwaitOffer));
    let (to_bob, bob_reacts) = reactions.next().unwrap();
    assert_eq!(to_bob, bob_id);
    match bob_reacts {
        ClientReaction::OfferTo(peers) => assert_eq!(peers, vec![alice_id]),
        other => panic!("unexpected {other:?}"),
    }
}

#[test]
fn each_relay_message_maps_to_its_reaction() {
    let p = PeerId(7);
    assert!(matches!(client_reaction(ServerMessage::PeerLeft { peer_id: p }), ClientReaction::DropPeer(q) if q == p));
    assert!(matches!(client_reaction(ServerMessage::Offer { from: p, sdp: "o".into() }), ClientReaction::AcceptOffer(q, s) if q == p && s == "o"));
    assert!(matches!(client_reaction(ServerMessage::Answer { from: p, sdp: "a".into() }), ClientReaction::AcceptAnswer(q, s) if q == p && s == "a"));
    assert!(matches!(client_reaction(ServerMessage::IceCandidate { from: p, candidate: "c".into() }), ClientReaction::Candidate(q, s) if q == p && s == "c"));
    assert!(matches!(client_reaction(ServerMessage::Error { message: "no".into() }), ClientReaction::ReportError(s) if s == "no"));
    assert!(matches!(client_reaction(ServerMessage::PeerJoined { peer_id: p }), ClientReaction::AwaitOffer));
}

use escher_atlas::relay_client::connected_peer_count;

#[test]
fn only_peers_with_an_open_channel_count_as_connected() {
    assert_eq!(connected_peer_count(&[]), 0);
    let peers = vec![vec![false, true], vec![], vec![false, false], vec![true]];
    assert_eq!(connected_peer_count(&peers), 2);
}
