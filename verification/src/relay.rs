//! One connected peer's side of the relay: what each message it sends does to room
//! membership, and what every peer is told as a result. The socket edge performs the
//! deliveries; the relay stamps every relayed message with the sender's real identity.

use vstd::prelude::*;

use crate::collections::{distinct_keys, has_key, law_get_after_insert, law_insert_keeps_keys_distinct,
    law_insert_leaves_other_keys, law_remove_keeps_keys_distinct, law_get_after_remove,
    law_remove_leaves_other_keys, spec_get};
use crate::protocol::{ClientMessage, Delivery, PeerId, ServerMessage};
use crate::room::{
    announces_join, announces_leave, delivers, leave_notified, members_of, rooms_wf, spec_join,
    spec_leave, with_member, without_member, Rooms,
};

verus! {

/// A connected peer: its relay-assigned identity and the room it is currently in.
pub struct PeerSession {
    pub peer_id: PeerId,
    pub joined_room: Option<String>,
}

/// The rooms once `peer` has left the room it was in, if any.
pub open spec fn after_leaving(
    rooms: Seq<(Seq<char>, Seq<PeerId>)>,
    joined: Option<String>,
    peer: PeerId,
) -> Seq<(Seq<char>, Seq<PeerId>)> {
    match joined {
        Some(prev) => spec_leave(rooms, prev@, peer),
        None => rooms,
    }
}

/// Who is told that `peer` left the room it was in.
pub open spec fn leaving_notified(
    rooms: Seq<(Seq<char>, Seq<PeerId>)>,
    joined: Option<String>,
    peer: PeerId,
) -> Seq<PeerId> {
    match joined {
        Some(prev) => leave_notified(rooms, prev@, peer),
        None => Seq::empty(),
    }
}

/// `ds` is the outcome of relaying `message` to `to` from a peer in room `joined`:
/// one delivery when `to` shares that room, nothing otherwise (or when not in a room).
pub open spec fn relayed(
    rooms: Seq<(Seq<char>, Seq<PeerId>)>,
    joined: Option<String>,
    to: PeerId,
    message: ServerMessage,
    ds: Seq<Delivery>,
) -> bool {
    match joined {
        Some(room) => if members_of(rooms, room@).contains(to) {
            ds.len() == 1 && delivers(ds[0], to, message)
        } else {
            ds.len() == 0
        },
        None => ds.len() == 0,
    }
}

/// The whole effect of a peer in state `(peer, joined)` sending `message` while the rooms
/// are `rooms`: the rooms after, the room the peer is in after, and the deliveries.
pub open spec fn handled(
    rooms: Seq<(Seq<char>, Seq<PeerId>)>,
    peer: PeerId,
    joined: Option<String>,
    message: ClientMessage,
    rooms_after: Seq<(Seq<char>, Seq<PeerId>)>,
    joined_after: Option<String>,
    ds: Seq<Delivery>,
) -> bool {
    match message {
        ClientMessage::Join { room } => {
            let left = after_leaving(rooms, joined, peer);
            let gone = leaving_notified(rooms, joined, peer);
            let existing = members_of(left, room@);
            &&& rooms_after == spec_join(left, room@, peer)
            &&& joined_after == Some(room)
            &&& ds.len() == gone.len() + existing.len() + 1
            &&& announces_leave(ds.take(gone.len() as int), gone, peer)
            &&& announces_join(ds.subrange(gone.len() as int, gone.len() + existing.len() as int), existing, peer)
            &&& ds.last().to == peer
            &&& ds.last().message matches ServerMessage::Joined { peer_id, peers }
                && peer_id == peer && peers@ == existing
        },
        ClientMessage::Offer { to, sdp } => {
            &&& rooms_after == rooms
            &&& joined_after == joined
            &&& relayed(rooms, joined, to, ServerMessage::Offer { from: peer, sdp }, ds)
        },
        ClientMessage::Answer { to, sdp } => {
            &&& rooms_after == rooms
            &&& joined_after == joined
            &&& relayed(rooms, joined, to, ServerMessage::Answer { from: peer, sdp }, ds)
        },
        ClientMessage::IceCandidate { to, candidate } => {
            &&& rooms_after == rooms
            &&& joined_after == joined
            &&& relayed(rooms, joined, to, ServerMessage::IceCandidate { from: peer, candidate }, ds)
        },
    }
}

fn relay_one(rooms: &Rooms, joined: &Option<String>, to: PeerId, message: ServerMessage) -> (r: Vec<Delivery>)
    requires
        rooms_wf(rooms@),
    ensures
        relayed(rooms@, *joined, to, message, r@),
{
    let mut out: Vec<Delivery> = Vec::new();
    match joined {
        Some(room) => {
            match rooms.send_to(room.as_str(), to, message) {
                Some(d) => out.push(d),
                None => {},
            }
        },
        None => {},
    }
    out
}

impl PeerSession {
    /// A freshly connected peer, in no room yet.
    pub fn new(peer_id: PeerId) -> (r: Self)
        ensures
            r.peer_id == peer_id,
            r.joined_room is None,
    {
        PeerSession { peer_id, joined_room: None }
    }

    /// Handles one message from this peer. A `Join` leaves the current room (telling
    /// those who remain), joins the named one (telling those already there), and answers
    /// the peer with its identity and the peers it found. An offer, answer or ICE
    /// candidate reaches its target only if the target shares this peer's room, and
    /// always names this peer, not whatever the peer claimed, as its sender.
    pub fn handle(&mut self, rooms: &mut Rooms, message: ClientMessage) -> (r: Vec<Delivery>)
        requires
            rooms_wf(old(rooms)@),
        ensures
            rooms_wf(final(rooms)@),
            final(self).peer_id == old(self).peer_id,
            handled(
                old(rooms)@,
                old(self).peer_id,
                old(self).joined_room,
                message,
                final(rooms)@,
                final(self).joined_room,
                r@,
            ),
    {
        let peer = self.peer_id;
        match message {
            ClientMessage::Join { room } => {
                let mut out: Vec<Delivery> = Vec::new();
                match &self.joined_room {
                    Some(previous) => {
                        out = rooms.leave(previous.as_str(), peer);
                    },
                    None => {
                        proof {
                            assert(leaving_notified(old(rooms)@, old(self).joined_room, peer) =~= Seq::<PeerId>::empty());
                        }
                    },
                }
                let ghost gone = out@;
                let (existing, notes) = rooms.join(room.as_str(), peer);
                let ghost notes_seq = notes@;
                let mut notes = notes;
                out.append(&mut notes);
                out.push(Delivery {
                    to: peer,
                    message: ServerMessage::Joined { peer_id: peer, peers: existing },
                });
                proof {
                    assert(out@.take(gone.len() as int) =~= gone);
                    assert(out@.subrange(gone.len() as int, gone.len() + notes_seq.len() as int) =~= notes_seq);
                }
                self.joined_room = Some(room);
                out
            },
            ClientMessage::Offer { to, sdp } => {
                relay_one(rooms, &self.joined_room, to, ServerMessage::Offer { from: peer, sdp })
            },
            ClientMessage::Answer { to, sdp } => {
                relay_one(rooms, &self.joined_room, to, ServerMessage::Answer { from: peer, sdp })
            },
            ClientMessage::IceCandidate { to, candidate } => {
                relay_one(rooms, &self.joined_room, to, ServerMessage::IceCandidate { from: peer, candidate })
            },
        }
    }

    /// The peer disconnected: it leaves its room, and those who remain are told.
    pub fn disconnect(&mut self, rooms: &mut Rooms) -> (r: Vec<Delivery>)
        requires
            rooms_wf(old(rooms)@),
        ensures
            rooms_wf(final(rooms)@),
            final(rooms)@ == after_leaving(old(rooms)@, old(self).joined_room, old(self).peer_id),
            announces_leave(r@, leaving_notified(old(rooms)@, old(self).joined_room, old(self).peer_id), old(self).peer_id),
            final(self).peer_id == old(self).peer_id,
            final(self).joined_room is None,
    {
        let out = match &self.joined_room {
            Some(room) => rooms.leave(room.as_str(), self.peer_id),
            None => Vec::new(),
        };
        self.joined_room = None;
        out
    }
}

/// The peer a relay message is about or comes from.
pub open spec fn subject(m: ServerMessage) -> Option<PeerId> {
    match m {
        ServerMessage::Joined { peer_id, .. } => Some(peer_id),
        ServerMessage::PeerJoined { peer_id } => Some(peer_id),
        ServerMessage::PeerLeft { peer_id } => Some(peer_id),
        ServerMessage::Offer { from, .. } => Some(from),
        ServerMessage::Answer { from, .. } => Some(from),
        ServerMessage::IceCandidate { from, .. } => Some(from),
        ServerMessage::Error { .. } => None,
    }
}

/// Everything the relay sends because of a peer's message names that peer: a relayed
/// offer, answer or candidate carries the relay-assigned sender, never one the peer chose.
pub proof fn law_messages_name_the_sender(
    rooms: Seq<(Seq<char>, Seq<PeerId>)>,
    peer: PeerId,
    joined: Option<String>,
    message: ClientMessage,
    rooms_after: Seq<(Seq<char>, Seq<PeerId>)>,
    joined_after: Option<String>,
    ds: Seq<Delivery>,
)
    requires
        handled(rooms, peer, joined, message, rooms_after, joined_after, ds),
    ensures
        forall|i: int| 0 <= i < ds.len() ==> subject(#[trigger] ds[i].message) == Some(peer),
{
    match message {
        ClientMessage::Join { room } => {
            let gone = leaving_notified(rooms, joined, peer);
            let existing = members_of(after_leaving(rooms, joined, peer), room@);
            assert forall|i: int| 0 <= i < ds.len() implies subject(#[trigger] ds[i].message) == Some(peer) by {
                if i < gone.len() {
                    assert(ds.take(gone.len() as int)[i] == ds[i]);
                } else if i < gone.len() + existing.len() {
                    assert(ds.subrange(gone.len() as int, gone.len() + existing.len() as int)[i - gone.len()] == ds[i]);
                } else {
                    assert(i == ds.len() - 1);
                }
            }
        },
        _ => {},
    }
}

/// An offer, answer or ICE candidate reaches only its named target, and only when the
/// sender is in a room that the target is also in.
pub proof fn law_relay_stays_in_room(
    rooms: Seq<(Seq<char>, Seq<PeerId>)>,
    peer: PeerId,
    joined: Option<String>,
    message: ClientMessage,
    rooms_after: Seq<(Seq<char>, Seq<PeerId>)>,
    joined_after: Option<String>,
    ds: Seq<Delivery>,
)
    requires
        handled(rooms, peer, joined, message, rooms_after, joined_after, ds),
        !(message is Join),
    ensures
        ds.len() <= 1,
        ds.len() == 1 ==> (joined matches Some(room) && members_of(rooms, room@).contains(ds[0].to)),
        ds.len() == 1 ==> (match message {
            ClientMessage::Offer { to, .. } => ds[0].to == to,
            ClientMessage::Answer { to, .. } => ds[0].to == to,
            ClientMessage::IceCandidate { to, .. } => ds[0].to == to,
            ClientMessage::Join { .. } => false,
        }),
{
}

proof fn lemma_after_leaving_wf(rooms: Seq<(Seq<char>, Seq<PeerId>)>, room: Seq<char>, peer: PeerId)
    requires
        rooms_wf(rooms),
    ensures
        distinct_keys(spec_leave(rooms, room, peer)),
{
    if has_key(rooms, room) {
        let rest = without_member(members_of(rooms, room), peer);
        if rest.len() == 0 {
            law_remove_keeps_keys_distinct(rooms, room);
        } else {
            law_insert_keeps_keys_distinct(rooms, room, rest);
        }
    }
}

/// After a peer joins a room, it is one of that room's members.
pub proof fn law_joined_peer_is_member(
    rooms: Seq<(Seq<char>, Seq<PeerId>)>,
    peer: PeerId,
    joined: Option<String>,
    room: String,
    rooms_after: Seq<(Seq<char>, Seq<PeerId>)>,
    joined_after: Option<String>,
    ds: Seq<Delivery>,
)
    requires
        rooms_wf(rooms),
        handled(rooms, peer, joined, ClientMessage::Join { room }, rooms_after, joined_after, ds),
    ensures
        members_of(rooms_after, room@).contains(peer),
        joined_after == Some(room),
{
    let left = after_leaving(rooms, joined, peer);
    match joined {
        Some(prev) => lemma_after_leaving_wf(rooms, prev@, peer),
        None => {},
    }
    let m = with_member(members_of(left, room@), peer);
    law_get_after_insert(left, room@, m);
    if !members_of(left, room@).contains(peer) {
        assert(m[m.len() - 1] == peer);
    }
}

/// Joining another room takes a peer out of the room it was in: a peer is a member of
/// at most the room it joined last.
pub proof fn law_join_leaves_previous_room(
    rooms: Seq<(Seq<char>, Seq<PeerId>)>,
    peer: PeerId,
    prev: String,
    room: String,
    rooms_after: Seq<(Seq<char>, Seq<PeerId>)>,
    joined_after: Option<String>,
    ds: Seq<Delivery>,
)
    requires
        rooms_wf(rooms),
        prev@ != room@,
        handled(rooms, peer, Some(prev), ClientMessage::Join { room }, rooms_after, joined_after, ds),
    ensures
        !members_of(rooms_after, prev@).contains(peer),
{
    let left = spec_leave(rooms, prev@, peer);
    lemma_after_leaving_wf(rooms, prev@, peer);
    let m = with_member(members_of(left, room@), peer);
    law_insert_leaves_other_keys(left, room@, m, prev@);
    if has_key(rooms, prev@) {
        let rest = without_member(members_of(rooms, prev@), peer);
        if rest.len() == 0 {
            law_get_after_remove(rooms, prev@);
        } else {
            law_get_after_insert(rooms, prev@, rest);
            assert(!rest.contains(peer)) by {
                if rest.contains(peer) {
                    let k = choose|k: int| 0 <= k < rest.len() && rest[k] == peer;
                    broadcast use vstd::seq_lib::group_filter_ensures;
                    assert((|p: PeerId| p != peer)(rest[k]));
                }
            }
        }
    }
}

} // verus!
