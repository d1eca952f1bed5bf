//! Room membership: which peers are in which named room, and who hears about a join, a
//! leave, or a relayed message.

use vstd::prelude::*;

use crate::collections::{law_get_after_remove, has_key, key_position, distinct_keys, lemma_position, spec_get, spec_insert, spec_remove};
use crate::protocol::{Delivery, PeerId, ServerMessage};

verus! {

/// The members of a room with `peer` added at the end (unchanged if already there).
pub open spec fn with_member(members: Seq<PeerId>, peer: PeerId) -> Seq<PeerId> {
    if members.contains(peer) {
        members
    } else {
        members.push(peer)
    }
}

/// The members of a room without `peer`.
pub open spec fn without_member(members: Seq<PeerId>, peer: PeerId) -> Seq<PeerId> {
    members.filter(|p: PeerId| p != peer)
}

/// The current members of room `room` (empty when there is no such room).
pub open spec fn members_of(rooms: Seq<(Seq<char>, Seq<PeerId>)>, room: Seq<char>) -> Seq<PeerId> {
    match spec_get(rooms, room) {
        Some(m) => m,
        None => Seq::empty(),
    }
}

/// The rooms after `peer` joins `room`: the room opens if it did not exist, and the peer
/// is added once.
pub open spec fn spec_join(rooms: Seq<(Seq<char>, Seq<PeerId>)>, room: Seq<char>, peer: PeerId) -> Seq<(Seq<char>, Seq<PeerId>)> {
    spec_insert(rooms, room, with_member(members_of(rooms, room), peer))
}

/// The rooms after `peer` leaves `room`: a room left empty is dropped.
pub open spec fn spec_leave(rooms: Seq<(Seq<char>, Seq<PeerId>)>, room: Seq<char>, peer: PeerId) -> Seq<(Seq<char>, Seq<PeerId>)> {
    if has_key(rooms, room) {
        let rest = without_member(members_of(rooms, room), peer);
        if rest.len() == 0 {
            spec_remove(rooms, room)
        } else {
            spec_insert(rooms, room, rest)
        }
    } else {
        rooms
    }
}

/// Who hears that `peer` left `room`: the members that remain (nobody when there is no
/// such room).
pub open spec fn leave_notified(rooms: Seq<(Seq<char>, Seq<PeerId>)>, room: Seq<char>, peer: PeerId) -> Seq<PeerId> {
    without_member(members_of(rooms, room), peer)
}

/// Whether `d` tells `to` exactly `message`.
pub open spec fn delivers(d: Delivery, to: PeerId, message: ServerMessage) -> bool {
    d.to == to && d.message == message
}

/// `ds` tells each of `peers`, in order, that `peer_id` joined.
pub open spec fn announces_join(ds: Seq<Delivery>, peers: Seq<PeerId>, peer_id: PeerId) -> bool {
    &&& ds.len() == peers.len()
    &&& forall|i: int|
        0 <= i < ds.len() ==> delivers(#[trigger] ds[i], peers[i], ServerMessage::PeerJoined { peer_id })
}

/// `ds` tells each of `peers`, in order, that `peer_id` left.
pub open spec fn announces_leave(ds: Seq<Delivery>, peers: Seq<PeerId>, peer_id: PeerId) -> bool {
    &&& ds.len() == peers.len()
    &&& forall|i: int|
        0 <= i < ds.len() ==> delivers(#[trigger] ds[i], peers[i], ServerMessage::PeerLeft { peer_id })
}

/// Every room in `rooms` exists once, holds at least one peer, and lists no peer twice.
pub open spec fn rooms_wf(rooms: Seq<(Seq<char>, Seq<PeerId>)>) -> bool {
    &&& distinct_keys(rooms)
    &&& forall|i: int|
        0 <= i < rooms.len() ==> {
            &&& (#[trigger] rooms[i]).1.len() > 0
            &&& rooms[i].1.no_duplicates()
        }
}

/// Every room and its members, in the order rooms were first opened.
pub struct Rooms {
    rooms: Vec<(String, Vec<PeerId>)>,
}

impl View for Rooms {
    type V = Seq<(Seq<char>, Seq<PeerId>)>;

    closed spec fn view(&self) -> Seq<(Seq<char>, Seq<PeerId>)> {
        self.rooms@.map_values(|e: (String, Vec<PeerId>)| (e.0@, e.1@))
    }
}

fn copy_peers(peers: &Vec<PeerId>) -> (r: Vec<PeerId>)
    ensures
        r@ == peers@,
{
    let mut out: Vec<PeerId> = Vec::new();
    for i in 0..peers.len()
        invariant
            out@ == peers@.take(i as int),
    {
        out.push(peers[i]);
        proof {
            assert(peers@.take(i + 1) =~= peers@.take(i as int).push(peers@[i as int]));
        }
    }
    proof {
        assert(peers@.take(peers@.len() as int) =~= peers@);
    }
    out
}

fn contains_peer(peers: &Vec<PeerId>, peer: PeerId) -> (r: bool)
    ensures
        r == peers@.contains(peer),
{
    for i in 0..peers.len()
        invariant
            forall|j: int| 0 <= j < i ==> peers@[j] != peer,
    {
        if peers[i] == peer {
            return true;
        }
    }
    false
}

/// The peers of `members` other than `peer`, in order.
fn others(members: &Vec<PeerId>, peer: PeerId) -> (r: Vec<PeerId>)
    requires
        members@.no_duplicates(),
    ensures
        r@ == without_member(members@, peer),
        r@.no_duplicates(),
{
    let mut out: Vec<PeerId> = Vec::new();
    for k in 0..members.len()
        invariant
            members@.no_duplicates(),
            out@ == without_member(members@.take(k as int), peer),
            out@.no_duplicates(),
            forall|j: int| 0 <= j < out@.len() ==> members@.take(k as int).contains(#[trigger] out@[j]),
    {
        proof {
            reveal_with_fuel(Seq::filter, 1);
            assert(members@.take(k + 1).drop_last() =~= members@.take(k as int));
        }
        let p = members[k];
        if p != peer {
            proof {
                assert forall|j: int| 0 <= j < out@.len() implies out@[j] != p by {
                    let q = choose|q: int| 0 <= q < k && members@.take(k as int)[q] == out@[j];
                    assert(members@[q] == out@[j]);
                }
            }
            out.push(p);
        }
        proof {
            assert forall|j: int| 0 <= j < out@.len() implies members@.take(k + 1).contains(
                #[trigger] out@[j],
            ) by {
                if j < out@.len() - 1 || p == peer {
                    let q = choose|q: int| 0 <= q < k && members@.take(k as int)[q] == out@[j];
                    assert(members@.take(k + 1)[q] == out@[j]);
                } else {
                    assert(members@.take(k + 1)[k as int] == p);
                }
            }
        }
    }
    proof {
        assert(members@.take(members@.len() as int) =~= members@);
    }
    out
}

impl Rooms {
    /// No rooms yet.
    pub fn new() -> (r: Self)
        ensures
            r@ == Seq::<(Seq<char>, Seq<PeerId>)>::empty(),
    {
        Rooms { rooms: Vec::new() }
    }

    /// The position of room `room`, if it exists.
    fn find(&self, room: &String) -> (r: Option<usize>)
        requires
            distinct_keys(self@),
        ensures
            match r {
                Some(i) => has_key(self@, room@) && i == key_position(self@, room@) && i < self@.len(),
                None => !has_key(self@, room@),
            },
    {
        let n = self.rooms.len();
        for i in 0..n
            invariant
                n == self.rooms@.len(),
                distinct_keys(self@),
                forall|j: int| 0 <= j < i ==> self@[j].0 != room@,
        {
            if self.rooms[i].0 == *room {
                proof {
                    assert(self@[i as int].0 == room@);
                    lemma_position(self@, room@, i as int);
                }
                return Some(i);
            }
        }
        proof {
            if has_key(self@, room@) {
                let p = key_position(self@, room@);
                assert(self@[p].0 == room@);
            }
        }
        None
    }

    /// Adds `peer_id` to `room` (opening the room if needed), tells whoever was already
    /// there that `peer_id` joined, and returns their IDs so the new peer knows who to
    /// connect to.
    pub fn join(&mut self, room: &str, peer_id: PeerId) -> (r: (Vec<PeerId>, Vec<Delivery>))
        requires
            rooms_wf(old(self)@),
        ensures
            rooms_wf(final(self)@),
            final(self)@ == spec_join(old(self)@, room@, peer_id),
            r.0@ == members_of(old(self)@, room@),
            announces_join(r.1@, members_of(old(self)@, room@), peer_id),
    {
        let name = room.to_owned();
        match self.find(&name) {
            Some(i) => {
                let existing = copy_peers(&self.rooms[i].1);
                let mut notes: Vec<Delivery> = Vec::new();
                for k in 0..existing.len()
                    invariant
                        notes@.len() == k,
                        announces_join(notes@, existing@.take(k as int), peer_id),
                {
                    notes.push(Delivery { to: existing[k], message: ServerMessage::PeerJoined { peer_id } });
                }
                proof {
                    assert(existing@.take(existing@.len() as int) =~= existing@);
                }
                let present = contains_peer(&self.rooms[i].1, peer_id);
                if !present {
                    self.rooms[i].1.push(peer_id);
                }
                proof {
                    assert(self@ =~= spec_insert(
                        old(self)@,
                        room@,
                        with_member(members_of(old(self)@, room@), peer_id),
                    ));
                    assert forall|a: int| 0 <= a < self@.len() implies {
                        &&& (#[trigger] self@[a]).1.len() > 0
                        &&& self@[a].1.no_duplicates()
                    } by {
                        if a != i {
                            assert(self@[a] == old(self)@[a]);
                        }
                    }
                    assert forall|a: int, b: int| 0 <= a < b < self@.len() implies #[trigger] self@[a].0
                        != #[trigger] self@[b].0 by {
                        assert(self@[a].0 == old(self)@[a].0 && self@[b].0 == old(self)@[b].0);
                    }
                }
                (existing, notes)
            },
            None => {
                let mut members: Vec<PeerId> = Vec::new();
                members.push(peer_id);
                self.rooms.push((name, members));
                proof {
                    assert(self@ =~= spec_insert(
                        old(self)@,
                        room@,
                        with_member(members_of(old(self)@, room@), peer_id),
                    ));
                    assert forall|a: int| 0 <= a < self@.len() implies {
                        &&& (#[trigger] self@[a]).1.len() > 0
                        &&& self@[a].1.no_duplicates()
                    } by {
                        if a < old(self)@.len() {
                            assert(self@[a] == old(self)@[a]);
                        }
                    }
                    assert forall|a: int, b: int| 0 <= a < b < self@.len() implies #[trigger] self@[a].0
                        != #[trigger] self@[b].0 by {
                        if b == old(self)@.len() {
                            assert(old(self)@[a].0 != room@);
                        }
                    }
                }
                (Vec::new(), Vec::new())
            },
        }
    }

    /// Removes `peer_id` from `room` and tells whoever remains that it left. A room left
    /// empty is dropped, so a room name does not linger after everyone has gone.
    #[verifier::rlimit(30)]
    pub fn leave(&mut self, room: &str, peer_id: PeerId) -> (r: Vec<Delivery>)
        requires
            rooms_wf(old(self)@),
        ensures
            rooms_wf(final(self)@),
            final(self)@ == spec_leave(old(self)@, room@, peer_id),
            announces_leave(r@, leave_notified(old(self)@, room@, peer_id), peer_id),
    {
        let name = room.to_owned();
        match self.find(&name) {
            None => {
                proof {
                    reveal_with_fuel(Seq::filter, 1);
                    assert(leave_notified(old(self)@, room@, peer_id) =~= Seq::<PeerId>::empty());
                }
                Vec::new()
            },
            Some(i) => {
                proof {
                    assert(old(self)@[i as int].1.no_duplicates());
                    assert(old(self)@[i as int].0 == room@);
                    lemma_position(old(self)@, room@, i as int);
                    assert(members_of(old(self)@, room@) == old(self)@[i as int].1);
                }
                let rest = others(&self.rooms[i].1, peer_id);
                let mut notes: Vec<Delivery> = Vec::new();
                for k in 0..rest.len()
                    invariant
                        notes@.len() == k,
                        announces_leave(notes@, rest@.take(k as int), peer_id),
                {
                    notes.push(Delivery { to: rest[k], message: ServerMessage::PeerLeft { peer_id } });
                }
                proof {
                    assert(rest@.take(rest@.len() as int) =~= rest@);
                }
                if rest.len() == 0 {
                    self.rooms.remove(i);
                    proof {
                        assert(self@ =~= spec_remove(old(self)@, room@));
                        assert forall|a: int| 0 <= a < self@.len() implies {
                            &&& (#[trigger] self@[a]).1.len() > 0
                            &&& self@[a].1.no_duplicates()
                        } by {
                            let b = if a < i { a } else { a + 1 };
                            assert(self@[a] == old(self)@[b]);
                        }
                        assert forall|a: int, b: int| 0 <= a < b < self@.len() implies #[trigger] self@[a].0
                            != #[trigger] self@[b].0 by {
                            let aa = if a < i { a } else { a + 1 };
                            let bb = if b < i { b } else { b + 1 };
                            assert(self@[a] == old(self)@[aa] && self@[b] == old(self)@[bb]);
                        }
                    }
                } else {
                    self.rooms[i].1 = rest;
                    proof {
                        assert(self@ =~= spec_insert(old(self)@, room@, without_member(members_of(old(self)@, room@), peer_id)));
                        assert forall|a: int| 0 <= a < self@.len() implies {
                            &&& (#[trigger] self@[a]).1.len() > 0
                            &&& self@[a].1.no_duplicates()
                        } by {
                            if a != i {
                                assert(self@[a] == old(self)@[a]);
                            }
                        }
                        assert forall|a: int, b: int| 0 <= a < b < self@.len() implies #[trigger] self@[a].0
                            != #[trigger] self@[b].0 by {
                            assert(self@[a].0 == old(self)@[a].0 && self@[b].0 == old(self)@[b].0);
                        }
                    }
                }
                notes
            },
        }
    }

    /// Forwards `message` to `target` if it is a member of `room`; a stale target (the
    /// other side left mid-handshake) gets nothing, which is not an error.
    pub fn send_to(&self, room: &str, target: PeerId, message: ServerMessage) -> (r: Option<Delivery>)
        requires
            rooms_wf(self@),
        ensures
            match r {
                Some(d) => members_of(self@, room@).contains(target) && delivers(d, target, message),
                None => !members_of(self@, room@).contains(target),
            },
    {
        let name = room.to_owned();
        match self.find(&name) {
            None => None,
            Some(i) => {
                if contains_peer(&self.rooms[i].1, target) {
                    Some(Delivery { to: target, message })
                } else {
                    None
                }
            },
        }
    }
}

/// When the last member leaves a room, the room is gone.
pub proof fn law_last_leave_closes_room(rooms: Seq<(Seq<char>, Seq<PeerId>)>, room: Seq<char>, peer: PeerId)
    requires
        rooms_wf(rooms),
        members_of(rooms, room) == seq![peer],
    ensures
        !has_key(spec_leave(rooms, room, peer), room),
{
    if has_key(rooms, room) {
        reveal_with_fuel(Seq::filter, 2);
        assert(seq![peer].drop_last() =~= Seq::<PeerId>::empty());
        assert(without_member(seq![peer], peer).len() == 0);
        law_get_after_remove(rooms, room);
    } else {
        assert(members_of(rooms, room).len() == 0);
    }
}

} // verus!
