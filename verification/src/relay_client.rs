//! The bookkeeping of a peer client of the relay: the queue that holds back ICE candidates
//! until a connection's remote description is set, and the inbox that queues received
//! data-channel text by channel label until the page drains it. The WebRTC objects
//! themselves live with the caller.

use vstd::prelude::*;

use crate::protocol::{ClientMessage, PeerId, ServerMessage};
use crate::relay::{after_leaving, handled};
use crate::room::members_of;

verus! {

/// Holds ICE candidates that arrive before the remote description is set; candidates can
/// cross the relay before the offer/answer exchange that gives them a connection to join.
pub struct IceQueue<C> {
    remote_description_set: bool,
    pending: Vec<C>,
}

/// What happened to a connection's candidates.
pub enum IceEvent<C> {
    /// A candidate arrived.
    Candidate(C),
    /// The remote description was set.
    Opened,
}

/// One step of the queue: from whether the remote description is set and the held candidates, and
/// an event, to the new state and the candidates to apply now, in order.
pub open spec fn ice_step<C>(open: bool, pending: Seq<C>, event: IceEvent<C>) -> (bool, Seq<C>, Seq<C>) {
    match event {
        IceEvent::Candidate(c) => if open {
            (open, pending, seq![c])
        } else {
            (open, pending.push(c), Seq::empty())
        },
        IceEvent::Opened => (true, Seq::empty(), pending),
    }
}

/// The candidates among `events`, in order.
pub open spec fn candidates_in<C>(events: Seq<IceEvent<C>>) -> Seq<C>
    decreases events.len(),
{
    if events.len() == 0 {
        Seq::empty()
    } else {
        match events.last() {
            IceEvent::Candidate(c) => candidates_in(events.drop_last()).push(c),
            IceEvent::Opened => candidates_in(events.drop_last()),
        }
    }
}

/// Runs the queue through `events` from the given state: the final state and everything
/// applied along the way, in order.
pub open spec fn ice_run<C>(open: bool, pending: Seq<C>, events: Seq<IceEvent<C>>) -> (bool, Seq<C>, Seq<C>)
    decreases events.len(),
{
    if events.len() == 0 {
        (open, pending, Seq::empty())
    } else {
        let (o, p, applied) = ice_run(open, pending, events.drop_last());
        let (o2, p2, now) = ice_step(o, p, events.last());
        (o2, p2, applied + now)
    }
}

impl<C> IceQueue<C> {
    /// Whether the remote description is set.
    pub closed spec fn is_open(&self) -> bool {
        self.remote_description_set
    }

    /// The candidates held back, oldest first.
    pub closed spec fn held(&self) -> Seq<C> {
        self.pending@
    }

    /// A queue for a connection with no remote description yet.
    pub fn new() -> (r: Self)
        ensures
            !r.is_open(),
            r.held() == Seq::<C>::empty(),
    {
        IceQueue { remote_description_set: false, pending: Vec::new() }
    }

    /// A candidate arrived: it is handed back to apply now once the remote description is
    /// set, and held otherwise.
    pub fn offer(&mut self, candidate: C) -> (r: Option<C>)
        ensures
            ({
                let (open, pending, now) = ice_step(
                    old(self).is_open(),
                    old(self).held(),
                    IceEvent::Candidate(candidate),
                );
                &&& final(self).is_open() == open
                &&& final(self).held() == pending
                &&& match r {
                    Some(c) => now == seq![c],
                    None => now == Seq::<C>::empty(),
                }
            }),
    {
        if self.remote_description_set {
            Some(candidate)
        } else {
            self.pending.push(candidate);
            None
        }
    }

    /// The remote description is set: every held candidate is handed back, oldest first,
    /// and later ones pass straight through.
    pub fn open(&mut self) -> (r: Vec<C>)
        ensures
            ({
                let (open, pending, now) = ice_step(old(self).is_open(), old(self).held(), IceEvent::Opened);
                &&& final(self).is_open() == open
                &&& final(self).held() == pending
                &&& r@ == now
            }),
    {
        self.remote_description_set = true;
        let mut taken: Vec<C> = Vec::new();
        std::mem::swap(&mut taken, &mut self.pending);
        taken
    }
}

/// No candidate is lost, duplicated or reordered: from a fresh queue, whatever sequence of
/// arrivals and openings happens, the candidates applied so far followed by those still
/// held are exactly the candidates that arrived, in arrival order.
pub proof fn law_ice_keeps_every_candidate_in_order<C>(events: Seq<IceEvent<C>>)
    ensures
        ({
            let (open, pending, applied) = ice_run(false, Seq::<C>::empty(), events);
            &&& applied + pending == candidates_in(events)
            &&& open ==> pending.len() == 0
        }),
    decreases events.len(),
{
    if events.len() == 0 {
        assert(Seq::<C>::empty() + Seq::<C>::empty() =~= Seq::<C>::empty());
    } else {
        law_ice_keeps_every_candidate_in_order(events.drop_last());
        let (o, p, applied) = ice_run(false, Seq::<C>::empty(), events.drop_last());
        match events.last() {
            IceEvent::Candidate(c) => {
                if o {
                    assert(applied + seq![c] + p =~= (applied + p).push(c));
                } else {
                    assert(applied + Seq::<C>::empty() + p.push(c) =~= (applied + p).push(c));
                }
            },
            IceEvent::Opened => {
                assert(applied + p + Seq::<C>::empty() =~= applied + p);
            },
        }
    }
}

/// Text received per data-channel label, oldest first, until drained.
pub struct Inbox {
    queues: Vec<(String, Vec<String>)>,
}

/// The queue stored under `label`, or none.
pub open spec fn queue_of(queues: Seq<(Seq<char>, Seq<Seq<char>>)>, label: Seq<char>) -> Seq<Seq<char>>
    decreases queues.len(),
{
    if queues.len() == 0 {
        Seq::empty()
    } else if queues.last().0 == label {
        queues.last().1
    } else {
        queue_of(queues.drop_last(), label)
    }
}

impl Inbox {
    /// Each label's queue.
    pub closed spec fn queues(&self) -> Seq<(Seq<char>, Seq<Seq<char>>)> {
        self.queues@.map_values(|e: (String, Vec<String>)| (e.0@, e.1@.map_values(|t: String| t@)))
    }

    /// Labels are not repeated.
    pub closed spec fn wf(&self) -> bool {
        forall|i: int, j: int| 0 <= i < j < self.queues@.len() ==> (#[trigger] self.queues@[i]).0@ != (
        #[trigger] self.queues@[j]).0@
    }

    /// The text received on `label` and not yet drained.
    pub open spec fn pending_on(&self, label: Seq<char>) -> Seq<Seq<char>> {
        queue_of(self.queues(), label)
    }

    /// An empty inbox.
    pub fn new() -> (r: Self)
        ensures
            r.wf(),
            forall|label: Seq<char>| #[trigger] r.pending_on(label) == Seq::<Seq<char>>::empty(),
    {
        let r = Inbox { queues: Vec::new() };
        proof {
            assert(r.queues() =~= Seq::<(Seq<char>, Seq<Seq<char>>)>::empty());
        }
        r
    }

    /// The position of `label`'s queue.
    fn find(&self, label: &str) -> (r: Option<usize>)
        requires
            self.wf(),
        ensures
            match r {
                Some(i) => i < self.queues@.len() && self.queues@[i as int].0@ == label@,
                None => forall|j: int| 0 <= j < self.queues@.len() ==> (#[trigger] self.queues@[j]).0@ != label@,
            },
    {
        let n = self.queues.len();
        let mut i: usize = 0;
        while i < n
            invariant
                n == self.queues@.len(),
                i <= n,
                forall|j: int| 0 <= j < i ==> (#[trigger] self.queues@[j]).0@ != label@,
            decreases n - i,
        {
            if crate::text::text_eq(self.queues[i].0.as_str(), label) {
                return Some(i);
            }
            i = i + 1;
        }
        None
    }

    /// Queues `text` received on `label`.
    pub fn push(&mut self, label: &str, text: String)
        requires
            old(self).wf(),
        ensures
            final(self).wf(),
            final(self).pending_on(label@) == old(self).pending_on(label@).push(text@),
            forall|other: Seq<char>| other != label@ ==> #[trigger] final(self).pending_on(other) == old(
                self,
            ).pending_on(other),
    {
        let ghost before = self.queues();
        match self.find(label) {
            Some(i) => {
                let (key, mut queue) = self.queues.remove(i);
                let ghost q = queue@;
                queue.push(text);
                self.queues.insert(i, (key, queue));
                proof {
                    lemma_queue_of_update(before, i as int, label@, before[i as int].1);
                    assert(before.update(i as int, (label@, before[i as int].1)) =~= before);
                    assert(queue@.map_values(|t: String| t@) =~= q.map_values(|t: String| t@).push(text@));
                    assert(self.queues() =~= before.update(i as int, (label@, before[i as int].1.push(text@))));
                    lemma_queue_of_update(before, i as int, label@, before[i as int].1.push(text@));
                    assert forall|a: int, b: int| 0 <= a < b < self.queues@.len() implies (#[trigger] self.queues@[a]).0@
                        != (#[trigger] self.queues@[b]).0@ by {
                        assert(self.queues()[a].0 == before[a].0);
                        assert(self.queues()[b].0 == before[b].0);
                        assert(old(self).queues@[a].0@ == before[a].0);
                        assert(old(self).queues@[b].0@ == before[b].0);
                    }
                }
            },
            None => {
                let mut queue: Vec<String> = Vec::new();
                let ghost tv = text@;
                queue.push(text);
                let key = String::from_str(label);
                self.queues.push((key, queue));
                proof {
                    assert(queue@.map_values(|t: String| t@) =~= seq![tv]);
                    assert(self.queues() =~= before.push((label@, seq![tv])));
                    lemma_queue_of_absent(before, label@);
                    assert(self.queues().drop_last() =~= before);
                    assert(seq![tv] =~= Seq::<Seq<char>>::empty().push(tv));
                    assert forall|a: int, b: int| 0 <= a < b < self.queues@.len() implies (#[trigger] self.queues@[a]).0@
                        != (#[trigger] self.queues@[b]).0@ by {
                        if b == self.queues@.len() - 1 {
                            assert(old(self).queues@[a].0@ != label@);
                        }
                    }
                }
            },
        }
    }

    /// Hands back and clears everything received on `label`, oldest first.
    pub fn poll(&mut self, label: &str) -> (r: Vec<String>)
        requires
            old(self).wf(),
        ensures
            final(self).wf(),
            r@.map_values(|t: String| t@) == old(self).pending_on(label@),
            final(self).pending_on(label@) == Seq::<Seq<char>>::empty(),
            forall|other: Seq<char>| other != label@ ==> #[trigger] final(self).pending_on(other) == old(
                self,
            ).pending_on(other),
    {
        let ghost before = self.queues();
        match self.find(label) {
            Some(i) => {
                let (key, queue) = self.queues.remove(i);
                let fresh: Vec<String> = Vec::new();
                proof {
                    assert(fresh@.map_values(|t: String| t@) =~= Seq::<Seq<char>>::empty());
                    assert(key@ == label@);
                }
                self.queues.insert(i, (key, fresh));
                proof {
                    assert(self.queues() =~= before.update(i as int, (label@, Seq::<Seq<char>>::empty())));
                    lemma_queue_of_update(before, i as int, label@, Seq::<Seq<char>>::empty());
                    lemma_queue_of_update(before, i as int, label@, before[i as int].1);
                    assert(before.update(i as int, (label@, before[i as int].1)) =~= before);
                    assert forall|a: int, b: int| 0 <= a < b < self.queues@.len() implies (#[trigger] self.queues@[a]).0@
                        != (#[trigger] self.queues@[b]).0@ by {
                        assert(self.queues()[a].0 == before[a].0);
                        assert(self.queues()[b].0 == before[b].0);
                        assert(old(self).queues@[a].0@ == before[a].0);
                        assert(old(self).queues@[b].0@ == before[b].0);
                    }
                }
                queue
            },
            None => {
                proof {
                    lemma_queue_of_absent(before, label@);
                }
                let r: Vec<String> = Vec::new();
                proof {
                    assert(r@.map_values(|t: String| t@) =~= Seq::<Seq<char>>::empty());
                }
                r
            },
        }
    }
}

/// A label no entry carries has an empty queue.
proof fn lemma_queue_of_absent(queues: Seq<(Seq<char>, Seq<Seq<char>>)>, label: Seq<char>)
    requires
        forall|j: int| 0 <= j < queues.len() ==> (#[trigger] queues[j]).0 != label,
    ensures
        queue_of(queues, label) == Seq::<Seq<char>>::empty(),
    decreases queues.len(),
{
    if queues.len() > 0 {
        assert(queues.last() == queues[queues.len() - 1]);
        assert forall|j: int| 0 <= j < queues.drop_last().len() implies (#[trigger] queues.drop_last()[j]).0 != label by {
            assert(queues.drop_last()[j] == queues[j]);
        }
        lemma_queue_of_absent(queues.drop_last(), label);
    }
}

/// Replacing the queue of the one entry carrying `label` (labels distinct) changes that
/// label's queue and no other.
proof fn lemma_queue_of_update(
    queues: Seq<(Seq<char>, Seq<Seq<char>>)>,
    i: int,
    label: Seq<char>,
    q: Seq<Seq<char>>,
)
    requires
        0 <= i < queues.len(),
        queues[i].0 == label,
        forall|a: int, b: int| 0 <= a < b < queues.len() ==> (#[trigger] queues[a]).0 != (#[trigger] queues[b]).0,
    ensures
        queue_of(queues.update(i, (label, q)), label) == q,
        forall|other: Seq<char>| other != label ==> #[trigger] queue_of(queues.update(i, (label, q)), other) == queue_of(
            queues,
            other,
        ),
    decreases queues.len(),
{
    let u = queues.update(i, (label, q));
    if i == queues.len() - 1 {
        assert(u.last() == (label, q));
        assert(u.drop_last() =~= queues.drop_last());
        assert forall|other: Seq<char>| other != label implies #[trigger] queue_of(u, other) == queue_of(queues, other) by {
            assert(queues.last().0 == label);
        }
    } else {
        let init = queues.drop_last();
        assert forall|a: int, b: int| 0 <= a < b < init.len() implies (#[trigger] init[a]).0 != (#[trigger] init[b]).0 by {
            assert(init[a] == queues[a]);
            assert(init[b] == queues[b]);
        }
        assert(init[i] == queues[i]);
        lemma_queue_of_update(init, i, label, q);
        assert(u.drop_last() =~= init.update(i, (label, q)));
        assert(u.last() == queues.last());
        assert(queues.last().0 != label) by {
            assert(queues[i].0 != queues[queues.len() - 1].0);
        }
        assert forall|other: Seq<char>| other != label implies #[trigger] queue_of(u, other) == queue_of(queues, other) by {
            if queues.last().0 != other {
                assert(queue_of(init.update(i, (label, q)), other) == queue_of(init, other));
            }
        }
    }
}

/// What a peer client does with a message from the relay. The rule that keeps two peers
/// from offering to each other at once: the newcomer offers to every peer already in the
/// room, and a peer already there waits for the newcomer's offer.
#[derive(Debug)]
pub enum ClientReaction {
    /// Offer a connection to each of these peers (those already in the room on joining).
    OfferTo(Vec<PeerId>),
    /// A peer joined: wait for its offer.
    AwaitOffer,
    /// Close and forget the connection to this peer.
    DropPeer(PeerId),
    /// Answer this peer's offer.
    AcceptOffer(PeerId, String),
    /// Apply this peer's answer.
    AcceptAnswer(PeerId, String),
    /// Apply this peer's ICE candidate, or hold it back until the connection can take it.
    Candidate(PeerId, String),
    /// Report the relay's error.
    ReportError(String),
}

/// The peers a client offers a connection to on receiving `m`.
pub open spec fn offers_made(m: ServerMessage) -> Seq<PeerId> {
    match m {
        ServerMessage::Joined { peers, .. } => peers@,
        _ => Seq::empty(),
    }
}

/// What the client does with `message`.
pub fn client_reaction(message: ServerMessage) -> (r: ClientReaction)
    ensures
        match message {
            ServerMessage::Joined { peers, .. } => r matches ClientReaction::OfferTo(ps) && ps@ == peers@,
            ServerMessage::PeerJoined { .. } => r is AwaitOffer,
            ServerMessage::PeerLeft { peer_id } => r == ClientReaction::DropPeer(peer_id),
            ServerMessage::Offer { from, sdp } => r matches ClientReaction::AcceptOffer(p, s) && p == from && s@ == sdp@,
            ServerMessage::Answer { from, sdp } => r matches ClientReaction::AcceptAnswer(p, s) && p == from && s@ == sdp@,
            ServerMessage::IceCandidate { from, candidate } => r matches ClientReaction::Candidate(p, c) && p == from
                && c@ == candidate@,
            ServerMessage::Error { message: text } => r matches ClientReaction::ReportError(t) && t@ == text@,
        },
        (r matches ClientReaction::OfferTo(ps) ==> ps@ == offers_made(message)),
        !(r is OfferTo) ==> offers_made(message).len() == 0,
{
    match message {
        ServerMessage::Joined { peer_id: _, peers } => ClientReaction::OfferTo(peers),
        ServerMessage::PeerJoined { .. } => ClientReaction::AwaitOffer,
        ServerMessage::PeerLeft { peer_id } => ClientReaction::DropPeer(peer_id),
        ServerMessage::Offer { from, sdp } => ClientReaction::AcceptOffer(from, sdp),
        ServerMessage::Answer { from, sdp } => ClientReaction::AcceptAnswer(from, sdp),
        ServerMessage::IceCandidate { from, candidate } => ClientReaction::Candidate(from, candidate),
        ServerMessage::Error { message } => ClientReaction::ReportError(message),
    }
}

/// When a peer joins a room, only the newcomer offers: every message the relay sends to
/// the others for that join makes them offer nothing, and the one it sends the newcomer
/// makes it offer to exactly the peers already in the room.
pub proof fn law_only_the_newcomer_offers(
    rooms: Seq<(Seq<char>, Seq<PeerId>)>,
    peer: PeerId,
    joined: Option<String>,
    room: String,
    rooms_after: Seq<(Seq<char>, Seq<PeerId>)>,
    joined_after: Option<String>,
    ds: Seq<crate::protocol::Delivery>,
)
    requires
        handled(rooms, peer, joined, ClientMessage::Join { room }, rooms_after, joined_after, ds),
    ensures
        forall|i: int| 0 <= i < ds.len() - 1 ==> offers_made(#[trigger] ds[i].message).len() == 0,
        ds.last().to == peer,
        offers_made(ds.last().message) == members_of(after_leaving(rooms, joined, peer), room@),
{
    let gone = crate::relay::leaving_notified(rooms, joined, peer);
    let existing = members_of(after_leaving(rooms, joined, peer), room@);
    assert forall|i: int| 0 <= i < ds.len() - 1 implies offers_made(#[trigger] ds[i].message).len() == 0 by {
        if i < gone.len() {
            assert(ds.take(gone.len() as int)[i] == ds[i]);
        } else {
            let mid = ds.subrange(gone.len() as int, gone.len() + existing.len() as int);
            assert(mid[i - gone.len()] == ds[i]);
        }
    }
}

/// How many of `peers` (each given by whether each of its data channels is open) have at
/// least one open channel.
pub open spec fn connected_in(peers: Seq<Seq<bool>>) -> nat
    decreases peers.len(),
{
    if peers.len() == 0 {
        0
    } else {
        connected_in(peers.drop_last()) + if peers.last().contains(true) { 1nat } else { 0nat }
    }
}

/// How many peers are actually connected: those with at least one open data channel (an
/// open relay socket alone says nothing about a finished peer handshake). Each peer is
/// given by whether each of its channels is open.
pub fn connected_peer_count(peers: &[Vec<bool>]) -> (r: usize)
    ensures
        r == connected_in(peers@.map_values(|v: Vec<bool>| v@)),
{
    let ghost views = peers@.map_values(|v: Vec<bool>| v@);
    let mut count: usize = 0;
    let mut i: usize = 0;
    while i < peers.len()
        invariant
            i <= peers@.len(),
            views == peers@.map_values(|v: Vec<bool>| v@),
            count <= i,
            count == connected_in(views.take(i as int)),
        decreases peers@.len() - i,
    {
        proof {
            assert(views.take(i + 1).drop_last() =~= views.take(i as int));
            assert(views.take(i + 1).last() == peers@[i as int]@);
        }
        let channels = &peers[i];
        let mut open = false;
        let mut k: usize = 0;
        while k < channels.len()
            invariant
                k <= channels@.len(),
                open == channels@.take(k as int).contains(true),
            decreases channels@.len() - k,
        {
            proof {
                assert(channels@.take(k + 1) =~= channels@.take(k as int).push(channels@[k as int]));
                if channels@.take(k as int).contains(true) {
                    let j = choose|j: int| 0 <= j < k && channels@.take(k as int)[j] == true;
                    assert(channels@.take(k + 1)[j] == true);
                }
                if channels@[k as int] {
                    assert(channels@.take(k + 1)[k as int] == true);
                }
            }
            if channels[k] {
                open = true;
            }
            k = k + 1;
        }
        proof {
            assert(channels@.take(channels@.len() as int) =~= channels@);
        }
        if open {
            count = count + 1;
        }
        i = i + 1;
    }
    proof {
        assert(views.take(peers@.len() as int) =~= views);
    }
    count
}

} // verus!
