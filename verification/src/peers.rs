//! The links of a node.

use crate::circuit::CircuitCellMsg;
use crate::dht::PeerInfo;
use crate::ids::IdMap;
use crate::queues;
use crate::queues::CellQueues;
use crate::session::Session;
use vstd::prelude::*;

verus! {

/// A peer that sends nothing, not even padding, for more than this many seconds is
/// taken for dead.
pub const STALE_PEER_SECS: u64 = 90;

/// A linked peer.
pub struct PeerConn {
    /// Who it is and how to reach it.
    pub info: PeerInfo,
    /// The link's session.
    pub session: Session,
    /// When something last arrived, in Unix seconds.
    pub last_seen: u64,
    /// The address that it connected from; nothing for a peer that was dialled.
    pub remote_ip: Option<String>,
    /// The cells that wait to leave over the link.
    pub queues: CellQueues<CircuitCellMsg>,
}

/// For how many seconds a peer that was last heard of at `seen` has been silent.
pub open spec fn silence(now: u64, seen: u64) -> int {
    if now >= seen {
        now - seen
    } else {
        0
    }
}

impl PeerConn {
    /// The link's queues are sound.
    pub open spec fn wf(self) -> bool {
        self.queues.wf()
    }

    /// The peer has been silent for too long.
    pub open spec fn stale(self, now: u64) -> bool {
        silence(now, self.last_seen) > STALE_PEER_SECS
    }

    /// A fresh link.
    pub fn new(info: PeerInfo, session: Session, remote_ip: Option<String>, now: u64) -> (r: Self)
        ensures
            r.info == info,
            r.session == session,
            r.last_seen == now,
            r.remote_ip == remote_ip,
            r.queues@ == Map::<u32, Seq<CircuitCellMsg>>::empty(),
            r.wf(),
    {
        PeerConn { info, session, last_seen: now, remote_ip, queues: CellQueues::new() }
    }

    /// Notes that something arrived.
    pub fn touch(&mut self, now: u64)
        ensures
            final(self).last_seen == now,
            final(self).info == old(self).info,
            final(self).session == old(self).session,
            final(self).remote_ip == old(self).remote_ip,
            final(self).queues == old(self).queues,
    {
        self.last_seen = now;
    }

    /// For how many seconds the peer has been silent.
    pub fn idle_secs(&self, now: u64) -> (r: u64)
        ensures
            r == silence(now, self.last_seen),
    {
        if now >= self.last_seen {
            now - self.last_seen
        } else {
            0
        }
    }

    /// Queues a cell for a circuit; it leaves when the scheduler picks the circuit.
    pub fn send_circuit_msg(&mut self, cid: u32, msg: CircuitCellMsg)
        requires
            old(self).wf(),
        ensures
            final(self).wf(),
            final(self).queues@ == queues::pushed(old(self).queues@, cid, msg),
            final(self).info == old(self).info,
            final(self).session == old(self).session,
            final(self).last_seen == old(self).last_seen,
            final(self).remote_ip == old(self).remote_ip,
    {
        self.queues.push(cid, msg);
    }
}

/// Every peer is filed under its own identifier, and its queues are sound.
pub open spec fn peers_sound(m: Map<Seq<u8>, PeerConn>) -> bool {
    forall|id: Seq<u8>| #[trigger]
        m.contains_key(id) ==> m[id].info.node_id@ == id && m[id].wf()
}

/// The identifiers of a list of peers.
pub open spec fn ids_of(l: Seq<([u8; 32], PeerConn)>) -> Seq<[u8; 32]> {
    l.map_values(|e: ([u8; 32], PeerConn)| e.0)
}

/// The identifiers of the linked peers.
pub fn linked_ids(peers: &IdMap<PeerConn>) -> (r: Vec<[u8; 32]>)
    requires
        peers.wf(),
    ensures
        r@ == ids_of(peers.list()),
{
    let mut r: Vec<[u8; 32]> = Vec::new();
    let mut i: usize = 0;
    while i < peers.len()
        invariant
            peers.wf(),
            i <= peers.list().len(),
            r@ =~= ids_of(peers.list().take(i as int)),
        decreases peers.list().len() - i,
    {
        r.push(*peers.id(i));
        i += 1;
    }
    assert(peers.list().take(i as int) =~= peers.list());
    r
}

/// What the link itself has to send, outside of any circuit.
#[derive(Debug)]
pub enum Direct {
    /// A sealed frame.
    Frame(Vec<u8>),
    /// Nothing now.
    Empty,
    /// Nothing ever again.
    Closed,
}

/// What the writer of a link does next.
#[derive(Debug)]
pub enum WriterStep {
    /// Write a sealed frame.
    Write(Vec<u8>),
    /// Seal a cell and write it.
    Seal(CircuitCellMsg),
    /// Wait until something arrives.
    Wait,
    /// Stop.
    Stop,
}

/// What the writer of a link does next. The link's own frames go before cells;
/// `choice` is the circuit that the scheduler picks among those with waiting cells.
/// A cell is sealed only now, so that the far end opens frames in the order in which
/// they were sealed.
pub fn writer_step(queues: &mut CellQueues<CircuitCellMsg>, direct: Direct, choice: Option<u32>) -> (r:
    WriterStep)
    requires
        old(queues).wf(),
    ensures
        final(queues).wf(),
        match direct {
            Direct::Frame(f) => r == WriterStep::Write(f) && final(queues)@ == old(queues)@,
            Direct::Closed => r is Stop && final(queues)@ == old(queues)@,
            Direct::Empty => match choice {
                Some(c) => if old(queues)@.contains_key(c) {
                    r == WriterStep::Seal(old(queues)@[c][0]) && final(queues)@ == queues::popped(
                        old(queues)@,
                        c,
                    )
                } else {
                    r is Wait && final(queues)@ == old(queues)@
                },
                None => r is Wait && final(queues)@ == old(queues)@,
            },
        },
{
    match direct {
        Direct::Frame(f) => WriterStep::Write(f),
        Direct::Closed => WriterStep::Stop,
        Direct::Empty => match queues.pop_next(choice) {
            Some((_, m)) => WriterStep::Seal(m),
            None => WriterStep::Wait,
        },
    }
}

/// A peer is silent for the time since it was last heard of, and a touch ends its silence.
pub proof fn law_a_touch_ends_the_silence(p: PeerConn, after: PeerConn, now: u64, later: u64, idle: u64, was: u64)
    requires
        exists|x: &mut PeerConn|
            *x == p && *final(x) == after && #[trigger] call_ensures(PeerConn::touch, (x, now), ()),
        call_ensures(PeerConn::idle_secs, (&after, later), idle),
        call_ensures(PeerConn::idle_secs, (&p, later), was),
    ensures
        later >= now ==> now + idle == later,
        later < now ==> idle == 0,
        later >= p.last_seen ==> p.last_seen + was == later,
        p.stale(later) <==> later > p.last_seen + 90,
        after.queues == p.queues && after.info == p.info,
{
}

/// What was queued for a circuit of a peer is sealed and written in the order in which it
/// was queued, circuit by circuit as chosen; a frame that is ready goes first, as it is,
/// and a closed link ends the writing.
pub proof fn law_queued_cells_are_written(
    before: CellQueues<CircuitCellMsg>,
    after: CellQueues<CircuitCellMsg>,
    choice: Option<u32>,
    direct: Direct,
    r: WriterStep,
)
    requires
        exists|q: &mut CellQueues<CircuitCellMsg>|
            *q == before && *final(q) == after && #[trigger] call_ensures(writer_step, (q, direct, choice), r),
    ensures
        r is Write <==> direct is Frame,
        direct is Frame ==> r->Write_0@ == direct->Frame_0@,
        r is Stop <==> direct is Closed,
        r is Seal <==> direct is Empty && choice is Some && before@.contains_key(choice->0),
        r is Seal ==> r->Seal_0 == before@[choice->0][0],
        r is Seal && before@[choice->0].len() > 1 ==> after@.contains_key(choice->0) && after@[choice->0]
            == before@[choice->0].skip(1),
        r is Seal ==> forall|c: u32|
            c != choice->0 ==> before@.contains_key(c) == #[trigger] after@.contains_key(c) && (
            before@.contains_key(c) ==> after@[c] == before@[c]),
        !(r is Seal) ==> after@ == before@,
{
}

/// A message for a circuit goes behind those that wait for it, and moves no other.
pub proof fn law_messages_queue_up(p: PeerConn, after: PeerConn, cid: u32, msg: CircuitCellMsg, other: u32)
    requires
        p.wf(),
        other != cid,
        exists|x: &mut PeerConn|
            *x == p && *final(x) == after && #[trigger] call_ensures(PeerConn::send_circuit_msg, (x, cid, msg), ()),
    ensures
        after.queues@.contains_key(cid),
        after.queues@[cid].last() == msg,
        p.queues@.contains_key(cid) ==> after.queues@[cid].drop_last() == p.queues@[cid],
        !p.queues@.contains_key(cid) ==> after.queues@[cid].len() == 1,
        after.queues@.contains_key(other) == p.queues@.contains_key(other),
        p.queues@.contains_key(other) ==> after.queues@[other] == p.queues@[other],
{
}

} // verus!
