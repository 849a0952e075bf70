//! The inbound-packet mailbox and per-session lifecycle processing.
//!
//! Connection workers push decoded packets tagged with their origin session;
//! once per tick the demultiplexer drains packets of a specific kind. One
//! bucket exists per packet kind; a drain takes the whole backing storage of
//! its bucket in one swap and leaves every other bucket untouched.

use vstd::prelude::*;

verus! {

use vstd::pervasive::VecAdditionalExecFns;

use crate::entity::{Entity, EntityDeleteEvent, EntityId};
use crate::packets::{Packet, PacketKind, PACKET_KIND_COUNT};
use crate::position::Position;

/// A queued inbound packet with the session it came from.
pub type InboundEntry = (Entity, Packet);

/// The mathematical effect of routing one packet into a mailbox: the bucket
/// of the packet's kind grows by one entry at its end.
pub open spec fn spec_push(
    q: Seq<Seq<InboundEntry>>,
    entity: Entity,
    packet: Packet,
) -> Seq<Seq<InboundEntry>>
    recommends
        0 <= packet.spec_ordinal() < q.len(),
{
    q.update(packet.spec_ordinal(), q[packet.spec_ordinal()].push((entity, packet)))
}

/// The effect of routing a whole sequence of tagged packets, first to last.
pub open spec fn spec_push_all(
    q: Seq<Seq<InboundEntry>>,
    entries: Seq<InboundEntry>,
) -> Seq<Seq<InboundEntry>>
    decreases entries.len(),
{
    if entries.len() == 0 {
        q
    } else {
        spec_push(spec_push_all(q, entries.drop_last()), entries.last().0, entries.last().1)
    }
}

/// The packet queue. Systems poll it for received packets of a given kind;
/// connection workers fill it. The process shares one queue across workers
/// by giving each bucket its own lock; every function here is the
/// single-bucket-owner view of that structure.
pub struct PacketQueue {
    queue: Vec<Vec<InboundEntry>>,
}

impl View for PacketQueue {
    type V = Seq<Seq<InboundEntry>>;

    /// One sequence of (origin, packet) entries per packet kind, indexed by
    /// the kind's ordinal, each in arrival order.
    closed spec fn view(&self) -> Seq<Seq<InboundEntry>> {
        Seq::new(self.queue@.len(), |i: int| self.queue@[i]@)
    }
}

impl PacketQueue {
    /// One bucket per packet kind, and every entry sits in the bucket of its
    /// packet's kind.
    pub open spec fn wf(self) -> bool {
        &&& self@.len() == PACKET_KIND_COUNT
        &&& forall|k: int, i: int|
            0 <= k < self@.len() && 0 <= i < self@[k].len()
                ==> (#[trigger] self@[k][i]).1.spec_ordinal() == k
    }

    /// Creates a new, empty `PacketQueue`.
    pub fn new() -> (q: PacketQueue)
        ensures
            q.wf(),
            forall|k: int| 0 <= k < PACKET_KIND_COUNT
                ==> #[trigger] q@[k] == Seq::<InboundEntry>::empty(),
    {
        let mut queue: Vec<Vec<InboundEntry>> = Vec::new();
        while queue.len() < PACKET_KIND_COUNT
            invariant
                queue@.len() <= PACKET_KIND_COUNT,
                forall|k: int| 0 <= k < queue@.len()
                    ==> #[trigger] queue@[k]@ == Seq::<InboundEntry>::empty(),
            decreases PACKET_KIND_COUNT - queue.len(),
        {
            queue.push(Vec::new());
        }
        PacketQueue { queue }
    }

    /// Adds a packet to the queue, at the end of its kind's bucket.
    pub fn push(&mut self, packet: Packet, entity: Entity)
        requires
            old(self).wf(),
        ensures
            final(self).wf(),
            final(self)@ == spec_push(old(self)@, entity, packet),
    {
        let ordinal = packet.kind().ordinal();
        let mut bucket: Vec<InboundEntry> = Vec::new();
        self.queue.set_and_swap(ordinal, &mut bucket);
        bucket.push((entity, packet));
        self.queue.set_and_swap(ordinal, &mut bucket);
        proof {
            assert(final(self)@ =~= spec_push(old(self)@, entity, packet));
        }
    }

    /// Takes every packet of the given kind received since the last drain of
    /// that kind, in arrival order, and empties that bucket; every other
    /// bucket is untouched. The whole backing storage changes hands in one
    /// swap, so a caller holding only this bucket's lock blocks nobody else.
    pub fn received(&mut self, kind: PacketKind) -> (drained: Vec<InboundEntry>)
        requires
            old(self).wf(),
        ensures
            final(self).wf(),
            drained@ == old(self)@[kind.spec_ordinal()],
            final(self)@ == old(self)@.update(
                kind.spec_ordinal(),
                Seq::<InboundEntry>::empty(),
            ),
            forall|i: int| 0 <= i < drained@.len()
                ==> (#[trigger] drained@[i]).1.spec_kind() == kind,
    {
        let ordinal = kind.ordinal();
        let mut bucket: Vec<InboundEntry> = Vec::new();
        self.queue.set_and_swap(ordinal, &mut bucket);
        proof {
            assert(final(self)@ =~= old(self)@.update(
                kind.spec_ordinal(),
                Seq::<InboundEntry>::empty(),
            ));
            assert(bucket@ == old(self)@[kind.spec_ordinal()]);
            assert forall|i: int| 0 <= i < bucket@.len()
                implies (#[trigger] bucket@[i]).1.spec_kind() == kind by {
                assert(old(self)@[kind.spec_ordinal()][i].1.spec_ordinal()
                    == kind.spec_ordinal());
                lemma_ordinal_injective(bucket@[i].1.spec_kind(), kind);
            }
        }
        bucket
    }
}

impl Default for PacketQueue {
    /// Same as `PacketQueue::new`.
    fn default() -> (q: PacketQueue)
        ensures
            q.wf(),
            forall|k: int| 0 <= k < PACKET_KIND_COUNT
                ==> #[trigger] q@[k] == Seq::<InboundEntry>::empty(),
    {
        PacketQueue::new()
    }
}

/// Messages exchanged between the server and a session's connection worker.
/// The server receives only the two lifecycle variants; `SendPacket` travels
/// the other way.
pub enum ServerToWorkerMessage {
    /// Server instructs the worker to put a packet on the wire.
    SendPacket(Packet),
    /// Worker reports that the connection is gone.
    NotifyDisconnect,
    /// Worker hands over a decoded inbound packet.
    NotifyPacketReceived(Packet),
}

impl ServerToWorkerMessage {
    /// A message a worker may hand the server.
    pub open spec fn is_lifecycle(self) -> bool {
        match self {
            ServerToWorkerMessage::SendPacket(_) => false,
            ServerToWorkerMessage::NotifyDisconnect => true,
            ServerToWorkerMessage::NotifyPacketReceived(_) => true,
        }
    }
}

/// How many disconnect notifications a message sequence holds.
pub open spec fn disconnect_count(ms: Seq<ServerToWorkerMessage>) -> int
    decreases ms.len(),
{
    if ms.len() == 0 {
        0
    } else {
        disconnect_count(ms.drop_last()) + match ms.last() {
            ServerToWorkerMessage::NotifyDisconnect => 1int,
            _ => 0int,
        }
    }
}

/// The inbox entries a session's drained messages give rise to, in arrival
/// order: one `(origin, packet)` pair per packet notification.
pub open spec fn received_entries(
    entity: Entity,
    ms: Seq<ServerToWorkerMessage>,
) -> Seq<InboundEntry>
    decreases ms.len(),
{
    if ms.len() == 0 {
        Seq::empty()
    } else {
        received_entries(entity, ms.drop_last()) + match ms.last() {
            ServerToWorkerMessage::NotifyPacketReceived(p) => seq![(entity, p)],
            _ => Seq::empty(),
        }
    }
}

/// Processes the lifecycle messages one session's worker delivered this
/// tick, in order: every received packet goes into the queue tagged with the
/// session, and a disconnect yields the entity-delete event carrying the
/// session's snapshot. A second disconnect for the same session would be a
/// double delete — a broken invariant elsewhere — and is excluded here; the
/// caller fails fast on it instead.
pub fn handle_session_messages(
    entity: Entity,
    position: Position,
    id: EntityId,
    uuid: uuid::Uuid,
    messages: Vec<ServerToWorkerMessage>,
    queue: &mut PacketQueue,
) -> (delete: Option<EntityDeleteEvent>)
    requires
        old(queue).wf(),
        forall|i: int| 0 <= i < messages@.len()
            ==> (#[trigger] messages@[i]).is_lifecycle(),
        disconnect_count(messages@) <= 1,
    ensures
        final(queue).wf(),
        final(queue)@ == spec_push_all(old(queue)@, received_entries(entity, messages@)),
        delete.is_some() <==> disconnect_count(messages@) == 1,
        delete matches Some(ev) ==> {
            &&& ev.entity == entity
            &&& ev.position == Some(position)
            &&& ev.id == id
            &&& ev.uuid == uuid
        },
{
    let ghost all = messages@;
    let mut msgs = messages;
    let mut delete: Option<EntityDeleteEvent> = None;
    let ghost mut i: int = 0;
    proof {
        assert(all.take(0) =~= Seq::<ServerToWorkerMessage>::empty());
    }
    while msgs.len() > 0
        invariant
            0 <= i <= all.len(),
            msgs@ == all.skip(i),
            queue.wf(),
            queue@ == spec_push_all(old(queue)@, received_entries(entity, all.take(i))),
            delete.is_some() <==> disconnect_count(all.take(i)) >= 1,
            disconnect_count(all) <= 1,
            forall|j: int| 0 <= j < all.len() ==> (#[trigger] all[j]).is_lifecycle(),
            delete matches Some(ev) ==> {
                &&& ev.entity == entity
                &&& ev.position == Some(position)
                &&& ev.id == id
                &&& ev.uuid == uuid
            },
        decreases msgs.len(),
    {
        let msg = msgs.remove(0);
        proof {
            assert(msg == all[i]);
            assert(msgs@ =~= all.skip(i + 1));
            assert(all.take(i + 1).drop_last() =~= all.take(i));
            assert(all.take(i + 1).last() == all[i]);
            assert(disconnect_count(all.take(i + 1)) == disconnect_count(all.take(i))
                + match all[i] {
                    ServerToWorkerMessage::NotifyDisconnect => 1int,
                    _ => 0int,
                });
            lemma_disconnect_count_monotonic(all, i);
            lemma_disconnect_count_monotonic(all, i + 1);
        }
        match msg {
            ServerToWorkerMessage::NotifyDisconnect => {
                delete = Some(EntityDeleteEvent {
                    entity,
                    position: Some(position),
                    id,
                    uuid,
                });
                proof {
                    assert(received_entries(entity, all.take(i + 1))
                        =~= received_entries(entity, all.take(i)));
                    assert(disconnect_count(all.take(i + 1))
                        == disconnect_count(all.take(i)) + 1);
                }
            }
            ServerToWorkerMessage::NotifyPacketReceived(packet) => {
                let ghost entries_before = received_entries(entity, all.take(i));
                queue.push(packet, entity);
                proof {
                    let entries_now = received_entries(entity, all.take(i + 1));
                    assert(entries_now =~= entries_before.push((entity, packet)));
                    assert(entries_now.drop_last() =~= entries_before);
                    assert(disconnect_count(all.take(i + 1))
                        == disconnect_count(all.take(i)));
                }
            }
            ServerToWorkerMessage::SendPacket(_) => {
                // A worker never hands the server its own outbound variant;
                // the precondition admits lifecycle messages only.
                proof {
                    assert(false);
                }
            }
        }
        proof {
            i = i + 1;
        }
    }
    proof {
        assert(all.take(i) =~= all);
    }
    delete
}

/// A prefix never holds more disconnects than the whole.
proof fn lemma_disconnect_count_monotonic(ms: Seq<ServerToWorkerMessage>, n: int)
    requires
        0 <= n <= ms.len(),
    ensures
        disconnect_count(ms.take(n)) <= disconnect_count(ms),
        disconnect_count(ms.take(n)) >= 0,
    decreases ms.len(),
{
    if ms.len() == 0 {
        assert(ms.take(n) =~= ms);
    } else if n == ms.len() {
        assert(ms.take(n) =~= ms);
        lemma_disconnect_count_monotonic(ms.drop_last(), ms.len() - 1);
        assert(ms.drop_last().take(ms.len() - 1) =~= ms.drop_last());
    } else {
        lemma_disconnect_count_monotonic(ms.drop_last(), n);
        assert(ms.drop_last().take(n) =~= ms.take(n));
    }
}

/// Two kinds with the same ordinal are the same kind.
pub proof fn lemma_ordinal_injective(k1: PacketKind, k2: PacketKind)
    requires
        k1.spec_ordinal() == k2.spec_ordinal(),
    ensures
        k1 == k2,
{
}

/// Pushing a packet touches no bucket but the one of its kind, and that one
/// only grows at its end: nothing leaks across packet kinds.
pub proof fn law_no_cross_type_leakage(q: Seq<Seq<InboundEntry>>, entity: Entity, packet: Packet)
    requires
        0 <= packet.spec_ordinal() < q.len(),
    ensures
        forall|k: int| 0 <= k < q.len() && k != packet.spec_ordinal()
            ==> #[trigger] spec_push(q, entity, packet)[k] == q[k],
        spec_push(q, entity, packet)[packet.spec_ordinal()]
            == q[packet.spec_ordinal()].push((entity, packet)),
{
}

/// First-in, first-out per kind: after pushing packets of kinds A, B, A in
/// that order, the A bucket holds the two A packets in push order and the B
/// bucket holds the one B packet; a drain returns a bucket whole, so the
/// drained batches come out exactly so.
pub proof fn law_fifo_per_type(
    q: Seq<Seq<InboundEntry>>,
    e1: Entity,
    a1: Packet,
    e2: Entity,
    b: Packet,
    e3: Entity,
    a2: Packet,
)
    requires
        0 <= a1.spec_ordinal() < q.len(),
        0 <= b.spec_ordinal() < q.len(),
        a2.spec_kind() == a1.spec_kind(),
        b.spec_kind() != a1.spec_kind(),
    ensures
        ({
            let q3 = spec_push(spec_push(spec_push(q, e1, a1), e2, b), e3, a2);
            &&& q3[a1.spec_ordinal()] == q[a1.spec_ordinal()].push((e1, a1)).push((e3, a2))
            &&& q3[b.spec_ordinal()] == q[b.spec_ordinal()].push((e2, b))
        }),
{
    if a1.spec_ordinal() == b.spec_ordinal() {
        lemma_ordinal_injective(a1.spec_kind(), b.spec_kind());
    }
}

/// The entries of one packet kind.
pub open spec fn is_kind(kind: PacketKind) -> spec_fn(InboundEntry) -> bool {
    |e: InboundEntry| e.1.spec_kind() == kind
}

/// Routing any sequence of tagged packets partitions them correctly: each
/// kind's bucket ends extended by exactly the entries of that kind, in push
/// order, so draining every kind once returns all pushed entries, each in
/// its own kind's batch.
pub proof fn law_pushes_partition_by_kind(
    q: Seq<Seq<InboundEntry>>,
    entries: Seq<InboundEntry>,
    kind: PacketKind,
)
    requires
        q.len() == PACKET_KIND_COUNT,
    ensures
        spec_push_all(q, entries)[kind.spec_ordinal()] == q[kind.spec_ordinal()]
            + entries.filter(is_kind(kind)),
        spec_push_all(q, entries).len() == q.len(),
    decreases entries.len(),
{
    reveal(Seq::filter);
    let ord = kind.spec_ordinal();
    if entries.len() == 0 {
        assert(q[ord] + entries.filter(is_kind(kind)) =~= q[ord]);
    } else {
        law_pushes_partition_by_kind(q, entries.drop_last(), kind);
        let e = entries.last();
        let rest = spec_push_all(q, entries.drop_last());
        assert(spec_push_all(q, entries) == spec_push(rest, e.0, e.1));
        assert(e == (e.0, e.1));
        assert(rest.len() == q.len());
        assert(0 <= e.1.spec_ordinal() < PACKET_KIND_COUNT);
        if e.1.spec_kind() == kind {
            assert(spec_push(rest, e.0, e.1)[ord] == rest[ord].push(e));
            assert(q[ord] + entries.filter(is_kind(kind))
                =~= (q[ord] + entries.drop_last().filter(is_kind(kind))).push(e));
        } else {
            if e.1.spec_ordinal() == ord {
                lemma_ordinal_injective(e.1.spec_kind(), kind);
            }
            assert(spec_push(rest, e.0, e.1)[ord] == rest[ord]);
            assert(q[ord] + entries.filter(is_kind(kind))
                =~= q[ord] + entries.drop_last().filter(is_kind(kind)));
        }
    }
}

/// Sequential shadow of concurrent production: however the producers'
/// pushes of one kind interleave into an order, routing them all leaves that
/// kind's bucket extended by exactly those entries, in that order — the next
/// drain returns each pushed packet exactly once — and every other bucket
/// unchanged.
pub proof fn law_drain_after_producers(
    q: Seq<Seq<InboundEntry>>,
    entries: Seq<InboundEntry>,
    kind: PacketKind,
)
    requires
        q.len() == PACKET_KIND_COUNT,
        forall|i: int| 0 <= i < entries.len()
            ==> (#[trigger] entries[i]).1.spec_kind() == kind,
    ensures
        spec_push_all(q, entries)[kind.spec_ordinal()] == q[kind.spec_ordinal()] + entries,
        forall|k: int| 0 <= k < q.len() && k != kind.spec_ordinal()
            ==> #[trigger] spec_push_all(q, entries)[k] == q[k],
        spec_push_all(q, entries).len() == q.len(),
    decreases entries.len(),
{
    if entries.len() == 0 {
        assert(q[kind.spec_ordinal()] + entries =~= q[kind.spec_ordinal()]);
    } else {
        law_drain_after_producers(q, entries.drop_last(), kind);
        assert(entries.last().1.spec_kind() == kind);
        assert(q[kind.spec_ordinal()] + entries.drop_last() + seq![entries.last()]
            =~= q[kind.spec_ordinal()] + entries);
        assert((q[kind.spec_ordinal()] + entries.drop_last()).push(entries.last())
            =~= q[kind.spec_ordinal()] + entries.drop_last() + seq![entries.last()]);
    }
}

} // verus!
