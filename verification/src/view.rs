//! Handling of a player's "view".
//!
//! When a session crosses a chunk boundary (or joins), some chunks leave its
//! view and others enter it. The functions here compute the view change,
//! drive hold/release accounting and asynchronous chunk requests, and
//! produce exactly the packets needed to converge the client: new chunks
//! (closest first), unload instructions, entity spawns and one batched
//! entity-destroy instruction.
//!
//! The scheduler collaborator dispatches events; each function here is the
//! per-event body it runs.

use vstd::prelude::*;

verus! {

use vstd::multiset::Multiset;

use crate::entity::{Entity, EntityFacts, EntitySendEvent, PacketCreatorFn, SpawnPacketCreator};
use crate::chunk_logic::{
    hold_chunk, release_chunk, ChunkHolderReleaseEvent, ChunkHolders,
};
use crate::packets::{create_chunk_data, Packet};
use crate::position::{abs_int, Chunk, ChunkPosition, ChunkSet, Position};

broadcast use vstd::seq_lib::lemma_seq_contains_after_push;

/// Largest supported view distance, in chunks.
pub const MAX_VIEW_DISTANCE: u8 = 32;

/// Whether `c` lies within view distance `d` of `center`: the square grid of
/// side `2*d + 1` centred on `center`, i.e. Chebyshev distance at most `d`.
pub open spec fn in_view(center: ChunkPosition, c: ChunkPosition, d: int) -> bool {
    &&& abs_int(c.x - center.x) <= d
    &&& abs_int(c.z - center.z) <= d
}

/// Chunk coordinates far enough from the numeric edge that a whole view
/// square around them exists.
pub open spec fn view_fits(center: ChunkPosition, d: int) -> bool {
    &&& i32::MIN + d <= center.x as int
    &&& center.x as int <= i32::MAX - d
    &&& i32::MIN + d <= center.z as int
    &&& center.z as int <= i32::MAX - d
}

/// Event triggered when a player's view is updated, i.e. when they cross
/// into a new chunk or when they join.
pub struct ViewUpdateEvent {
    /// The player whose view was updated.
    pub player: Entity,
    /// The new chunk.
    pub new_chunk: ChunkPosition,
    /// The old chunk, or `None` if there was no old chunk (i.e. this player
    /// just joined).
    pub old_chunk: Option<ChunkPosition>,
    /// Old visible chunks.
    pub visible_old: ChunkSet,
    /// New visible chunks.
    pub visible_new: ChunkSet,
}

impl ViewUpdateEvent {
    pub open spec fn wf(self) -> bool {
        &&& self.visible_old.wf()
        &&& self.visible_new.wf()
    }
}

/// Event triggered when a chunk is sent to a player.
#[derive(Clone, Copy, Debug, PartialEq, Eq, Structural)]
pub struct ChunkSendEvent {
    pub chunk: ChunkPosition,
    pub player: Entity,
}

/// Finds all chunks within the view distance of a given chunk: exactly the
/// `(2d + 1) * (2d + 1)` distinct chunks whose Chebyshev distance from
/// `position` is at most the view distance.
pub fn chunks_within_view_distance(view_distance: u8, position: ChunkPosition) -> (s: ChunkSet)
    requires
        view_distance <= MAX_VIEW_DISTANCE,
        view_fits(position, view_distance as int),
    ensures
        s.wf(),
        forall|c: ChunkPosition| #[trigger] s@.contains(c)
            <==> in_view(position, c, view_distance as int),
        s@.len() == (2 * view_distance as int + 1) * (2 * view_distance as int + 1),
{
    let d: i32 = view_distance as i32;
    let mut items: Vec<ChunkPosition> = Vec::new();
    let mut dx: i32 = -d;
    proof {
        assert((dx + d) * (2 * d + 1) == 0) by (nonlinear_arith)
            requires
                dx == -d,
        ;
    }
    while dx <= d
        invariant
            0 <= d <= MAX_VIEW_DISTANCE,
            view_fits(position, d as int),
            -d <= dx <= d + 1,
            items@.no_duplicates(),
            items@.len() == (dx + d) * (2 * d + 1),
            forall|c: ChunkPosition| #[trigger] items@.contains(c)
                <==> (-d <= c.x - position.x < dx && abs_int(c.z - position.z) <= d),
        decreases d + 1 - dx,
    {
        let mut dz: i32 = -d;
        while dz <= d
            invariant
                0 <= d <= MAX_VIEW_DISTANCE,
                view_fits(position, d as int),
                -d <= dx <= d,
                -d <= dz <= d + 1,
                items@.no_duplicates(),
                items@.len() == (dx + d) * (2 * d + 1) + (dz + d),
                forall|c: ChunkPosition| #[trigger] items@.contains(c)
                    <==> ((-d <= c.x - position.x < dx && abs_int(c.z - position.z) <= d)
                        || (c.x - position.x == dx && -d <= c.z - position.z < dz)),
            decreases d + 1 - dz,
        {
            let c = ChunkPosition { x: position.x + dx, z: position.z + dz };
            proof {
                assert(c.x - position.x == dx && c.z - position.z == dz);
                assert(!items@.contains(c));
            }
            items.push(c);
            dz += 1;
        }
        proof {
            assert((dx + d) * (2 * d + 1) + (2 * d + 1) == (dx + 1 + d) * (2 * d + 1))
                by (nonlinear_arith);
        }
        dx += 1;
    }
    proof {
        assert(items@.len() == (2 * d + 1) * (2 * d + 1));
        assert forall|c: ChunkPosition| #[trigger] items@.contains(c)
            implies in_view(position, c, view_distance as int) by {}
        assert forall|c: ChunkPosition| in_view(position, c, view_distance as int)
            implies #[trigger] items@.contains(c) by {
            assert(-d <= c.x - position.x < dx);
        }
    }
    ChunkSet::from_distinct_vec(items)
}

/// Decides the view change for one entity move: only players have a view,
/// and a view update fires exactly when the chunk coordinate — not the raw
/// position — changed. The event carries the full old and new view squares;
/// consumers take the differences themselves.
pub fn view_update(
    player: Entity,
    is_player: bool,
    position: Position,
    prev_position: Position,
    view_distance: u8,
) -> (ev: Option<ViewUpdateEvent>)
    requires
        position.wf(),
        prev_position.wf(),
        view_distance <= MAX_VIEW_DISTANCE,
    ensures
        ev.is_some() <==> (is_player
            && position.spec_chunk_pos() != prev_position.spec_chunk_pos()),
        ev matches Some(e) ==> {
            &&& e.wf()
            &&& e.player == player
            &&& e.new_chunk == position.spec_chunk_pos()
            &&& e.old_chunk == Some(prev_position.spec_chunk_pos())
            &&& forall|c: ChunkPosition| #[trigger] e.visible_new@.contains(c)
                <==> in_view(position.spec_chunk_pos(), c, view_distance as int)
            &&& forall|c: ChunkPosition| #[trigger] e.visible_old@.contains(c)
                <==> in_view(prev_position.spec_chunk_pos(), c, view_distance as int)
            &&& e.visible_new@.len()
                == (2 * view_distance as int + 1) * (2 * view_distance as int + 1)
        },
{
    if !is_player {
        return None;
    }
    let chunk = position.chunk_pos();
    let prev_chunk = prev_position.chunk_pos();
    if chunk == prev_chunk {
        return None;
    }
    let visible_new = chunks_within_view_distance(view_distance, chunk);
    let visible_old = chunks_within_view_distance(view_distance, prev_chunk);
    Some(ViewUpdateEvent {
        player,
        new_chunk: chunk,
        old_chunk: Some(prev_chunk),
        visible_old,
        visible_new,
    })
}

/// Builds the view update for a session that just became a player: no chunk
/// was previously visible, so the old set is empty and the event always
/// fires.
pub fn view_update_on_join(player: Entity, position: Position, view_distance: u8) -> (ev:
    ViewUpdateEvent)
    requires
        position.wf(),
        view_distance <= MAX_VIEW_DISTANCE,
    ensures
        ev.wf(),
        ev.player == player,
        ev.new_chunk == position.spec_chunk_pos(),
        ev.old_chunk is None,
        ev.visible_old@ == Seq::<ChunkPosition>::empty(),
        forall|c: ChunkPosition| #[trigger] ev.visible_new@.contains(c)
            <==> in_view(position.spec_chunk_pos(), c, view_distance as int),
        ev.visible_new@.len()
            == (2 * view_distance as int + 1) * (2 * view_distance as int + 1),
{
    let chunk = position.chunk_pos();
    let visible_new = chunks_within_view_distance(view_distance, chunk);
    ViewUpdateEvent {
        player,
        new_chunk: chunk,
        old_chunk: None,
        visible_old: ChunkSet::new(),
        visible_new,
    }
}

/// The sessions registered for chunk `c` in a pending list, in registration
/// order.
pub open spec fn pending_sessions(s: Seq<(ChunkPosition, Entity)>, c: ChunkPosition) -> Seq<
    Entity,
>
    decreases s.len(),
{
    if s.len() == 0 {
        Seq::empty()
    } else {
        pending_sessions(s.drop_last(), c) + if s.last().0 == c {
            seq![s.last().1]
        } else {
            Seq::empty()
        }
    }
}

/// Registering one session extends exactly its chunk's pending queue.
pub proof fn lemma_pending_push(
    s: Seq<(ChunkPosition, Entity)>,
    x: (ChunkPosition, Entity),
    c: ChunkPosition,
)
    ensures
        pending_sessions(s.push(x), c) == pending_sessions(s, c) + if x.0 == c {
            seq![x.1]
        } else {
            Seq::<Entity>::empty()
        },
{
    assert(s.push(x).drop_last() =~= s);
}

/// A chunk has pending sessions exactly when some pair names it.
proof fn lemma_pending_empty_iff(s: Seq<(ChunkPosition, Entity)>, c: ChunkPosition)
    ensures
        pending_sessions(s, c).len() == 0 <==> forall|i: int|
            0 <= i < s.len() ==> (#[trigger] s[i]).0 != c,
    decreases s.len(),
{
    if s.len() > 0 {
        lemma_pending_empty_iff(s.drop_last(), c);
        if s.last().0 == c {
            assert(s[s.len() - 1].0 == c);
        } else {
            assert(forall|i: int| 0 <= i < s.len() - 1
                ==> (#[trigger] s[i]) == s.drop_last()[i]);
        }
    }
}

/// Mapping from chunks to the sessions awaiting that chunk's data. A chunk
/// appears only while a load has been requested and not yet delivered; the
/// first registration for a chunk is the one that issues the load request.
pub struct ChunksToSend {
    pending: Vec<(ChunkPosition, Entity)>,
}

impl View for ChunksToSend {
    type V = Seq<(ChunkPosition, Entity)>;

    closed spec fn view(&self) -> Seq<(ChunkPosition, Entity)> {
        self.pending@
    }
}

impl ChunksToSend {
    /// The sessions awaiting `c`, in registration order.
    pub open spec fn pending_for(self, c: ChunkPosition) -> Seq<Entity> {
        pending_sessions(self@, c)
    }

    pub fn new() -> (t: ChunksToSend)
        ensures
            t@ == Seq::<(ChunkPosition, Entity)>::empty(),
    {
        ChunksToSend { pending: Vec::new() }
    }

    /// Registers `player` as awaiting `chunk`. Returns whether this was the
    /// chunk's first registration — the caller then issues exactly one load
    /// request.
    pub fn register(&mut self, chunk: ChunkPosition, player: Entity) -> (first: bool)
        ensures
            final(self)@ == old(self)@.push((chunk, player)),
            final(self).pending_for(chunk) == old(self).pending_for(chunk).push(player),
            forall|c: ChunkPosition| c != chunk
                ==> #[trigger] final(self).pending_for(c) == old(self).pending_for(c),
            first <==> old(self).pending_for(chunk).len() == 0,
    {
        proof {
            lemma_pending_empty_iff(self@, chunk);
        }
        let mut contains = false;
        let mut i: usize = 0;
        while i < self.pending.len()
            invariant
                i <= self.pending.len(),
                contains <==> exists|j: int|
                    0 <= j < i && (#[trigger] self.pending@[j]).0 == chunk,
            decreases self.pending.len() - i,
        {
            if self.pending[i].0 == chunk {
                contains = true;
            }
            i += 1;
        }
        self.pending.push((chunk, player));
        proof {
            assert forall|c: ChunkPosition| #![auto] true implies pending_sessions(
                self@,
                c,
            ) == pending_sessions(old(self)@, c) + if c == chunk {
                seq![player]
            } else {
                Seq::<Entity>::empty()
            } by {
                lemma_pending_push(old(self)@, (chunk, player), c);
            }
            assert(pending_sessions(self@, chunk)
                =~= pending_sessions(old(self)@, chunk).push(player));
            assert forall|c: ChunkPosition| c != chunk implies #[trigger] pending_sessions(
                self@,
                c,
            ) == pending_sessions(old(self)@, c) by {
                assert(pending_sessions(self@, c)
                    =~= pending_sessions(old(self)@, c) + Seq::<Entity>::empty());
                assert(pending_sessions(old(self)@, c) + Seq::<Entity>::empty()
                    =~= pending_sessions(old(self)@, c));
            }
        }
        !contains
    }

    /// How many sessions await `chunk`.
    pub fn pending_count(&self, chunk: ChunkPosition) -> (n: usize)
        ensures
            n == self.pending_for(chunk).len(),
    {
        let ghost all = self.pending@;
        let mut n: usize = 0;
        let mut i: usize = 0;
        proof {
            assert(all.take(0) =~= Seq::<(ChunkPosition, Entity)>::empty());
        }
        while i < self.pending.len()
            invariant
                i <= self.pending.len(),
                self.pending@ == all,
                n == pending_sessions(all.take(i as int), chunk).len(),
                n <= i,
            decreases self.pending.len() - i,
        {
            proof {
                assert(all.take(i + 1).drop_last() =~= all.take(i as int));
                assert(all.take(i + 1).last() == all[i as int]);
            }
            if self.pending[i].0 == chunk {
                n += 1;
            }
            i += 1;
        }
        proof {
            assert(all.take(i as int) =~= all);
        }
        n
    }

    /// Takes every session awaiting `chunk`, in registration order, clearing
    /// the chunk's entry; every other chunk's queue is untouched.
    pub fn take_pending(&mut self, chunk: ChunkPosition) -> (sessions: Vec<Entity>)
        ensures
            sessions@ == old(self).pending_for(chunk),
            final(self).pending_for(chunk) == Seq::<Entity>::empty(),
            forall|c: ChunkPosition| c != chunk
                ==> #[trigger] final(self).pending_for(c) == old(self).pending_for(c),
    {
        let ghost all = self.pending@;
        let mut kept: Vec<(ChunkPosition, Entity)> = Vec::new();
        let mut taken: Vec<Entity> = Vec::new();
        let mut i: usize = 0;
        proof {
            assert(all.take(0) =~= Seq::<(ChunkPosition, Entity)>::empty());
        }
        while i < self.pending.len()
            invariant
                i <= self.pending.len(),
                self.pending@ == all,
                taken@ == pending_sessions(all.take(i as int), chunk),
                pending_sessions(kept@, chunk).len() == 0,
                forall|c: ChunkPosition| c != chunk
                    ==> #[trigger] pending_sessions(kept@, c)
                        == pending_sessions(all.take(i as int), c),
            decreases self.pending.len() - i,
        {
            let x = self.pending[i];
            proof {
                assert(all.take(i + 1).drop_last() =~= all.take(i as int));
                assert(all.take(i + 1).last() == all[i as int]);
                assert forall|c: ChunkPosition| #![auto] true implies pending_sessions(
                    all.take(i + 1),
                    c,
                ) == pending_sessions(all.take(i as int), c) + if x.0 == c {
                    seq![x.1]
                } else {
                    Seq::<Entity>::empty()
                } by {}
            }
            if x.0 == chunk {
                taken.push(x.1);
                proof {
                    assert(taken@ =~= pending_sessions(all.take(i + 1), chunk));
                    assert forall|c: ChunkPosition| c != chunk
                        implies #[trigger] pending_sessions(kept@, c)
                            == pending_sessions(all.take(i + 1), c) by {
                        assert(pending_sessions(all.take(i + 1), c)
                            =~= pending_sessions(all.take(i as int), c));
                    }
                }
            } else {
                let ghost kept_old = kept@;
                kept.push(x);
                proof {
                    assert(kept@ == kept_old.push(x));
                    assert forall|c: ChunkPosition| #![auto] true implies pending_sessions(
                        kept@,
                        c,
                    ) == pending_sessions(kept_old, c) + if x.0 == c {
                        seq![x.1]
                    } else {
                        Seq::<Entity>::empty()
                    } by {
                        lemma_pending_push(kept_old, x, c);
                    }
                    assert(pending_sessions(kept@, chunk).len() == 0);
                    assert forall|c: ChunkPosition| c != chunk
                        implies #[trigger] pending_sessions(kept@, c)
                            == pending_sessions(all.take(i + 1), c) by {
                        if x.0 == c {
                            assert(pending_sessions(kept@, c)
                                =~= pending_sessions(all.take(i + 1), c));
                        } else {
                            assert(pending_sessions(kept@, c)
                                =~= pending_sessions(kept_old, c));
                            assert(pending_sessions(all.take(i + 1), c)
                                =~= pending_sessions(all.take(i as int), c));
                        }
                    }
                    assert(taken@ =~= pending_sessions(all.take(i + 1), chunk));
                }
            }
            i += 1;
        }
        proof {
            assert(all.take(i as int) =~= all);
        }
        self.pending = kept;
        taken
    }
}

/// Orders chunks by ascending Manhattan distance from `center`, so that the
/// nearest terrain is delivered first. The result holds exactly the members
/// of `chunks`.
pub fn sort_chunks_by_distance(chunks: &ChunkSet, center: ChunkPosition) -> (r: Vec<
    ChunkPosition,
>)
    requires
        chunks.wf(),
    ensures
        r@.to_multiset() == chunks@.to_multiset(),
        r@.no_duplicates(),
        forall|c: ChunkPosition| #[trigger] r@.contains(c) <==> chunks@.contains(c),
        forall|i: int, j: int| 0 <= i <= j < r@.len()
            ==> r@[i].spec_manhattan_distance(center)
                <= r@[j].spec_manhattan_distance(center),
{
    broadcast use vstd::seq_lib::group_to_multiset_ensures;

    let mut rest = chunks.to_vec();
    let mut out: Vec<ChunkPosition> = Vec::new();
    proof {
        assert(out@.to_multiset().add(rest@.to_multiset()) =~= chunks@.to_multiset());
    }
    while rest.len() > 0
        invariant
            out@.to_multiset().add(rest@.to_multiset()) == chunks@.to_multiset(),
            forall|i: int, j: int| 0 <= i <= j < out@.len()
                ==> out@[i].spec_manhattan_distance(center)
                    <= out@[j].spec_manhattan_distance(center),
            forall|i: int, j: int|
                #![trigger out@[i], rest@[j]]
                0 <= i < out@.len() && 0 <= j < rest@.len()
                    ==> out@[i].spec_manhattan_distance(center)
                        <= rest@[j].spec_manhattan_distance(center),
        decreases rest.len(),
    {
        let mut best: usize = 0;
        let mut best_distance: i64 = rest[0].manhattan_distance(center);
        let mut k: usize = 1;
        while k < rest.len()
            invariant
                best < k <= rest.len() || (best == 0 && k <= rest.len()),
                best < rest@.len(),
                k <= rest@.len(),
                best_distance == rest@[best as int].spec_manhattan_distance(center),
                forall|j: int| 0 <= j < k
                    ==> best_distance
                        <= (#[trigger] rest@[j]).spec_manhattan_distance(center),
            decreases rest.len() - k,
        {
            let dist = rest[k].manhattan_distance(center);
            if dist < best_distance {
                best = k;
                best_distance = dist;
            }
            k += 1;
        }
        let ghost rest_old = rest@;
        let ghost out_old = out@;
        let x = rest.remove(best);
        out.push(x);
        proof {
            rest_old.to_multiset_ensures();
            out_old.to_multiset_ensures();
            assert(rest@ == rest_old.remove(best as int));
            assert(rest_old.remove(best as int).to_multiset()
                =~= rest_old.to_multiset().remove(x));
            assert(out@ == out_old.push(x));
            assert(out_old.push(x).to_multiset() =~= out_old.to_multiset().insert(x));
            assert(rest@.to_multiset() == rest_old.to_multiset().remove(x));
            assert(out@.to_multiset() == out_old.to_multiset().insert(x));
            assert(out@.to_multiset().add(rest@.to_multiset())
                =~= out_old.to_multiset().add(rest_old.to_multiset()));
            assert forall|j: int| 0 <= j < rest@.len()
                implies x.spec_manhattan_distance(center)
                    <= (#[trigger] rest@[j]).spec_manhattan_distance(center) by {
                if j < best {
                    assert(rest@[j] == rest_old[j]);
                } else {
                    assert(rest@[j] == rest_old[j + 1]);
                }
            }
        }
    }
    proof {
        assert(rest@.to_multiset() =~= Multiset::<ChunkPosition>::empty());
        assert(out@.to_multiset() =~= chunks@.to_multiset());
        chunks@.lemma_multiset_has_no_duplicates();
        out@.lemma_multiset_has_no_duplicates_conv();
        assert forall|c: ChunkPosition| #[trigger] out@.contains(c)
            <==> chunks@.contains(c) by {
            assert(out@.contains(c) <==> out@.to_multiset().count(c) > 0);
            assert(chunks@.contains(c) <==> chunks@.to_multiset().count(c) > 0);
        }
    }
    out
}

/// What sending one chunk to one session amounts to, beyond the hold it
/// acquires: either the chunk was resident and a data packet goes out now,
/// or the session joins the chunk's pending queue — issuing the one load
/// request if the queue was empty.
pub struct ChunkSendAction {
    /// The chunk-data packet to send now, if the chunk was resident.
    pub packet: Option<Packet>,
    /// The matching chunk-sent event.
    pub send_event: Option<ChunkSendEvent>,
    /// Whether to issue the asynchronous load request for the chunk.
    pub load_request: bool,
}

/// Sends one newly visible chunk to a session: first acquires the hold that
/// keeps the chunk from being evicted, then either produces the data packet
/// (chunk resident) or registers the session as awaiting the chunk,
/// requesting the load exactly when no one was awaiting it yet.
pub fn send_chunk_to_player(
    player: Entity,
    holder: &mut ChunkSet,
    holders: &mut ChunkHolders,
    chunk: ChunkPosition,
    resident: &ChunkSet,
    chunks_to_send: &mut ChunksToSend,
) -> (action: ChunkSendAction)
    requires
        old(holder).wf(),
    ensures
        final(holder).wf(),
        forall|d: ChunkPosition| #[trigger] final(holder)@.contains(d)
            <==> (old(holder)@.contains(d) || d == chunk),
        final(holders)@ == old(holders)@.push((chunk, player)),
        forall|c: ChunkPosition, p: Entity|
            #![trigger final(holders).count_by(c, p)]
            final(holders).count_by(c, p) == old(holders).count_by(c, p) + if (c, p) == (
                chunk,
                player,
            ) {
                1int
            } else {
                0int
            },
        forall|c: ChunkPosition| #[trigger] final(holders).count(c) == old(holders).count(c)
            + if c == chunk {
                1int
            } else {
                0int
            },
        resident@.contains(chunk) ==> {
            &&& action.packet == Some(Packet::ChunkData { chunk: Chunk { position: chunk } })
            &&& action.send_event == Some(ChunkSendEvent { chunk, player })
            &&& !action.load_request
            &&& final(chunks_to_send)@ == old(chunks_to_send)@
        },
        !resident@.contains(chunk) ==> {
            &&& action.packet is None
            &&& action.send_event is None
            &&& final(chunks_to_send).pending_for(chunk)
                == old(chunks_to_send).pending_for(chunk).push(player)
            &&& (action.load_request
                <==> old(chunks_to_send).pending_for(chunk).len() == 0)
        },
        forall|c: ChunkPosition| c != chunk
            ==> #[trigger] final(chunks_to_send).pending_for(c)
                == old(chunks_to_send).pending_for(c),
{
    // Ensure that the chunk isn't unloaded while the player has it loaded.
    hold_chunk(player, holder, holders, chunk);

    // If the chunk is already loaded, send it. Otherwise, queue it for
    // loading.
    if resident.contains(chunk) {
        let data = Chunk { position: chunk };
        ChunkSendAction {
            packet: Some(create_chunk_data(&data)),
            send_event: Some(ChunkSendEvent { chunk, player }),
            load_request: false,
        }
    } else {
        let first = chunks_to_send.register(chunk, player);
        ChunkSendAction { packet: None, send_event: None, load_request: first }
    }
}

/// Unloads a chunk that left a session's view: releases the session's hold —
/// the storage collaborator may evict once nobody holds the chunk — and
/// produces the unload instruction for the client.
pub fn unload_chunk_for_player(
    player: Entity,
    holder: &mut ChunkSet,
    holders: &mut ChunkHolders,
    chunk: ChunkPosition,
) -> (r: (Packet, ChunkHolderReleaseEvent))
    requires
        old(holder).wf(),
        old(holders).count_by(chunk, player) >= 1,
    ensures
        r.0 == (Packet::UnloadChunk { chunk_x: chunk.x, chunk_z: chunk.z }),
        r.1 == (ChunkHolderReleaseEvent { chunk, player }),
        final(holder).wf(),
        forall|d: ChunkPosition| #[trigger] final(holder)@.contains(d)
            <==> (old(holder)@.contains(d) && d != chunk),
        final(holders).count_by(chunk, player) == old(holders).count_by(chunk, player) - 1,
        final(holders).count(chunk) == old(holders).count(chunk) - 1,
        forall|c: ChunkPosition, p: Entity| (c, p) != (chunk, player)
            ==> #[trigger] final(holders).count_by(c, p) == old(holders).count_by(c, p),
        forall|c: ChunkPosition| c != chunk
            ==> #[trigger] final(holders).count(c) == old(holders).count(c),
{
    // Release hold on chunk so it can be unloaded on the server.
    let ev = release_chunk(player, holder, holders, chunk);

    // Send the unload instruction to the client.
    (Packet::UnloadChunk { chunk_x: chunk.x, chunk_z: chunk.z }, ev)
}

/// Whether some pair in `s` names chunk `c`.
pub open spec fn has_chunk<T>(s: Seq<(ChunkPosition, T)>, c: ChunkPosition) -> bool {
    exists|k: int| 0 <= k < s.len() && (#[trigger] s[k]).0 == c
}

/// A chunk that enters the session's view with this event.
pub open spec fn newly_visible(event: ViewUpdateEvent, c: ChunkPosition) -> bool {
    event.visible_new@.contains(c) && !event.visible_old@.contains(c)
}

/// A chunk that leaves the session's view with this event.
pub open spec fn newly_hidden(event: ViewUpdateEvent, c: ChunkPosition) -> bool {
    event.visible_old@.contains(c) && !event.visible_new@.contains(c)
}

/// Everything the chunk side of one view update tells the caller to do:
/// data packets for resident chunks entering the view (closest first, with
/// their chunk-sent events), unload instructions for chunks leaving it (with
/// their hold-release events), and the load requests to issue.
pub struct ChunkViewActions {
    /// Resident newly visible chunks with their data packets, in send order.
    pub chunk_data: Vec<(ChunkPosition, Packet)>,
    /// One chunk-sent event per data packet, aligned with `chunk_data`.
    pub send_events: Vec<ChunkSendEvent>,
    /// Chunks leaving the view with their unload packets.
    pub unload: Vec<(ChunkPosition, Packet)>,
    /// One hold-release event per unloaded chunk, aligned with `unload`.
    pub release_events: Vec<ChunkHolderReleaseEvent>,
    /// Chunks to request asynchronously from storage, at most once each.
    pub load_requests: Vec<ChunkPosition>,
}

/// Applies one view update to the chunk state: holds and sends (or queues)
/// every chunk entering the view, nearest first, and releases and unloads
/// every chunk leaving it. Afterwards the session holds exactly its new view
/// square, and no chunk of the new view is evictable.
pub fn view_handle_chunks(
    event: &ViewUpdateEvent,
    resident: &ChunkSet,
    holder: &mut ChunkSet,
    holders: &mut ChunkHolders,
    chunks_to_send: &mut ChunksToSend,
) -> (actions: ChunkViewActions)
    requires
        event.wf(),
        old(holder).wf(),
        forall|c: ChunkPosition| #[trigger] old(holder)@.contains(c)
            <==> event.visible_old@.contains(c),
        forall|c: ChunkPosition| #[trigger] event.visible_old@.contains(c)
            ==> old(holders).count_by(c, event.player) >= 1,
    ensures
        final(holder).wf(),
        forall|c: ChunkPosition| #[trigger] final(holder)@.contains(c)
            <==> event.visible_new@.contains(c),
        forall|c: ChunkPosition| #[trigger] event.visible_new@.contains(c)
            ==> final(holders).count_by(c, event.player) >= 1,
        forall|c: ChunkPosition| #[trigger] event.visible_new@.contains(c)
            ==> !final(holders).evictable(c),
        forall|c: ChunkPosition, p: Entity| p != event.player
            ==> #[trigger] final(holders).count_by(c, p) == old(holders).count_by(c, p),
        // Exact hold accounting: one hold acquired per chunk entering the
        // view, one released per chunk leaving it, everything else exactly
        // as it was — so a view that moves away and later returns leaves a
        // chunk's hold count where it began.
        forall|c: ChunkPosition|
            #[trigger] final(holders).count(c) == old(holders).count(c)
                + (if newly_visible(*event, c) {
                    1int
                } else {
                    0int
                }) - (if newly_hidden(*event, c) {
                    1int
                } else {
                    0int
                }),
        forall|c: ChunkPosition|
            #[trigger] final(holders).count_by(c, event.player)
                == old(holders).count_by(c, event.player) + (if newly_visible(*event, c) {
                    1int
                } else {
                    0int
                }) - (if newly_hidden(*event, c) {
                    1int
                } else {
                    0int
                }),
        // Chunk delivery: exactly the resident chunks entering the view,
        // ascending by Manhattan distance from the new chunk.
        forall|k: int| 0 <= k < actions.chunk_data@.len()
            ==> (#[trigger] actions.chunk_data@[k]).1 == (Packet::ChunkData {
                chunk: Chunk { position: actions.chunk_data@[k].0 },
            }) && newly_visible(*event, actions.chunk_data@[k].0)
                && resident@.contains(actions.chunk_data@[k].0),
        forall|c: ChunkPosition| newly_visible(*event, c) && resident@.contains(c)
            ==> has_chunk(actions.chunk_data@, c),
        forall|k1: int, k2: int|
            0 <= k1 < k2 < actions.chunk_data@.len()
                ==> (#[trigger] actions.chunk_data@[k1]).0
                    != (#[trigger] actions.chunk_data@[k2]).0,
        forall|k1: int, k2: int|
            0 <= k1 <= k2 < actions.chunk_data@.len()
                ==> (#[trigger] actions.chunk_data@[k1]).0.spec_manhattan_distance(
                    event.new_chunk,
                ) <= (#[trigger] actions.chunk_data@[k2]).0.spec_manhattan_distance(
                    event.new_chunk,
                ),
        actions.send_events@.len() == actions.chunk_data@.len(),
        forall|k: int| 0 <= k < actions.send_events@.len()
            ==> #[trigger] actions.send_events@[k] == (ChunkSendEvent {
                chunk: actions.chunk_data@[k].0,
                player: event.player,
            }),
        // Chunk unloading: exactly the chunks leaving the view.
        forall|k: int| 0 <= k < actions.unload@.len()
            ==> (#[trigger] actions.unload@[k]).1 == (Packet::UnloadChunk {
                chunk_x: actions.unload@[k].0.x,
                chunk_z: actions.unload@[k].0.z,
            }) && newly_hidden(*event, actions.unload@[k].0),
        forall|c: ChunkPosition| newly_hidden(*event, c) ==> has_chunk(actions.unload@, c),
        forall|k1: int, k2: int|
            0 <= k1 < k2 < actions.unload@.len()
                ==> (#[trigger] actions.unload@[k1]).0 != (#[trigger] actions.unload@[k2]).0,
        actions.release_events@.len() == actions.unload@.len(),
        forall|k: int| 0 <= k < actions.release_events@.len()
            ==> #[trigger] actions.release_events@[k] == (ChunkHolderReleaseEvent {
                chunk: actions.unload@[k].0,
                player: event.player,
            }),
        // Pending requests: one registration per unresident chunk entering
        // the view, and a load request exactly for those nobody was
        // awaiting.
        actions.load_requests@.no_duplicates(),
        forall|c: ChunkPosition| #[trigger] actions.load_requests@.contains(c)
            <==> (newly_visible(*event, c) && !resident@.contains(c)
                && old(chunks_to_send).pending_for(c).len() == 0),
        forall|c: ChunkPosition| newly_visible(*event, c) && !resident@.contains(c)
            ==> #[trigger] final(chunks_to_send).pending_for(c)
                == old(chunks_to_send).pending_for(c).push(event.player),
        forall|c: ChunkPosition| !(newly_visible(*event, c) && !resident@.contains(c))
            ==> #[trigger] final(chunks_to_send).pending_for(c)
                == old(chunks_to_send).pending_for(c),
{
    let player = event.player;
    let to_send = event.visible_new.difference(&event.visible_old);
    let to_unload = event.visible_old.difference(&event.visible_new);

    // Sort sent chunks so that closer chunks are sent first.
    let sorted = sort_chunks_by_distance(&to_send, event.new_chunk);
    let ghost sorted_seq = sorted@;

    let mut chunk_data: Vec<(ChunkPosition, Packet)> = Vec::new();
    let mut send_events: Vec<ChunkSendEvent> = Vec::new();
    let mut load_requests: Vec<ChunkPosition> = Vec::new();

    // Send new chunks.
    let mut i: usize = 0;
    proof {
        assert(sorted_seq.take(0) =~= Seq::<ChunkPosition>::empty());
    }
    while i < sorted.len()
        invariant
            i <= sorted.len(),
            sorted@ == sorted_seq,
            player == event.player,
            event.wf(),
            holder.wf(),
            sorted_seq.no_duplicates(),
            forall|c: ChunkPosition| #[trigger] sorted_seq.contains(c)
                <==> newly_visible(*event, c),
            forall|k1: int, k2: int|
                0 <= k1 <= k2 < sorted_seq.len()
                    ==> (#[trigger] sorted_seq[k1]).spec_manhattan_distance(event.new_chunk)
                        <= (#[trigger] sorted_seq[k2]).spec_manhattan_distance(
                            event.new_chunk,
                        ),
            forall|c: ChunkPosition| #[trigger] event.visible_old@.contains(c)
                ==> old(holders).count_by(c, event.player) >= 1,
            forall|c: ChunkPosition| #[trigger] holder@.contains(c)
                <==> (event.visible_old@.contains(c) || sorted_seq.take(i as int).contains(c)),
            forall|c: ChunkPosition, p: Entity| p != player
                ==> #[trigger] holders.count_by(c, p) == old(holders).count_by(c, p),
            forall|c: ChunkPosition|
                #![trigger holders.count_by(c, player)]
                #![trigger holders.count(c)]
                {
                    &&& holders.count_by(c, player) == old(holders).count_by(c, player)
                        + if sorted_seq.take(i as int).contains(c) {
                            1int
                        } else {
                            0int
                        }
                    &&& holders.count(c) == old(holders).count(c)
                        + if sorted_seq.take(i as int).contains(c) {
                            1int
                        } else {
                            0int
                        }
                },
            forall|c: ChunkPosition| sorted_seq.take(i as int).contains(c)
                && !resident@.contains(c)
                ==> #[trigger] chunks_to_send.pending_for(c)
                    == old(chunks_to_send).pending_for(c).push(player),
            forall|c: ChunkPosition| !(sorted_seq.take(i as int).contains(c)
                && !resident@.contains(c))
                ==> #[trigger] chunks_to_send.pending_for(c)
                    == old(chunks_to_send).pending_for(c),
            load_requests@.no_duplicates(),
            forall|c: ChunkPosition| #[trigger] load_requests@.contains(c)
                <==> (sorted_seq.take(i as int).contains(c) && !resident@.contains(c)
                    && old(chunks_to_send).pending_for(c).len() == 0),
            forall|k: int| 0 <= k < chunk_data@.len()
                ==> (#[trigger] chunk_data@[k]).1 == (Packet::ChunkData {
                    chunk: Chunk { position: chunk_data@[k].0 },
                }) && sorted_seq.take(i as int).contains(chunk_data@[k].0)
                    && resident@.contains(chunk_data@[k].0),
            forall|c: ChunkPosition| sorted_seq.take(i as int).contains(c)
                && resident@.contains(c) ==> has_chunk(chunk_data@, c),
            forall|k1: int, k2: int|
                0 <= k1 < k2 < chunk_data@.len()
                    ==> (#[trigger] chunk_data@[k1]).0 != (#[trigger] chunk_data@[k2]).0,
            forall|k1: int, k2: int|
                0 <= k1 <= k2 < chunk_data@.len()
                    ==> (#[trigger] chunk_data@[k1]).0.spec_manhattan_distance(
                        event.new_chunk,
                    ) <= (#[trigger] chunk_data@[k2]).0.spec_manhattan_distance(
                        event.new_chunk,
                    ),
            forall|k: int, j: int|
                #![trigger chunk_data@[k], sorted_seq[j]]
                0 <= k < chunk_data@.len() && i <= j < sorted_seq.len()
                    ==> chunk_data@[k].0.spec_manhattan_distance(event.new_chunk)
                        <= sorted_seq[j].spec_manhattan_distance(event.new_chunk),
            send_events@.len() == chunk_data@.len(),
            forall|k: int| 0 <= k < send_events@.len()
                ==> #[trigger] send_events@[k] == (ChunkSendEvent {
                    chunk: chunk_data@[k].0,
                    player,
                }),
        decreases sorted.len() - i,
    {
        let chunk = sorted[i];
        proof {
            assert(sorted_seq[i as int] == chunk);
            assert(sorted_seq.contains(chunk));
            assert(!sorted_seq.take(i as int).contains(chunk)) by {
                if sorted_seq.take(i as int).contains(chunk) {
                    let k = choose|k: int|
                        0 <= k < i && sorted_seq.take(i as int)[k] == chunk;
                    assert(sorted_seq[k] == chunk);
                }
            }
            assert(sorted_seq.take(i + 1).drop_last() =~= sorted_seq.take(i as int));
            assert(sorted_seq.take(i + 1).last() == chunk);
        }
        let ghost cts_pre = *chunks_to_send;
        let ghost data_pre = chunk_data@;
        let action = send_chunk_to_player(
            player,
            holder,
            holders,
            chunk,
            resident,
            chunks_to_send,
        );
        if action.load_request {
            proof {
                assert(!load_requests@.contains(chunk));
            }
            let ghost requests_pre = load_requests@;
            load_requests.push(chunk);
            proof {
                assert forall|k1: int, k2: int| 0 <= k1 < k2 < load_requests@.len()
                    implies load_requests@[k1] != load_requests@[k2] by {
                    if k2 == load_requests@.len() - 1 {
                        assert(requests_pre.contains(requests_pre[k1]));
                    }
                }
                assert(load_requests@.no_duplicates());
            }
        }
        match action.packet {
            Some(p) => {
                chunk_data.push((chunk, p));
                send_events.push(ChunkSendEvent { chunk, player });
            }
            None => {}
        }
        proof {
            assert forall|c: ChunkPosition| #[trigger] sorted_seq.take(i + 1).contains(c)
                <==> (sorted_seq.take(i as int).contains(c) || c == chunk) by {}
            assert forall|c: ChunkPosition| sorted_seq.take(i + 1).contains(c)
                && !resident@.contains(c)
                implies #[trigger] chunks_to_send.pending_for(c)
                    == old(chunks_to_send).pending_for(c).push(player) by {
                if c == chunk {
                    assert(cts_pre.pending_for(c) == old(chunks_to_send).pending_for(c));
                } else {
                    assert(chunks_to_send.pending_for(c) == cts_pre.pending_for(c));
                }
            }
            assert forall|c: ChunkPosition| !(sorted_seq.take(i + 1).contains(c)
                && !resident@.contains(c))
                implies #[trigger] chunks_to_send.pending_for(c)
                    == old(chunks_to_send).pending_for(c) by {
                if c == chunk {
                    assert(resident@.contains(c));
                    assert(chunks_to_send@ == cts_pre@);
                } else {
                    assert(chunks_to_send.pending_for(c) == cts_pre.pending_for(c));
                }
            }
            assert forall|c: ChunkPosition| sorted_seq.take(i + 1).contains(c)
                && resident@.contains(c) implies has_chunk(chunk_data@, c) by {
                if c == chunk {
                    assert(chunk_data@[chunk_data@.len() - 1].0 == c);
                } else {
                    let k = choose|k: int|
                        0 <= k < data_pre.len() && (#[trigger] data_pre[k]).0 == c;
                    assert(chunk_data@[k].0 == c);
                }
            }
        }
        i += 1;
    }
    proof {
        assert(sorted_seq.take(i as int) =~= sorted_seq);
    }

    // Unload old chunks on client.
    let unload_list = to_unload.to_vec();
    let ghost unload_seq = unload_list@;
    let mut unload: Vec<(ChunkPosition, Packet)> = Vec::new();
    let mut release_events: Vec<ChunkHolderReleaseEvent> = Vec::new();
    let mut j: usize = 0;
    proof {
        assert(unload_seq.take(0) =~= Seq::<ChunkPosition>::empty());
    }
    while j < unload_list.len()
        invariant
            j <= unload_list.len(),
            unload_list@ == unload_seq,
            player == event.player,
            event.wf(),
            holder.wf(),
            unload_seq.no_duplicates(),
            forall|c: ChunkPosition| #[trigger] unload_seq.contains(c)
                <==> newly_hidden(*event, c),
            forall|c: ChunkPosition| #[trigger] event.visible_old@.contains(c)
                ==> old(holders).count_by(c, event.player) >= 1,
            forall|c: ChunkPosition| #[trigger] holder@.contains(c)
                <==> ((event.visible_old@.contains(c) || event.visible_new@.contains(c))
                    && !unload_seq.take(j as int).contains(c)),
            forall|c: ChunkPosition, p: Entity| p != player
                ==> #[trigger] holders.count_by(c, p) == old(holders).count_by(c, p),
            forall|c: ChunkPosition|
                #![trigger holders.count_by(c, player)]
                #![trigger holders.count(c)]
                {
                    &&& holders.count_by(c, player) == old(holders).count_by(c, player)
                        + (if newly_visible(*event, c) {
                            1int
                        } else {
                            0int
                        }) - (if unload_seq.take(j as int).contains(c) {
                            1int
                        } else {
                            0int
                        })
                    &&& holders.count(c) == old(holders).count(c)
                        + (if newly_visible(*event, c) {
                            1int
                        } else {
                            0int
                        }) - (if unload_seq.take(j as int).contains(c) {
                            1int
                        } else {
                            0int
                        })
                },
            forall|k: int| 0 <= k < unload@.len()
                ==> (#[trigger] unload@[k]).1 == (Packet::UnloadChunk {
                    chunk_x: unload@[k].0.x,
                    chunk_z: unload@[k].0.z,
                }) && unload_seq.take(j as int).contains(unload@[k].0),
            forall|c: ChunkPosition| unload_seq.take(j as int).contains(c)
                ==> has_chunk(unload@, c),
            forall|k1: int, k2: int|
                0 <= k1 < k2 < unload@.len()
                    ==> (#[trigger] unload@[k1]).0 != (#[trigger] unload@[k2]).0,
            release_events@.len() == unload@.len(),
            forall|k: int| 0 <= k < release_events@.len()
                ==> #[trigger] release_events@[k] == (ChunkHolderReleaseEvent {
                    chunk: unload@[k].0,
                    player,
                }),
        decreases unload_list.len() - j,
    {
        let chunk = unload_list[j];
        proof {
            assert(unload_seq[j as int] == chunk);
            assert(unload_seq.contains(chunk));
            assert(!unload_seq.take(j as int).contains(chunk)) by {
                if unload_seq.take(j as int).contains(chunk) {
                    let k = choose|k: int|
                        0 <= k < j && unload_seq.take(j as int)[k] == chunk;
                    assert(unload_seq[k] == chunk);
                }
            }
            assert(unload_seq.take(j + 1).drop_last() =~= unload_seq.take(j as int));
            assert(unload_seq.take(j + 1).last() == chunk);
            assert(newly_hidden(*event, chunk));
            assert(event.visible_old@.contains(chunk));
            assert(!newly_visible(*event, chunk));
            assert(old(holders).count_by(chunk, player) >= 1);
            assert(holders.count_by(chunk, player) >= 1);
        }
        let ghost unload_pre = unload@;
        let (packet, ev) = unload_chunk_for_player(player, holder, holders, chunk);
        unload.push((chunk, packet));
        release_events.push(ev);
        proof {
            assert forall|c: ChunkPosition| #[trigger] unload_seq.take(j + 1).contains(c)
                <==> (unload_seq.take(j as int).contains(c) || c == chunk) by {}
            assert forall|c: ChunkPosition| unload_seq.take(j + 1).contains(c)
                implies has_chunk(unload@, c) by {
                if c == chunk {
                    assert(unload@[unload@.len() - 1].0 == c);
                } else {
                    assert(unload_seq.take(j as int).contains(c));
                    assert(has_chunk(unload_pre, c));
                    let k = choose|k: int|
                        0 <= k < unload_pre.len() && (#[trigger] unload_pre[k]).0 == c;
                    assert(unload@[k].0 == c);
                }
            }
        }
        j += 1;
    }
    proof {
        assert(unload_seq.take(j as int) =~= unload_seq);
        assert forall|c: ChunkPosition| #[trigger] event.visible_new@.contains(c)
            implies holders.count_by(c, player) >= 1 by {
            if newly_visible(*event, c) {
                crate::chunk_logic::lemma_pair_le_chunk(old(holders)@, c, player);
            }
        }
        assert forall|c: ChunkPosition| #[trigger] event.visible_new@.contains(c)
            implies !holders.evictable(c) by {
            crate::chunk_logic::lemma_held_not_evictable(*holders, c, player);
        }
    }

    ChunkViewActions { chunk_data, send_events, unload, release_events, load_requests }
}

/// Delivers a just-loaded chunk to every session awaiting it, in
/// registration order, clearing the chunk's pending entry. The caller hands
/// in the loaded chunk itself; a load-completed event for a chunk the
/// storage collaborator cannot produce is a broken invariant and fails fast
/// before this point.
pub fn chunk_send(chunk: &Chunk, chunks_to_send: &mut ChunksToSend) -> (r: (
    Vec<(Entity, Packet)>,
    Vec<ChunkSendEvent>,
))
    ensures
        r.0@.len() == old(chunks_to_send).pending_for(chunk.position).len(),
        forall|k: int| 0 <= k < r.0@.len()
            ==> #[trigger] r.0@[k] == (
                old(chunks_to_send).pending_for(chunk.position)[k],
                Packet::ChunkData { chunk: *chunk },
            ),
        r.1@.len() == r.0@.len(),
        forall|k: int| 0 <= k < r.1@.len()
            ==> #[trigger] r.1@[k] == (ChunkSendEvent {
                chunk: chunk.position,
                player: old(chunks_to_send).pending_for(chunk.position)[k],
            }),
        final(chunks_to_send).pending_for(chunk.position) == Seq::<Entity>::empty(),
        forall|c: ChunkPosition| c != chunk.position
            ==> #[trigger] final(chunks_to_send).pending_for(c)
                == old(chunks_to_send).pending_for(c),
{
    let players = chunks_to_send.take_pending(chunk.position());
    let ghost expected = players@;
    let mut deliveries: Vec<(Entity, Packet)> = Vec::new();
    let mut events: Vec<ChunkSendEvent> = Vec::new();
    let mut i: usize = 0;
    while i < players.len()
        invariant
            i <= players.len(),
            players@ == expected,
            deliveries@.len() == i,
            events@.len() == i,
            forall|k: int| 0 <= k < i
                ==> #[trigger] deliveries@[k] == (
                    expected[k],
                    Packet::ChunkData { chunk: *chunk },
                ),
            forall|k: int| 0 <= k < i
                ==> #[trigger] events@[k] == (ChunkSendEvent {
                    chunk: chunk.position,
                    player: expected[k],
                }),
        decreases players.len() - i,
    {
        let player = players[i];
        deliveries.push((player, create_chunk_data(chunk)));
        events.push(ChunkSendEvent { chunk: chunk.position, player });
        i += 1;
    }
    (deliveries, events)
}

/// Snapshot of the chunk-entity index and the component accessors for one
/// event: the entity's handle, the components a packet creator reads, and
/// its spawn capability where it has one.
#[derive(Clone, Copy, Debug)]
pub struct EntityEntry {
    pub entity: Entity,
    pub facts: EntityFacts,
    pub spawn: Option<SpawnPacketCreator>,
}

/// The entities of a chunk in an index snapshot, in index order.
pub open spec fn entities_of(
    s: Seq<(ChunkPosition, EntityEntry)>,
    c: ChunkPosition,
) -> Seq<EntityEntry>
    decreases s.len(),
{
    if s.len() == 0 {
        Seq::empty()
    } else {
        entities_of(s.drop_last(), c) + if s.last().0 == c {
            seq![s.last().1]
        } else {
            Seq::empty()
        }
    }
}

/// The chunk-entity index collaborator, as the entity side of a view update
/// sees it: which entities currently stand in which chunk.
pub struct ChunkEntities {
    entries: Vec<(ChunkPosition, EntityEntry)>,
}

impl View for ChunkEntities {
    type V = Seq<(ChunkPosition, EntityEntry)>;

    closed spec fn view(&self) -> Seq<(ChunkPosition, EntityEntry)> {
        self.entries@
    }
}

impl ChunkEntities {
    pub fn new() -> (t: ChunkEntities)
        ensures
            t@ == Seq::<(ChunkPosition, EntityEntry)>::empty(),
    {
        ChunkEntities { entries: Vec::new() }
    }

    /// Records that `entry`'s entity stands in `chunk`.
    pub fn insert(&mut self, chunk: ChunkPosition, entry: EntityEntry)
        ensures
            final(self)@ == old(self)@.push((chunk, entry)),
    {
        self.entries.push((chunk, entry));
    }

    /// The entities currently located in `chunk`, in index order.
    pub fn entities_in_chunk(&self, chunk: ChunkPosition) -> (v: Vec<EntityEntry>)
        ensures
            v@ == entities_of(self@, chunk),
    {
        let ghost all = self.entries@;
        let mut v: Vec<EntityEntry> = Vec::new();
        let mut i: usize = 0;
        proof {
            assert(all.take(0) =~= Seq::<(ChunkPosition, EntityEntry)>::empty());
        }
        while i < self.entries.len()
            invariant
                i <= self.entries.len(),
                self.entries@ == all,
                v@ == entities_of(all.take(i as int), chunk),
            decreases self.entries.len() - i,
        {
            let pair = &self.entries[i];
            proof {
                assert(all.take(i + 1).drop_last() =~= all.take(i as int));
                assert(all.take(i + 1).last() == all[i as int]);
            }
            if pair.0 == chunk {
                v.push(pair.1);
                proof {
                    assert(v@ =~= entities_of(all.take(i + 1), chunk));
                }
            } else {
                proof {
                    assert(v@ =~= entities_of(all.take(i + 1), chunk));
                }
            }
            i += 1;
        }
        proof {
            assert(all.take(i as int) =~= all);
        }
        v
    }
}

/// Of a chunk's entities, those a session must be sent a spawn packet for:
/// every entity but the session's own that has a spawn capability, in index
/// order.
pub open spec fn spawn_entries(s: Seq<EntityEntry>, player: Entity) -> Seq<EntityEntry>
    decreases s.len(),
{
    if s.len() == 0 {
        Seq::empty()
    } else {
        spawn_entries(s.drop_last(), player) + if s.last().entity != player
            && s.last().spawn is Some {
            seq![s.last()]
        } else {
            Seq::empty()
        }
    }
}

/// The spawn-packet entries for a list of chunks, chunk by chunk.
pub open spec fn spawns_for(
    index: Seq<(ChunkPosition, EntityEntry)>,
    chunks: Seq<ChunkPosition>,
    player: Entity,
) -> Seq<EntityEntry>
    decreases chunks.len(),
{
    if chunks.len() == 0 {
        Seq::empty()
    } else {
        spawns_for(index, chunks.drop_last(), player) + spawn_entries(
            entities_of(index, chunks.last()),
            player,
        )
    }
}

/// The entities standing in a list of chunks, chunk by chunk.
pub open spec fn occupants_of(
    index: Seq<(ChunkPosition, EntityEntry)>,
    chunks: Seq<ChunkPosition>,
) -> Seq<EntityEntry>
    decreases chunks.len(),
{
    if chunks.len() == 0 {
        Seq::empty()
    } else {
        occupants_of(index, chunks.drop_last()) + entities_of(index, chunks.last())
    }
}

/// What the entity side of one view update tells the caller to do. The two
/// chunk lists record the enumeration order the results follow; their
/// membership — not their order — is what the view change determines.
pub struct EntityViewActions {
    /// Chunks that entered the view, in the order they were processed.
    pub sent_chunks: Vec<ChunkPosition>,
    /// Chunks that left the view, in the order they were processed.
    pub hidden_chunks: Vec<ChunkPosition>,
    /// For each entity newly in range with a spawn capability: the entity
    /// and its spawn packet, to send to the session.
    pub spawns: Vec<(Entity, Packet)>,
    /// One entity-sent event per spawn, aligned with `spawns`.
    pub send_events: Vec<EntitySendEvent>,
    /// The one batched destroy-entities packet, when any entity left range.
    pub destroy: Option<Packet>,
    /// The entities the session no longer tracks, in processing order.
    pub untracked: Vec<Entity>,
}

/// Applies one view update to the entities a session sees: spawn packets for
/// every entity with a spawn capability in chunks entering the view — never
/// for the session itself — and one batched destroy instruction naming every
/// entity in chunks leaving it.
pub fn view_handle_entities(event: &ViewUpdateEvent, index: &ChunkEntities) -> (r:
    EntityViewActions)
    requires
        event.wf(),
    ensures
        r.sent_chunks@.no_duplicates(),
        forall|c: ChunkPosition| #[trigger] r.sent_chunks@.contains(c)
            <==> newly_visible(*event, c),
        r.hidden_chunks@.no_duplicates(),
        forall|c: ChunkPosition| #[trigger] r.hidden_chunks@.contains(c)
            <==> newly_hidden(*event, c),
        ({
            let expected = spawns_for(index@, r.sent_chunks@, event.player);
            &&& r.spawns@.len() == expected.len()
            &&& forall|k: int| 0 <= k < expected.len()
                ==> #[trigger] r.spawns@[k] == (
                    (#[trigger] expected[k]).entity,
                    expected[k].spawn.unwrap().spec_packet(expected[k].facts),
                )
            &&& r.send_events@.len() == expected.len()
            &&& forall|k: int| 0 <= k < expected.len()
                ==> #[trigger] r.send_events@[k] == (EntitySendEvent {
                    entity: expected[k].entity,
                    to: event.player,
                })
        }),
        forall|k: int| 0 <= k < r.spawns@.len()
            ==> (#[trigger] r.spawns@[k]).0 != event.player,
        ({
            let leaving = occupants_of(index@, r.hidden_chunks@);
            &&& r.untracked@.len() == leaving.len()
            &&& forall|k: int| 0 <= k < leaving.len()
                ==> #[trigger] r.untracked@[k] == (#[trigger] leaving[k]).entity
            &&& (r.destroy is Some <==> leaving.len() > 0)
            &&& (r.destroy matches Some(p) ==> p matches Packet::DestroyEntities {
                entity_ids,
            } && entity_ids@.len() == leaving.len() && forall|k: int|
                0 <= k < leaving.len()
                    ==> #[trigger] entity_ids@[k] == (#[trigger] leaving[k]).facts.id.0)
        }),
{
    let player = event.player;
    let to_send = event.visible_new.difference(&event.visible_old);
    let to_unload = event.visible_old.difference(&event.visible_new);
    let sent_chunks = to_send.to_vec();
    let hidden_chunks = to_unload.to_vec();
    let ghost send_seq = sent_chunks@;
    let ghost hide_seq = hidden_chunks@;

    // Send new entities.
    let mut spawns: Vec<(Entity, Packet)> = Vec::new();
    let mut send_events: Vec<EntitySendEvent> = Vec::new();
    let mut i: usize = 0;
    proof {
        assert(send_seq.take(0) =~= Seq::<ChunkPosition>::empty());
    }
    while i < sent_chunks.len()
        invariant
            i <= sent_chunks.len(),
            sent_chunks@ == send_seq,
            player == event.player,
            ({
                let expected = spawns_for(index@, send_seq.take(i as int), player);
                &&& spawns@.len() == expected.len()
                &&& forall|k: int| 0 <= k < expected.len()
                    ==> #[trigger] spawns@[k] == (
                        (#[trigger] expected[k]).entity,
                        expected[k].spawn.unwrap().spec_packet(expected[k].facts),
                    )
                &&& send_events@.len() == expected.len()
                &&& forall|k: int| 0 <= k < expected.len()
                    ==> #[trigger] send_events@[k] == (EntitySendEvent {
                        entity: expected[k].entity,
                        to: player,
                    })
            }),
            forall|k: int| 0 <= k < spawns@.len()
                ==> (#[trigger] spawns@[k]).0 != player,
        decreases sent_chunks.len() - i,
    {
        let chunk = sent_chunks[i];
        proof {
            assert(send_seq.take(i + 1).drop_last() =~= send_seq.take(i as int));
            assert(send_seq.take(i + 1).last() == chunk);
        }
        let entities = index.entities_in_chunk(chunk);
        let ghost chunk_entities_seq = entities@;
        let mut j: usize = 0;
        proof {
            assert(chunk_entities_seq.take(0) =~= Seq::<EntityEntry>::empty());
            assert(spawn_entries(chunk_entities_seq.take(0), player)
                =~= Seq::<EntityEntry>::empty());
        }
        while j < entities.len()
            invariant
                j <= entities.len(),
                entities@ == chunk_entities_seq,
                player == event.player,
                ({
                    let expected = spawns_for(index@, send_seq.take(i as int), player)
                        + spawn_entries(chunk_entities_seq.take(j as int), player);
                    &&& spawns@.len() == expected.len()
                    &&& forall|k: int| 0 <= k < expected.len()
                        ==> #[trigger] spawns@[k] == (
                            (#[trigger] expected[k]).entity,
                            expected[k].spawn.unwrap().spec_packet(expected[k].facts),
                        )
                    &&& send_events@.len() == expected.len()
                    &&& forall|k: int| 0 <= k < expected.len()
                        ==> #[trigger] send_events@[k] == (EntitySendEvent {
                            entity: expected[k].entity,
                            to: player,
                        })
                }),
                forall|k: int| 0 <= k < spawns@.len()
                    ==> (#[trigger] spawns@[k]).0 != player,
            decreases entities.len() - j,
        {
            let entry = &entities[j];
            proof {
                assert(chunk_entities_seq.take(j + 1).drop_last()
                    =~= chunk_entities_seq.take(j as int));
                assert(chunk_entities_seq.take(j + 1).last()
                    == chunk_entities_seq[j as int]);
            }
            // Don't send the client to themself; only entities exposing a
            // spawn capability are sent.
            if entry.entity.0 != player.0 {
                match &entry.spawn {
                    Some(creator) => {
                        let packet = creator.get(&entry.facts);
                        spawns.push((entry.entity, packet));
                        send_events.push(EntitySendEvent { entity: entry.entity, to: player });
                        proof {
                            let expected_now = spawns_for(
                                index@,
                                send_seq.take(i as int),
                                player,
                            ) + spawn_entries(chunk_entities_seq.take(j + 1), player);
                            assert(spawn_entries(chunk_entities_seq.take(j + 1), player)
                                =~= spawn_entries(chunk_entities_seq.take(j as int), player)
                                    .push(chunk_entities_seq[j as int]));
                            assert(expected_now
                                =~= (spawns_for(index@, send_seq.take(i as int), player)
                                    + spawn_entries(
                                        chunk_entities_seq.take(j as int),
                                        player,
                                    )).push(chunk_entities_seq[j as int]));
                        }
                    }
                    None => {
                        proof {
                            assert(spawn_entries(chunk_entities_seq.take(j + 1), player)
                                =~= spawn_entries(
                                    chunk_entities_seq.take(j as int),
                                    player,
                                ));
                        }
                    }
                }
            } else {
                proof {
                    assert(entry.entity == player);
                    assert(spawn_entries(chunk_entities_seq.take(j + 1), player)
                        =~= spawn_entries(chunk_entities_seq.take(j as int), player));
                }
            }
            j += 1;
        }
        proof {
            assert(chunk_entities_seq.take(j as int) =~= chunk_entities_seq);
            assert(chunk_entities_seq == entities_of(index@, chunk));
            assert(spawns_for(index@, send_seq.take(i + 1), player)
                =~= spawns_for(index@, send_seq.take(i as int), player) + spawn_entries(
                    entities_of(index@, chunk),
                    player,
                ));
        }
        i += 1;
    }
    proof {
        assert(send_seq.take(i as int) =~= send_seq);
    }

    // Remove old entities, batched into a single packet.
    let mut to_delete: Vec<i32> = Vec::new();
    let mut untracked: Vec<Entity> = Vec::new();
    let mut h: usize = 0;
    proof {
        assert(hide_seq.take(0) =~= Seq::<ChunkPosition>::empty());
    }
    while h < hidden_chunks.len()
        invariant
            h <= hidden_chunks.len(),
            hidden_chunks@ == hide_seq,
            ({
                let leaving = occupants_of(index@, hide_seq.take(h as int));
                &&& to_delete@.len() == leaving.len()
                &&& forall|k: int| 0 <= k < leaving.len()
                    ==> #[trigger] to_delete@[k] == (#[trigger] leaving[k]).facts.id.0
                &&& untracked@.len() == leaving.len()
                &&& forall|k: int| 0 <= k < leaving.len()
                    ==> #[trigger] untracked@[k] == (#[trigger] leaving[k]).entity
            }),
        decreases hidden_chunks.len() - h,
    {
        let chunk = hidden_chunks[h];
        proof {
            assert(hide_seq.take(h + 1).drop_last() =~= hide_seq.take(h as int));
            assert(hide_seq.take(h + 1).last() == chunk);
        }
        let entities = index.entities_in_chunk(chunk);
        let ghost chunk_entities_seq = entities@;
        let mut j: usize = 0;
        while j < entities.len()
            invariant
                j <= entities.len(),
                entities@ == chunk_entities_seq,
                ({
                    let leaving = occupants_of(index@, hide_seq.take(h as int))
                        + chunk_entities_seq.take(j as int);
                    &&& to_delete@.len() == leaving.len()
                    &&& forall|k: int| 0 <= k < leaving.len()
                        ==> #[trigger] to_delete@[k] == (#[trigger] leaving[k]).facts.id.0
                    &&& untracked@.len() == leaving.len()
                    &&& forall|k: int| 0 <= k < leaving.len()
                        ==> #[trigger] untracked@[k] == (#[trigger] leaving[k]).entity
                }),
            decreases entities.len() - j,
        {
            let entry = &entities[j];
            to_delete.push(entry.facts.id.0);
            untracked.push(entry.entity);
            proof {
                assert(chunk_entities_seq.take(j + 1)
                    =~= chunk_entities_seq.take(j as int).push(chunk_entities_seq[j as int]));
                assert(occupants_of(index@, hide_seq.take(h as int))
                    + chunk_entities_seq.take(j + 1)
                    =~= (occupants_of(index@, hide_seq.take(h as int))
                        + chunk_entities_seq.take(j as int)).push(
                    chunk_entities_seq[j as int],
                ));
            }
            j += 1;
        }
        proof {
            assert(chunk_entities_seq.take(j as int) =~= chunk_entities_seq);
            assert(occupants_of(index@, hide_seq.take(h + 1))
                =~= occupants_of(index@, hide_seq.take(h as int)) + entities_of(
                    index@,
                    chunk,
                ));
        }
        h += 1;
    }
    proof {
        assert(hide_seq.take(h as int) =~= hide_seq);
    }

    let destroy = if to_delete.len() > 0 {
        Some(Packet::DestroyEntities { entity_ids: to_delete })
    } else {
        None
    };

    EntityViewActions { sent_chunks, hidden_chunks, spawns, send_events, destroy, untracked }
}

/// Pending-request deduplication: starting with no pending entry for a
/// chunk, a first registration queues that session alone — the caller
/// issues the single load request — and a second registration in the same
/// pending window only joins the queue; delivery then finds exactly the two
/// sessions, in order.
pub proof fn law_pending_request_dedup(
    s: Seq<(ChunkPosition, Entity)>,
    c: ChunkPosition,
    p1: Entity,
    p2: Entity,
)
    requires
        pending_sessions(s, c).len() == 0,
    ensures
        pending_sessions(s.push((c, p1)), c) == seq![p1],
        pending_sessions(s.push((c, p1)).push((c, p2)), c) == seq![p1, p2],
{
    lemma_pending_push(s, (c, p1), c);
    assert(pending_sessions(s.push((c, p1)), c) =~= seq![p1]);
    lemma_pending_push(s.push((c, p1)), (c, p2), c);
    assert(pending_sessions(s.push((c, p1)).push((c, p2)), c) =~= seq![p1, p2]);
}

} // verus!
