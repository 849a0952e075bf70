//! Chunk hold accounting.
//!
//! A hold is a reference-counted claim, per (chunk, session), preventing the
//! storage collaborator from evicting a resident chunk while at least one
//! session depends on it. The interest manager acquires a hold when a chunk
//! becomes visible to a session and releases it when the chunk leaves the
//! session's view.

use vstd::prelude::*;

verus! {

use crate::entity::Entity;
use crate::position::{ChunkPosition, ChunkSet};

broadcast use vstd::seq_lib::lemma_seq_contains_after_push;

/// One hold: the chunk held and the session holding it.
pub type Hold = (ChunkPosition, Entity);

/// Event triggered when a session releases its hold on a chunk; the storage
/// collaborator listens for it to learn when eviction may proceed.
#[derive(Clone, Copy, Debug, PartialEq, Eq, Structural)]
pub struct ChunkHolderReleaseEvent {
    pub chunk: ChunkPosition,
    pub player: Entity,
}

/// Event the storage collaborator triggers when an asynchronously requested
/// chunk has finished loading.
#[derive(Clone, Copy, Debug, PartialEq, Eq, Structural)]
pub struct ChunkLoadEvent {
    pub pos: ChunkPosition,
}

/// How many holds of `c` a sequence of holds carries.
pub open spec fn chunk_hold_count(s: Seq<Hold>, c: ChunkPosition) -> int
    decreases s.len(),
{
    if s.len() == 0 {
        0
    } else {
        chunk_hold_count(s.drop_last(), c) + if s.last().0 == c {
            1int
        } else {
            0int
        }
    }
}

/// How many holds of `c` by `p` a sequence of holds carries.
pub open spec fn pair_hold_count(s: Seq<Hold>, c: ChunkPosition, p: Entity) -> int
    decreases s.len(),
{
    if s.len() == 0 {
        0
    } else {
        pair_hold_count(s.drop_last(), c, p) + if s.last() == (c, p) {
            1int
        } else {
            0int
        }
    }
}

/// Appending one hold raises exactly the counts it matches.
pub proof fn lemma_hold_count_push(s: Seq<Hold>, x: Hold, c: ChunkPosition, p: Entity)
    ensures
        chunk_hold_count(s.push(x), c) == chunk_hold_count(s, c) + if x.0 == c {
            1int
        } else {
            0int
        },
        pair_hold_count(s.push(x), c, p) == pair_hold_count(s, c, p) + if x == (c, p) {
            1int
        } else {
            0int
        },
{
    assert(s.push(x).drop_last() =~= s);
}

/// Removing one hold lowers exactly the counts it matches.
pub proof fn lemma_hold_count_remove(s: Seq<Hold>, idx: int, c: ChunkPosition, p: Entity)
    requires
        0 <= idx < s.len(),
    ensures
        chunk_hold_count(s.remove(idx), c) == chunk_hold_count(s, c) - if s[idx].0 == c {
            1int
        } else {
            0int
        },
        pair_hold_count(s.remove(idx), c, p) == pair_hold_count(s, c, p) - if s[idx] == (c, p) {
            1int
        } else {
            0int
        },
    decreases s.len(),
{
    if idx == s.len() - 1 {
        assert(s.remove(idx) =~= s.drop_last());
    } else {
        lemma_hold_count_remove(s.drop_last(), idx, c, p);
        assert(s.remove(idx).drop_last() =~= s.drop_last().remove(idx));
        assert(s.remove(idx).last() == s.last());
    }
}

/// Counts are nonnegative and a session's own holds never exceed the
/// chunk's total.
pub proof fn lemma_pair_le_chunk(s: Seq<Hold>, c: ChunkPosition, p: Entity)
    ensures
        0 <= pair_hold_count(s, c, p),
        pair_hold_count(s, c, p) <= chunk_hold_count(s, c),
    decreases s.len(),
{
    if s.len() > 0 {
        lemma_pair_le_chunk(s.drop_last(), c, p);
    }
}

/// The shared hold table: every live hold, in acquisition order.
pub struct ChunkHolders {
    holds: Vec<Hold>,
}

impl View for ChunkHolders {
    type V = Seq<Hold>;

    closed spec fn view(&self) -> Seq<Hold> {
        self.holds@
    }
}

impl ChunkHolders {
    /// Total holds on `c`.
    pub open spec fn count(self, c: ChunkPosition) -> int {
        chunk_hold_count(self@, c)
    }

    /// Holds on `c` by session `p`.
    pub open spec fn count_by(self, c: ChunkPosition, p: Entity) -> int {
        pair_hold_count(self@, c, p)
    }

    /// The storage collaborator may evict `c` only when nobody holds it.
    pub open spec fn evictable(self, c: ChunkPosition) -> bool {
        self.count(c) == 0
    }

    pub fn new() -> (h: ChunkHolders)
        ensures
            h@ == Seq::<Hold>::empty(),
    {
        ChunkHolders { holds: Vec::new() }
    }

    /// Counts the live holds on `c`.
    pub fn holder_count(&self, c: ChunkPosition) -> (n: usize)
        ensures
            n == self.count(c),
    {
        let ghost all = self.holds@;
        let mut n: usize = 0;
        let mut i: usize = 0;
        proof {
            assert(all.take(0) =~= Seq::<Hold>::empty());
        }
        while i < self.holds.len()
            invariant
                i <= self.holds.len(),
                self.holds@ == all,
                n == chunk_hold_count(all.take(i as int), c),
                n <= i,
            decreases self.holds.len() - i,
        {
            proof {
                assert(all.take(i + 1).drop_last() =~= all.take(i as int));
                assert(all.take(i + 1).last() == all[i as int]);
            }
            if self.holds[i].0 == c {
                n += 1;
            }
            i += 1;
        }
        proof {
            assert(all.take(i as int) =~= all);
        }
        n
    }

    /// Whether the storage collaborator may evict `c`.
    pub fn is_evictable(&self, c: ChunkPosition) -> (b: bool)
        ensures
            b == self.evictable(c),
    {
        self.holder_count(c) == 0
    }

    /// Counts the live holds on `c` by session `p`, so a caller can check
    /// what the view pipeline's preconditions ask of the hold table.
    pub fn holder_count_by(&self, c: ChunkPosition, p: Entity) -> (n: usize)
        ensures
            n == self.count_by(c, p),
    {
        let ghost all = self.holds@;
        let mut n: usize = 0;
        let mut i: usize = 0;
        proof {
            assert(all.take(0) =~= Seq::<Hold>::empty());
        }
        while i < self.holds.len()
            invariant
                i <= self.holds.len(),
                self.holds@ == all,
                n == pair_hold_count(all.take(i as int), c, p),
                n <= i,
            decreases self.holds.len() - i,
        {
            proof {
                assert(all.take(i + 1).drop_last() =~= all.take(i as int));
                assert(all.take(i + 1).last() == all[i as int]);
            }
            let h = self.holds[i];
            if h.0 == c && h.1 == p {
                n += 1;
            }
            i += 1;
        }
        proof {
            assert(all.take(i as int) =~= all);
        }
        n
    }

    fn push_hold(&mut self, chunk: ChunkPosition, player: Entity)
        ensures
            final(self)@ == old(self)@.push((chunk, player)),
    {
        self.holds.push((chunk, player));
    }

    fn remove_hold(&mut self, chunk: ChunkPosition, player: Entity) -> (removed: bool)
        ensures
            removed == exists|i: int|
                0 <= i < old(self)@.len() && old(self)@[i] == (chunk, player),
            removed ==> exists|i: int|
                0 <= i < old(self)@.len() && old(self)@[i] == (chunk, player)
                    && final(self)@ == old(self)@.remove(i),
            !removed ==> final(self)@ == old(self)@,
    {
        let mut i: usize = 0;
        while i < self.holds.len()
            invariant
                i <= self.holds.len(),
                self.holds@ == old(self)@,
                forall|j: int| 0 <= j < i ==> old(self)@[j] != (chunk, player),
            decreases self.holds.len() - i,
        {
            let h = self.holds[i];
            if h.0 == chunk && h.1 == player {
                self.holds.remove(i);
                return true;
            }
            i += 1;
        }
        false
    }
}

/// Acquires a hold on `chunk` for `player`: the hold table grows by the
/// pair, and the session's own holder set gains the chunk.
pub fn hold_chunk(
    player: Entity,
    holder: &mut ChunkSet,
    holders: &mut ChunkHolders,
    chunk: ChunkPosition,
)
    requires
        old(holder).wf(),
    ensures
        final(holders)@ == old(holders)@.push((chunk, player)),
        final(holder).wf(),
        forall|d: ChunkPosition| #[trigger] final(holder)@.contains(d)
            <==> (old(holder)@.contains(d) || d == chunk),
        forall|c: ChunkPosition, p: Entity|
            #![trigger final(holders).count_by(c, p)]
            final(holders).count_by(c, p) == old(holders).count_by(c, p) + if (c, p) == (
                chunk,
                player,
            ) {
                1int
            } else {
                0int
            },
        forall|c: ChunkPosition| #[trigger] final(holders).count(c) == old(holders).count(c)
            + if c == chunk {
                1int
            } else {
                0int
            },
{
    holders.push_hold(chunk, player);
    holder.insert(chunk);
    proof {
        assert forall|c: ChunkPosition, p: Entity|
            #[trigger] pair_hold_count(holders@, c, p) == pair_hold_count(old(holders)@, c, p)
                + if (c, p) == (chunk, player) { 1int } else { 0int } by {
            lemma_hold_count_push(old(holders)@, (chunk, player), c, p);
        }
        assert forall|c: ChunkPosition|
            #[trigger] chunk_hold_count(holders@, c) == chunk_hold_count(old(holders)@, c)
                + if c == chunk { 1int } else { 0int } by {
            lemma_hold_count_push(old(holders)@, (chunk, player), c, player);
        }
    }
}

/// Releases one hold on `chunk` by `player` — the one acquired when the
/// chunk entered the session's view — and removes the chunk from the
/// session's holder set. Returns the release event for the storage
/// collaborator.
pub fn release_chunk(
    player: Entity,
    holder: &mut ChunkSet,
    holders: &mut ChunkHolders,
    chunk: ChunkPosition,
) -> (ev: ChunkHolderReleaseEvent)
    requires
        old(holder).wf(),
        old(holders).count_by(chunk, player) >= 1,
    ensures
        ev == (ChunkHolderReleaseEvent { chunk, player }),
        final(holder).wf(),
        forall|d: ChunkPosition| #[trigger] final(holder)@.contains(d)
            <==> (old(holder)@.contains(d) && d != chunk),
        final(holders).count_by(chunk, player) == old(holders).count_by(chunk, player) - 1,
        final(holders).count(chunk) == old(holders).count(chunk) - 1,
        forall|c: ChunkPosition, p: Entity| (c, p) != (chunk, player)
            ==> #[trigger] final(holders).count_by(c, p) == old(holders).count_by(c, p),
        forall|c: ChunkPosition| c != chunk
            ==> #[trigger] final(holders).count(c) == old(holders).count(c),
{
    proof {
        lemma_pair_count_positive_means_present(old(holders)@, chunk, player);
    }
    let removed = holders.remove_hold(chunk, player);
    proof {
        assert(removed);
        let i = choose|i: int|
            0 <= i < old(holders)@.len() && old(holders)@[i] == (chunk, player)
                && holders@ == old(holders)@.remove(i);
        assert forall|c: ChunkPosition, p: Entity|
            #[trigger] pair_hold_count(holders@, c, p) == pair_hold_count(old(holders)@, c, p)
                - if (c, p) == (chunk, player) { 1int } else { 0int } by {
            lemma_hold_count_remove(old(holders)@, i, c, p);
        }
        assert forall|c: ChunkPosition|
            #[trigger] chunk_hold_count(holders@, c) == chunk_hold_count(old(holders)@, c)
                - if c == chunk { 1int } else { 0int } by {
            lemma_hold_count_remove(old(holders)@, i, c, player);
        }
    }
    holder.remove(chunk);
    ChunkHolderReleaseEvent { chunk, player }
}

/// A positive pair count exhibits a matching hold.
proof fn lemma_pair_count_positive_means_present(s: Seq<Hold>, c: ChunkPosition, p: Entity)
    requires
        pair_hold_count(s, c, p) >= 1,
    ensures
        exists|i: int| 0 <= i < s.len() && s[i] == (c, p),
    decreases s.len(),
{
    if s.last() == (c, p) {
        assert(s[s.len() - 1] == (c, p));
    } else {
        lemma_pair_count_positive_means_present(s.drop_last(), c, p);
        let i = choose|i: int| 0 <= i < s.drop_last().len() && s.drop_last()[i] == (c, p);
        assert(s[i] == (c, p));
    }
}

/// Hold/release balance: acquiring a hold and then releasing one hold of the
/// same (chunk, session) pair — whichever matching hold the release takes —
/// leaves the chunk's hold count exactly where it began.
pub proof fn law_hold_release_balance(s: Seq<Hold>, c: ChunkPosition, p: Entity, idx: int)
    requires
        0 <= idx < s.push((c, p)).len(),
        s.push((c, p))[idx] == (c, p),
    ensures
        chunk_hold_count(s.push((c, p)).remove(idx), c) == chunk_hold_count(s, c),
        pair_hold_count(s.push((c, p)).remove(idx), c, p) == pair_hold_count(s, c, p),
{
    lemma_hold_count_push(s, (c, p), c, p);
    lemma_hold_count_remove(s.push((c, p)), idx, c, p);
}

/// A session's own hold keeps the chunk unevictable.
pub proof fn lemma_held_not_evictable(h: ChunkHolders, c: ChunkPosition, p: Entity)
    requires
        h.count_by(c, p) >= 1,
    ensures
        !h.evictable(c),
{
    lemma_pair_le_chunk(h@, c, p);
}

} // verus!
