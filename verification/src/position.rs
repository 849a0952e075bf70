//! Positions, chunk coordinates and sets of chunk coordinates.
//!
//! Positions are stored in thousandths of a block, so sub-block movement is
//! representable without floating point; chunk membership is floor division
//! of the horizontal coordinates by the width of a chunk.

use vstd::prelude::*;

verus! {

use vstd::arithmetic::div_mod::{lemma_fundamental_div_mod, lemma_mod_bound};

broadcast use vstd::seq_lib::lemma_seq_contains_after_push;

/// Position units in one block.
pub const UNITS_PER_BLOCK: i64 = 1000;

/// Width of a chunk, in blocks.
pub const CHUNK_WIDTH: i64 = 16;

/// Position units spanned by one chunk: `CHUNK_WIDTH * UNITS_PER_BLOCK`.
pub const CHUNK_UNITS: i64 = 16000;

/// Greatest horizontal coordinate magnitude the world admits, in position
/// units (thirty million blocks from the origin).
pub const MAX_COORD: i64 = 30_000_000_000;

/// Integer chunk coordinates; one chunk is a `CHUNK_WIDTH` by `CHUNK_WIDTH`
/// column of terrain.
#[derive(Clone, Copy, Debug, Hash, PartialEq, Eq, Structural)]
pub struct ChunkPosition {
    pub x: i32,
    pub z: i32,
}

/// Magnitude of `v`.
pub open spec fn abs_int(v: int) -> int {
    if v < 0 {
        -v
    } else {
        v
    }
}

impl ChunkPosition {
    pub fn new(x: i32, z: i32) -> (c: ChunkPosition)
        ensures
            c == (ChunkPosition { x, z }),
    {
        ChunkPosition { x, z }
    }

    /// Manhattan distance between two chunk coordinates.
    pub open spec fn spec_manhattan_distance(self, other: ChunkPosition) -> int {
        abs_int(self.x - other.x) + abs_int(self.z - other.z)
    }

    pub fn manhattan_distance(&self, other: ChunkPosition) -> (d: i64)
        ensures
            d == self.spec_manhattan_distance(other),
            d >= 0,
    {
        let dx: i64 = self.x as i64 - other.x as i64;
        let dz: i64 = self.z as i64 - other.z as i64;
        let ax: i64 = if dx < 0 { -dx } else { dx };
        let az: i64 = if dz < 0 { -dz } else { dz };
        ax + az
    }
}

/// A loaded column of terrain. The storage collaborator owns the block
/// data; the core only reads where the chunk stands.
#[derive(Clone, Copy, Debug, PartialEq, Eq, Structural)]
pub struct Chunk {
    pub position: ChunkPosition,
}

impl Chunk {
    pub fn position(&self) -> (c: ChunkPosition)
        ensures
            c == self.position,
    {
        self.position
    }
}

/// World position in position units. The vertical coordinate never affects
/// chunk membership.
#[derive(Clone, Copy, Debug, PartialEq, Eq, Structural)]
pub struct Position {
    pub x: i64,
    pub y: i64,
    pub z: i64,
}

impl Position {
    /// A position the world admits.
    pub open spec fn wf(self) -> bool {
        &&& -MAX_COORD <= self.x <= MAX_COORD
        &&& -MAX_COORD <= self.z <= MAX_COORD
    }

    /// The chunk containing this position: floor division of each horizontal
    /// coordinate by `CHUNK_UNITS`.
    pub open spec fn spec_chunk_pos(self) -> ChunkPosition {
        ChunkPosition {
            x: (self.x as int / (CHUNK_UNITS as int)) as i32,
            z: (self.z as int / (CHUNK_UNITS as int)) as i32,
        }
    }

    pub fn chunk_pos(&self) -> (c: ChunkPosition)
        requires
            self.wf(),
        ensures
            c == self.spec_chunk_pos(),
            -1_875_001 <= c.x as int <= 1_875_000,
            -1_875_001 <= c.z as int <= 1_875_000,
    {
        ChunkPosition { x: chunk_coord(self.x), z: chunk_coord(self.z) }
    }
}

/// Bounds on a floor-division quotient, tight enough to place chunk
/// coordinates of admissible positions well inside `i32`.
proof fn lemma_chunk_coord_bounds(v: int)
    requires
        -MAX_COORD <= v <= MAX_COORD,
    ensures
        -1_875_001 <= v / (CHUNK_UNITS as int) <= 1_875_000,
{
    let d = CHUNK_UNITS as int;
    let q = v / d;
    let r = v % d;
    lemma_fundamental_div_mod(v, d);
    lemma_mod_bound(v, d);
    assert(-1_875_001 <= q <= 1_875_000) by (nonlinear_arith)
        requires
            v == d * q + r,
            0 <= r < d,
            d == 16000,
            -30_000_000_000 <= v <= 30_000_000_000,
    ;
}

/// Floor division of a coordinate by `CHUNK_UNITS`.
fn chunk_coord(v: i64) -> (c: i32)
    requires
        -MAX_COORD <= v <= MAX_COORD,
    ensures
        c as int == v as int / (CHUNK_UNITS as int),
        -1_875_001 <= c as int <= 1_875_000,
{
    proof {
        lemma_chunk_coord_bounds(v as int);
    }
    let q: i64 = v.checked_div_euclid(CHUNK_UNITS).unwrap();
    q as i32
}

/// A set of chunk coordinates, kept as a duplicate-free vector so that both
/// membership and cardinality are plain facts about the underlying sequence.
pub struct ChunkSet {
    items: Vec<ChunkPosition>,
}

impl View for ChunkSet {
    type V = Seq<ChunkPosition>;

    closed spec fn view(&self) -> Seq<ChunkPosition> {
        self.items@
    }
}

impl ChunkSet {
    /// No chunk appears twice.
    pub open spec fn wf(self) -> bool {
        self@.no_duplicates()
    }

    pub fn new() -> (s: ChunkSet)
        ensures
            s@ == Seq::<ChunkPosition>::empty(),
            s.wf(),
    {
        ChunkSet { items: Vec::new() }
    }

    /// Wraps a vector already free of duplicates.
    pub fn from_distinct_vec(items: Vec<ChunkPosition>) -> (s: ChunkSet)
        requires
            items@.no_duplicates(),
        ensures
            s@ == items@,
            s.wf(),
    {
        ChunkSet { items }
    }

    pub fn len(&self) -> (n: usize)
        ensures
            n == self@.len(),
    {
        self.items.len()
    }

    pub fn get(&self, i: usize) -> (c: ChunkPosition)
        requires
            i < self@.len(),
        ensures
            c == self@[i as int],
    {
        self.items[i]
    }

    pub fn contains(&self, c: ChunkPosition) -> (present: bool)
        ensures
            present == self@.contains(c),
    {
        let mut i: usize = 0;
        while i < self.items.len()
            invariant
                i <= self.items.len(),
                forall|j: int| 0 <= j < i ==> self.items@[j] != c,
            decreases self.items.len() - i,
        {
            if self.items[i] == c {
                return true;
            }
            i += 1;
        }
        false
    }

    /// Adds `c` unless it is already present.
    pub fn insert(&mut self, c: ChunkPosition)
        ensures
            old(self)@.contains(c) ==> final(self)@ == old(self)@,
            !old(self)@.contains(c) ==> final(self)@ == old(self)@.push(c),
            old(self).wf() ==> final(self).wf(),
    {
        if !self.contains(c) {
            self.items.push(c);
        }
    }

    /// Removes `c` if present; membership of everything else is unchanged.
    pub fn remove(&mut self, c: ChunkPosition)
        requires
            old(self).wf(),
        ensures
            final(self).wf(),
            forall|d: ChunkPosition| #[trigger] final(self)@.contains(d)
                <==> (old(self)@.contains(d) && d != c),
            final(self)@.len() == if old(self)@.contains(c) {
                old(self)@.len() - 1
            } else {
                old(self)@.len() as int
            },
    {
        let ghost orig = self.items@;
        let mut out: Vec<ChunkPosition> = Vec::new();
        let mut i: usize = 0;
        while i < self.items.len()
            invariant
                i <= self.items.len(),
                self.items@ == orig,
                orig.no_duplicates(),
                out@.no_duplicates(),
                forall|d: ChunkPosition| #[trigger] out@.contains(d)
                    <==> ((exists|j: int| 0 <= j < i && orig[j] == d) && d != c),
                out@.len() == if exists|j: int| 0 <= j < i && orig[j] == c {
                    i - 1
                } else {
                    i as int
                },
            decreases self.items.len() - i,
        {
            let x = self.items[i];
            if x != c {
                proof {
                    assert(!out@.contains(x));
                }
                out.push(x);
            }
            proof {
                assert(orig[i as int] == x);
            }
            i += 1;
        }
        proof {
            assert(forall|d: ChunkPosition| #[trigger] orig.contains(d)
                <==> exists|j: int| 0 <= j < orig.len() && orig[j] == d);
        }
        self.items = out;
    }

    /// The chunks of `self` that are not in `other`, in the order `self`
    /// holds them.
    pub fn difference(&self, other: &ChunkSet) -> (r: ChunkSet)
        requires
            self.wf(),
        ensures
            r.wf(),
            forall|c: ChunkPosition| #[trigger] r@.contains(c)
                <==> (self@.contains(c) && !other@.contains(c)),
    {
        let mut out: Vec<ChunkPosition> = Vec::new();
        let mut i: usize = 0;
        while i < self.items.len()
            invariant
                i <= self.items.len(),
                self.wf(),
                out@.no_duplicates(),
                forall|c: ChunkPosition| #[trigger] out@.contains(c)
                    <==> (exists|j: int|
                        0 <= j < i && self.items@[j] == c) && !other@.contains(c),
            decreases self.items.len() - i,
        {
            let c = self.items[i];
            if !other.contains(c) {
                proof {
                    assert(!out@.contains(c)) by {
                        assert(self.items@.no_duplicates());
                    }
                }
                out.push(c);
            }
            i += 1;
        }
        proof {
            assert(forall|c: ChunkPosition| #[trigger] self.items@.contains(c)
                <==> exists|j: int| 0 <= j < self.items@.len() && self.items@[j] == c);
        }
        ChunkSet { items: out }
    }

    /// The members as a vector, in the order the set holds them.
    pub fn to_vec(&self) -> (v: Vec<ChunkPosition>)
        ensures
            v@ == self@,
    {
        let mut v: Vec<ChunkPosition> = Vec::new();
        let mut i: usize = 0;
        while i < self.items.len()
            invariant
                i <= self.items.len(),
                v@ == self.items@.take(i as int),
            decreases self.items.len() - i,
        {
            v.push(self.items[i]);
            proof {
                assert(v@ =~= self.items@.take(i + 1));
            }
            i += 1;
        }
        proof {
            assert(v@ =~= self.items@);
        }
        v
    }
}

} // verus!
