//! Canvas State: the in-memory mapping from integer coordinates to colours.
//!
//! The canvas owns every placed cube. Placing at an occupied coordinate
//! overwrites it — the last writer wins, and replaying an event list is
//! therefore idempotent.

use vstd::prelude::*;

verus! {

use crate::Cube;
use crate::cube_in_bounds;

/// Some cube in `s` sits at position `p`.
pub open spec fn seq_has_pos(s: Seq<Cube>, p: (u32, u32, u32)) -> bool {
    exists|i: int| 0 <= i < s.len() && (#[trigger] s[i]).position == p
}

/// The index in `s` of a cube at position `p`.
pub open spec fn seq_pos_index(s: Seq<Cube>, p: (u32, u32, u32)) -> int {
    choose|i: int| 0 <= i < s.len() && (#[trigger] s[i]).position == p
}

/// The positions in `s` are pairwise distinct.
pub open spec fn positions_distinct(s: Seq<Cube>) -> bool {
    forall|i: int, j: int|
        0 <= i < j < s.len() ==> (#[trigger] s[i]).position != (#[trigger] s[j]).position
}

/// The colour map that a cube list denotes.
pub open spec fn seq_as_map(s: Seq<Cube>) -> Map<(u32, u32, u32), (u8, u8, u8)> {
    Map::new(
        |p: (u32, u32, u32)| seq_has_pos(s, p),
        |p: (u32, u32, u32)| s[seq_pos_index(s, p)].colour,
    )
}

/// The map after applying every placement in `s`, in order, to `m`.
pub open spec fn apply_all(m: Map<(u32, u32, u32), (u8, u8, u8)>, s: Seq<Cube>) -> Map<
    (u32, u32, u32),
    (u8, u8, u8),
>
    decreases s.len(),
{
    if s.len() == 0 {
        m
    } else {
        apply_all(m, s.drop_last()).insert(s.last().position, s.last().colour)
    }
}

/// The in-memory canvas: a fixed volume side length and the placed cubes.
pub struct Canvas {
    bound: u32,
    cells: Vec<Cube>,
}

impl View for Canvas {
    type V = Map<(u32, u32, u32), (u8, u8, u8)>;

    open spec fn view(&self) -> Map<(u32, u32, u32), (u8, u8, u8)> {
        seq_as_map(self.cubes())
    }
}

impl Canvas {
    /// The side length of the addressable volume.
    pub closed spec fn spec_bound(&self) -> u32 {
        self.bound
    }

    /// The placed cubes, one per occupied coordinate.
    pub closed spec fn cubes(&self) -> Seq<Cube> {
        self.cells@
    }

    /// Internal invariant: every stored coordinate lies inside the volume,
    /// and no coordinate is stored twice.
    pub open spec fn wf(&self) -> bool {
        &&& self.spec_bound() >= 1
        &&& positions_distinct(self.cubes())
        &&& forall|i: int|
            0 <= i < self.cubes().len() ==> cube_in_bounds(
                #[trigger] self.cubes()[i],
                self.spec_bound(),
            )
    }

    /// An empty canvas of side length `bound`.
    pub fn new(bound: u32) -> (c: Canvas)
        requires
            bound >= 1,
        ensures
            c.wf(),
            c.spec_bound() == bound,
            c@ == Map::<(u32, u32, u32), (u8, u8, u8)>::empty(),
            c.cubes() == Seq::<Cube>::empty(),
    {
        let c = Canvas { bound, cells: Vec::new() };
        proof {
            assert(c@ =~= Map::<(u32, u32, u32), (u8, u8, u8)>::empty());
        }
        c
    }

    /// The configured side length.
    pub fn bound(&self) -> (b: u32)
        ensures
            b == self.spec_bound(),
    {
        self.bound
    }

    /// How many coordinates are occupied.
    pub fn len(&self) -> (n: usize)
        ensures
            n == self.cubes().len(),
    {
        self.cells.len()
    }

    /// Place a cube, overwriting whatever sat at its coordinate.
    pub fn place(&mut self, cmd: Cube)
        requires
            old(self).wf(),
            cube_in_bounds(cmd, old(self).spec_bound()),
        ensures
            final(self).wf(),
            final(self).spec_bound() == old(self).spec_bound(),
            final(self)@ == old(self)@.insert(cmd.position, cmd.colour),
    {
        let n = self.cells.len();
        let mut i: usize = 0;
        while i < n
            invariant
                n == self.cells@.len(),
                i <= n,
                self.cells@ == old(self).cells@,
                self.bound == old(self).bound,
                old(self).wf(),
                cube_in_bounds(cmd, old(self).spec_bound()),
                forall|j: int| 0 <= j < i ==> (#[trigger] self.cells@[j]).position != cmd.position,
            decreases n - i,
        {
            let cell = self.cells[i];
            if cell.position.0 == cmd.position.0 && cell.position.1 == cmd.position.1
                && cell.position.2 == cmd.position.2 {
                assert(cell.position == cmd.position);
                self.cells.set(i, cmd);
                proof {
                    lemma_update_same_pos(old(self).cells@, i as int, cmd);
                }
                return ;
            }
            i = i + 1;
        }
        assert(!seq_has_pos(self.cells@, cmd.position));
        self.cells.push(cmd);
        proof {
            lemma_push_new_pos(old(self).cells@, cmd);
        }
    }

    /// The colour at a coordinate, if one was placed.
    pub fn get(&self, x: u32, y: u32, z: u32) -> (r: Option<(u8, u8, u8)>)
        requires
            self.wf(),
        ensures
            r == (if self@.dom().contains((x, y, z)) {
                Some(self@[(x, y, z)])
            } else {
                None::<(u8, u8, u8)>
            }),
    {
        let n = self.cells.len();
        let mut i: usize = 0;
        while i < n
            invariant
                n == self.cells@.len(),
                i <= n,
                self.wf(),
                forall|j: int| 0 <= j < i ==> (#[trigger] self.cells@[j]).position != (x, y, z),
            decreases n - i,
        {
            let cell = self.cells[i];
            if cell.position.0 == x && cell.position.1 == y && cell.position.2 == z {
                assert(cell.position == (x, y, z));
                proof {
                    lemma_distinct_index_unique(self.cells@, i as int, (x, y, z));
                }
                return Some((cell.colour.0, cell.colour.1, cell.colour.2));
            }
            i = i + 1;
        }
        assert(!seq_has_pos(self.cells@, (x, y, z)));
        None
    }

    /// A copy of the placed cubes, for building a frame.
    pub fn snapshot(&self) -> (r: Vec<Cube>)
        requires
            self.wf(),
        ensures
            r@ == self.cubes(),
            positions_distinct(r@),
            forall|i: int|
                0 <= i < r@.len() ==> self@.contains_pair(
                    (#[trigger] r@[i]).position,
                    r@[i].colour,
                ),
            forall|p: (u32, u32, u32)| self@.dom().contains(p) ==> seq_has_pos(r@, p),
    {
        let n = self.cells.len();
        let mut out: Vec<Cube> = Vec::new();
        let mut i: usize = 0;
        while i < n
            invariant
                n == self.cells@.len(),
                i <= n,
                out@ == self.cells@.take(i as int),
            decreases n - i,
        {
            out.push(self.cells[i]);
            proof {
                assert(self.cells@.take(i + 1) =~= self.cells@.take(i as int).push(
                    self.cells@[i as int],
                ));
            }
            i = i + 1;
        }
        assert(out@ =~= self.cells@);
        proof {
            assert forall|i: int| 0 <= i < out@.len() implies self@.contains_pair(
                (#[trigger] out@[i]).position,
                out@[i].colour,
            ) by {
                lemma_distinct_index_unique(self.cells@, i, out@[i].position);
            }
        }
        out
    }

    /// Replay an event list: place every event in order.
    pub fn load_all(&mut self, events: &Vec<Cube>)
        requires
            old(self).wf(),
            forall|i: int|
                0 <= i < events@.len() ==> cube_in_bounds(
                    #[trigger] events@[i],
                    old(self).spec_bound(),
                ),
        ensures
            final(self).wf(),
            final(self).spec_bound() == old(self).spec_bound(),
            final(self)@ == apply_all(old(self)@, events@),
    {
        let n = events.len();
        let mut i: usize = 0;
        while i < n
            invariant
                n == events@.len(),
                i <= n,
                self.wf(),
                self.spec_bound() == old(self).spec_bound(),
                forall|j: int|
                    0 <= j < events@.len() ==> cube_in_bounds(
                        #[trigger] events@[j],
                        old(self).spec_bound(),
                    ),
                self@ == apply_all(old(self)@, events@.take(i as int)),
            decreases n - i,
        {
            let c = events[i];
            proof {
                assert(events@.take(i + 1).drop_last() =~= events@.take(i as int));
                assert(events@.take(i + 1).last() == events@[i as int]);
            }
            self.place(c);
            i = i + 1;
        }
        assert(events@.take(n as int) =~= events@);
    }
}

/// The index of the last cube in `s` at position `p`.
pub open spec fn last_pos_index(s: Seq<Cube>, p: (u32, u32, u32)) -> int
    decreases s.len(),
{
    if s.len() == 0 {
        0
    } else if s.last().position == p {
        s.len() - 1
    } else {
        last_pos_index(s.drop_last(), p)
    }
}

/// The colour of the last cube in `s` at position `p`.
pub open spec fn last_colour(s: Seq<Cube>, p: (u32, u32, u32)) -> (u8, u8, u8) {
    s[last_pos_index(s, p)].colour
}

/// Replay writes an occupied coordinate with the colour of the last event at
/// it, whatever the map held before.
pub proof fn lemma_apply_all_hit(
    m: Map<(u32, u32, u32), (u8, u8, u8)>,
    s: Seq<Cube>,
    p: (u32, u32, u32),
)
    requires
        seq_has_pos(s, p),
    ensures
        apply_all(m, s).dom().contains(p),
        apply_all(m, s)[p] == last_colour(s, p),
        0 <= last_pos_index(s, p) < s.len(),
        s[last_pos_index(s, p)].position == p,
    decreases s.len(),
{
    let j = choose|j: int| 0 <= j < s.len() && (#[trigger] s[j]).position == p;
    if s.last().position == p {
    } else {
        assert(j < s.len() - 1);
        assert(s.drop_last()[j] == s[j]);
        assert(seq_has_pos(s.drop_last(), p));
        lemma_apply_all_hit(m, s.drop_last(), p);
        assert(s.drop_last()[last_pos_index(s.drop_last(), p)] == s[last_pos_index(s, p)]);
    }
}

/// Replay leaves a coordinate that no event touches exactly as it was.
pub proof fn lemma_apply_all_miss(
    m: Map<(u32, u32, u32), (u8, u8, u8)>,
    s: Seq<Cube>,
    p: (u32, u32, u32),
)
    requires
        !seq_has_pos(s, p),
    ensures
        apply_all(m, s).dom().contains(p) == m.dom().contains(p),
        m.dom().contains(p) ==> apply_all(m, s)[p] == m[p],
    decreases s.len(),
{
    if s.len() > 0 {
        assert(forall|j: int|
            0 <= j < s.drop_last().len() ==> #[trigger] s.drop_last()[j] == s[j]);
        assert(!seq_has_pos(s.drop_last(), p));
        lemma_apply_all_miss(m, s.drop_last(), p);
        assert(s.last().position != p) by {
            assert(s[s.len() - 1].position != p);
        }
    }
}

/// Last writer wins: two placements at one coordinate, applied in sequence,
/// leave exactly the second one's colour there, whatever came before them.
pub proof fn lemma_last_writer_wins(
    m: Map<(u32, u32, u32), (u8, u8, u8)>,
    c1: Cube,
    c2: Cube,
)
    requires
        c1.position == c2.position,
    ensures
        apply_all(m, seq![c1, c2]) == m.insert(c2.position, c2.colour),
{
    let s = seq![c1, c2];
    let s1 = seq![c1];
    assert(s.drop_last() =~= s1);
    assert(s1.drop_last() =~= Seq::<Cube>::empty());
    assert(apply_all(m, Seq::<Cube>::empty()) == m);
    assert(s1.last() == c1);
    assert(apply_all(m, s1) == m.insert(c1.position, c1.colour));
    assert(s.last() == c2);
    assert(apply_all(m, s) == apply_all(m, s1).insert(c2.position, c2.colour));
    assert(m.insert(c1.position, c1.colour).insert(c2.position, c2.colour) =~= m.insert(
        c2.position,
        c2.colour,
    ));
}

/// During a replay, the later of two commands at one coordinate wins: after
/// any prefix, replaying the pair leaves exactly the second colour there.
pub proof fn lemma_replay_last_writer_wins(
    m: Map<(u32, u32, u32), (u8, u8, u8)>,
    s: Seq<Cube>,
    c1: Cube,
    c2: Cube,
)
    requires
        c1.position == c2.position,
    ensures
        apply_all(m, s.push(c1).push(c2)) == apply_all(m, s).insert(c2.position, c2.colour),
{
    assert(s.push(c1).push(c2).drop_last() =~= s.push(c1));
    assert(s.push(c1).drop_last() =~= s);
    assert(s.push(c1).push(c2).last() == c2);
    assert(s.push(c1).last() == c1);
    assert(apply_all(m, s.push(c1)) == apply_all(m, s).insert(c1.position, c1.colour));
    assert(apply_all(m, s.push(c1).push(c2)) == apply_all(m, s).insert(
        c1.position,
        c1.colour,
    ).insert(c2.position, c2.colour));
    assert(apply_all(m, s).insert(c1.position, c1.colour).insert(c2.position, c2.colour)
        =~= apply_all(m, s).insert(c2.position, c2.colour));
}

/// Replaying one event list twice yields the same map as replaying it once:
/// every coordinate the list touches ends at its last colour either way, and
/// every other coordinate is never moved.
pub proof fn lemma_apply_all_idempotent(m: Map<(u32, u32, u32), (u8, u8, u8)>, s: Seq<Cube>)
    ensures
        apply_all(apply_all(m, s), s) == apply_all(m, s),
{
    let m1 = apply_all(m, s);
    let m2 = apply_all(m1, s);
    assert forall|p: (u32, u32, u32)| #[trigger] m2.dom().contains(p) == m1.dom().contains(p) by {
        if seq_has_pos(s, p) {
            lemma_apply_all_hit(m, s, p);
            lemma_apply_all_hit(m1, s, p);
        } else {
            lemma_apply_all_miss(m, s, p);
            lemma_apply_all_miss(m1, s, p);
        }
    }
    assert forall|p: (u32, u32, u32)| m1.dom().contains(p) implies #[trigger] m2[p] == m1[p] by {
        if seq_has_pos(s, p) {
            lemma_apply_all_hit(m, s, p);
            lemma_apply_all_hit(m1, s, p);
        } else {
            lemma_apply_all_miss(m, s, p);
            lemma_apply_all_miss(m1, s, p);
        }
    }
    assert(m2.dom() =~= m1.dom());
    assert(m2 =~= m1);
}

/// In a duplicate-free list, the chosen index for position `p` is the only
/// index holding `p`.
proof fn lemma_distinct_index_unique(s: Seq<Cube>, i: int, p: (u32, u32, u32))
    requires
        positions_distinct(s),
        0 <= i < s.len(),
        s[i].position == p,
    ensures
        seq_has_pos(s, p),
        seq_pos_index(s, p) == i,
        seq_as_map(s).contains_pair(p, s[i].colour),
{
    assert(seq_has_pos(s, p));
    let j = seq_pos_index(s, p);
    assert(0 <= j < s.len() && s[j].position == p);
    if i != j {
        assert(s[i].position != s[j].position);
    }
}

/// Overwriting the cube at an occupied coordinate updates the denoted map at
/// exactly that key.
proof fn lemma_update_same_pos(s0: Seq<Cube>, i: int, c: Cube)
    requires
        positions_distinct(s0),
        0 <= i < s0.len(),
        s0[i].position == c.position,
    ensures
        positions_distinct(s0.update(i, c)),
        seq_as_map(s0.update(i, c)) =~= seq_as_map(s0).insert(c.position, c.colour),
        forall|j: int|
            0 <= j < s0.len() ==> (#[trigger] s0.update(i, c)[j]).position == s0[j].position,
{
    let s1 = s0.update(i, c);
    let p = c.position;
    assert(forall|j: int| 0 <= j < s0.len() ==> (#[trigger] s1[j]).position == s0[j].position);
    assert forall|q: (u32, u32, u32)| #[trigger] seq_has_pos(s1, q) implies seq_has_pos(s0, q) by {
        let j = choose|j: int| 0 <= j < s1.len() && (#[trigger] s1[j]).position == q;
        assert(s0[j].position == q);
    }
    assert forall|q: (u32, u32, u32)| #[trigger] seq_has_pos(s0, q) implies seq_has_pos(s1, q) by {
        let j = choose|j: int| 0 <= j < s0.len() && (#[trigger] s0[j]).position == q;
        assert(s1[j].position == q);
    }
    assert(seq_has_pos(s0, p));
    assert forall|q: (u32, u32, u32)| #[trigger] seq_has_pos(s1, q) implies seq_as_map(s1)[q]
        == seq_as_map(s0).insert(p, c.colour)[q] by {
        let j = seq_pos_index(s1, q);
        assert(0 <= j < s1.len() && s1[j].position == q);
        if q == p {
            if j != i {
                assert(s0[j].position != s0[i].position);
                assert(false);
            }
            assert(seq_as_map(s1)[q] == c.colour);
        } else {
            assert(j != i);
            assert(s0[j].position == q);
            lemma_distinct_index_unique(s0, j, q);
            assert(seq_as_map(s1)[q] == s1[j].colour);
            assert(seq_as_map(s0)[q] == s0[j].colour);
        }
    }
    assert(seq_as_map(s1).dom() =~= seq_as_map(s0).insert(p, c.colour).dom());
    assert(seq_as_map(s1) =~= seq_as_map(s0).insert(p, c.colour));
}

/// Placing at a fresh coordinate extends the denoted map at exactly that key.
proof fn lemma_push_new_pos(s0: Seq<Cube>, c: Cube)
    requires
        positions_distinct(s0),
        !seq_has_pos(s0, c.position),
    ensures
        positions_distinct(s0.push(c)),
        seq_as_map(s0.push(c)) =~= seq_as_map(s0).insert(c.position, c.colour),
{
    let s1 = s0.push(c);
    let p = c.position;
    assert(forall|j: int| 0 <= j < s0.len() ==> s1[j] == #[trigger] s0[j]);
    assert(s1[s0.len() as int] == c);
    assert forall|j: int, k: int| 0 <= j < k < s1.len() implies (#[trigger] s1[j]).position != (
    #[trigger] s1[k]).position by {
        if k < s0.len() {
            assert(s0[j].position != s0[k].position);
        } else {
            assert(s1[k] == c);
            assert(s0[j].position != p);
        }
    }
    assert forall|q: (u32, u32, u32)| #[trigger] seq_has_pos(s1, q) implies (q == p || seq_has_pos(
        s0,
        q,
    )) by {
        let j = choose|j: int| 0 <= j < s1.len() && (#[trigger] s1[j]).position == q;
        if j < s0.len() {
            assert(s0[j].position == q);
        }
    }
    assert forall|q: (u32, u32, u32)| #[trigger] seq_has_pos(s0, q) implies seq_has_pos(s1, q) by {
        let j = choose|j: int| 0 <= j < s0.len() && (#[trigger] s0[j]).position == q;
        assert(s1[j].position == q);
    }
    assert(seq_has_pos(s1, p)) by {
        assert(s1[s0.len() as int].position == p);
    }
    assert forall|q: (u32, u32, u32)| #[trigger] seq_has_pos(s1, q) implies seq_as_map(s1)[q]
        == seq_as_map(s0).insert(p, c.colour)[q] by {
        let j = seq_pos_index(s1, q);
        assert(0 <= j < s1.len() && s1[j].position == q);
        if q == p {
            if j < s0.len() {
                assert(s0[j].position == p);
                assert(false);
            }
            assert(seq_as_map(s1)[q] == c.colour);
        } else {
            assert(j < s0.len());
            assert(s0[j].position == q);
            lemma_distinct_index_unique(s0, j, q);
            assert(seq_as_map(s1)[q] == s1[j].colour);
            assert(seq_as_map(s0)[q] == s0[j].colour);
        }
    }
    assert(seq_as_map(s1).dom() =~= seq_as_map(s0).insert(p, c.colour).dom());
    assert(seq_as_map(s1) =~= seq_as_map(s0).insert(p, c.colour));
}

} // verus!
