use vstd::prelude::*;
use crate::map::FloorMap;

verus! {

/// `a` and `b` are orthogonal neighbours on the grid.
pub open spec fn adjacent(a: (i32, i32), b: (i32, i32)) -> bool {
    ||| a.0 == b.0 && (a.1 - b.1 == 1 || b.1 - a.1 == 1)
    ||| a.1 == b.1 && (a.0 - b.0 == 1 || b.0 - a.0 == 1)
}

/// A cell that path-finding may enter: passable and not blocked by a closed door.
pub open spec fn open_cell(m: &FloorMap, closed: Seq<(i32, i32)>, p: (i32, i32)) -> bool {
    m.passable_at(p.0 as int, p.1 as int) && !closed.contains(p)
}

/// `steps` is a walk that leaves `start`: each step moves to an orthogonal
/// neighbour, and every cell stepped on is open.
pub open spec fn is_walk(
    m: &FloorMap,
    closed: Seq<(i32, i32)>,
    start: (i32, i32),
    steps: Seq<(i32, i32)>,
) -> bool {
    &&& forall|i: int| 0 <= i < steps.len() ==> open_cell(m, closed, #[trigger] steps[i])
    &&& steps.len() > 0 ==> adjacent(start, steps[0])
    &&& forall|i: int| 0 < i < steps.len() ==> adjacent(#[trigger] steps[i - 1], steps[i])
}

/// Some walk from `start` ends on `goal`.
pub open spec fn reachable(
    m: &FloorMap,
    closed: Seq<(i32, i32)>,
    start: (i32, i32),
    goal: (i32, i32),
) -> bool {
    exists|steps: Seq<(i32, i32)>|
        #[trigger] is_walk(m, closed, start, steps) && steps.len() > 0 && steps.last() == goal
}

/// Every walk from `start` that ends on `goal` takes at least `n` steps.
pub open spec fn no_shorter_walk(
    m: &FloorMap,
    closed: Seq<(i32, i32)>,
    start: (i32, i32),
    goal: (i32, i32),
    n: int,
) -> bool {
    forall|steps: Seq<(i32, i32)>|
        #[trigger] is_walk(m, closed, start, steps) && steps.len() > 0 && steps.last() == goal ==> n <= steps.len()
}

/// Number of `false` entries.
pub open spec fn count_false(s: Seq<bool>) -> nat
    decreases s.len(),
{
    if s.len() == 0 {
        0
    } else {
        count_false(s.drop_last()) + if s.last() { 0nat } else { 1nat }
    }
}

proof fn lemma_count_false_update(s: Seq<bool>, i: int)
    requires
        0 <= i < s.len(),
        !s[i],
    ensures
        count_false(s.update(i, true)) + 1 == count_false(s),
    decreases s.len(),
{
    let t = s.update(i, true);
    if i == s.len() - 1 {
        assert(t.drop_last() =~= s.drop_last());
    } else {
        assert(t.drop_last() =~= s.drop_last().update(i, true));
        lemma_count_false_update(s.drop_last(), i);
    }
}

/// An orthogonal neighbour of `p` is one of its four neighbour cells.
proof fn lemma_nbr_of(p: (i32, i32), q: (i32, i32))
    requires
        adjacent(p, q),
    ensures
        q == (p.0, (p.1 + 1) as i32) || q == (p.0, (p.1 - 1) as i32) || q == ((p.0 + 1) as i32, p.1)
            || q == ((p.0 - 1) as i32, p.1),
{
}

/// Whether `p` occurs in `v`.
pub fn contains_pos(v: &Vec<(i32, i32)>, p: (i32, i32)) -> (b: bool)
    ensures
        b == v@.contains(p),
{
    let mut i: usize = 0;
    while i < v.len()
        invariant
            i <= v@.len(),
            forall|j: int| 0 <= j < i ==> v@[j] != p,
        decreases v@.len() - i,
    {
        if v[i].0 == p.0 && v[i].1 == p.1 {
            assert(v@[i as int] == p);
            return true;
        }
        i = i + 1;
    }
    false
}

/// Breadth-first search bookkeeping over the cells of one floor.
struct Search {
    /// Per cell: reached already.
    seen: Vec<bool>,
    /// Per reached cell: the cell it was reached from.
    parent: Vec<(i32, i32)>,
    /// Per reached cell: its position in `order`.
    rank: Vec<usize>,
    /// Reached cells in the order they were reached; `order[0]` is the start.
    order: Vec<(i32, i32)>,
    /// Per entry of `order`: the number of steps back to the start along parents.
    dist: Ghost<Seq<int>>,
}

impl Search {
    spec fn visited(&self, m: &FloorMap, start: (i32, i32), p: (i32, i32)) -> bool {
        p == start || (m.in_bounds_spec(p.0 as int, p.1 as int) && self.seen@[m.idx_spec(p.0 as int, p.1 as int)])
    }

    /// Position in `order` of a reached cell.
    spec fn pos_of(&self, m: &FloorMap, start: (i32, i32), p: (i32, i32)) -> int {
        if p == start {
            0
        } else {
            self.rank@[m.idx_spec(p.0 as int, p.1 as int)] as int
        }
    }

    /// Steps back to the start from a reached cell.
    spec fn dist_of(&self, m: &FloorMap, start: (i32, i32), p: (i32, i32)) -> int {
        self.dist@[self.pos_of(m, start, p)]
    }

    spec fn inv(&self, m: &FloorMap, closed: Seq<(i32, i32)>, start: (i32, i32)) -> bool {
        &&& m.wf()
        &&& self.seen@.len() == m.tiles@.len()
        &&& self.parent@.len() == m.tiles@.len()
        &&& self.rank@.len() == m.tiles@.len()
        &&& self.order@.len() >= 1
        &&& self.order@[0] == start
        &&& self.dist@.len() == self.order@.len()
        &&& self.dist@[0] == 0
        &&& forall|i: int, j: int| 0 <= i <= j < self.dist@.len() ==> #[trigger] self.dist@[i] <= #[trigger] self.dist@[j]
        &&& m.in_bounds_spec(start.0 as int, start.1 as int) ==> self.seen@[m.idx_spec(
            start.0 as int,
            start.1 as int,
        )] && self.rank@[m.idx_spec(start.0 as int, start.1 as int)] == 0
        &&& forall|i: int|
            #![trigger self.order@[i]]
            1 <= i < self.order@.len() ==> {
                let p = self.order@[i];
                &&& p != start
                &&& open_cell(m, closed, p)
                &&& m.in_bounds_spec(p.0 as int, p.1 as int)
                &&& self.seen@[m.idx_spec(p.0 as int, p.1 as int)]
                &&& self.rank@[m.idx_spec(p.0 as int, p.1 as int)] == i
                &&& self.visited(m, start, self.parent@[m.idx_spec(p.0 as int, p.1 as int)])
                &&& adjacent(self.parent@[m.idx_spec(p.0 as int, p.1 as int)], p)
                &&& self.pos_of(m, start, self.parent@[m.idx_spec(p.0 as int, p.1 as int)]) < i
                &&& self.dist@[i] == self.dist_of(m, start, self.parent@[m.idx_spec(p.0 as int, p.1 as int)]) + 1
            }
        &&& forall|x: int, y: int|
            #![trigger self.seen@[m.idx_spec(x, y)]]
            m.in_bounds_spec(x, y) && self.seen@[m.idx_spec(x, y)] ==> {
                let r = self.rank@[m.idx_spec(x, y)] as int;
                &&& r < self.order@.len()
                &&& self.order@[r] == (x as i32, y as i32)
            }
    }

    /// Every cell reached so far stays reached.
    spec fn grows_from(&self, old: &Search, m: &FloorMap, start: (i32, i32)) -> bool {
        &&& self.order@.len() >= old.order@.len()
        &&& forall|i: int| 0 <= i < old.order@.len() ==> #[trigger] self.order@[i] == old.order@[i]
        &&& forall|i: int| 0 <= i < old.order@.len() ==> #[trigger] self.dist@[i] == old.dist@[i]
        &&& forall|p: (i32, i32)| #[trigger] old.visited(m, start, p) ==> self.visited(m, start, p)
            && self.pos_of(m, start, p) == old.pos_of(m, start, p)
    }

    proof fn lemma_visited_pos(&self, m: &FloorMap, closed: Seq<(i32, i32)>, start: (i32, i32), p: (i32, i32))
        requires
            self.inv(m, closed, start),
            self.visited(m, start, p),
        ensures
            0 <= self.pos_of(m, start, p) < self.order@.len(),
            self.order@[self.pos_of(m, start, p)] == p,
            p != start ==> self.pos_of(m, start, p) >= 1,
    {
        if p != start {
            let x = p.0 as int;
            let y = p.1 as int;
            assert(self.seen@[m.idx_spec(x, y)]);
            let r = self.rank@[m.idx_spec(x, y)] as int;
            assert(self.order@[r] == (x as i32, y as i32));
            if r == 0 {
                assert(self.order@[0] == start);
            }
        }
    }

    /// The entry at position `i` of `order` sits at position `i`.
    proof fn lemma_order_pos(&self, m: &FloorMap, closed: Seq<(i32, i32)>, start: (i32, i32), i: int)
        requires
            self.inv(m, closed, start),
            0 <= i < self.order@.len(),
        ensures
            self.visited(m, start, self.order@[i]),
            self.pos_of(m, start, self.order@[i]) == i,
    {
        if i > 0 {
            let p = self.order@[i];
            assert(p != start);
        }
    }

    /// Reach `next` from `order[from]` unless it is closed off or reached
    /// already; a newly reached cell is one step further from the start than
    /// `order[from]`.
    fn try_visit(
        &mut self,
        m: &FloorMap,
        closed: &Vec<(i32, i32)>,
        start: (i32, i32),
        from: usize,
        next: (i32, i32),
    )
        requires
            old(self).inv(m, closed@, start),
            from < old(self).order@.len(),
            adjacent(old(self).order@[from as int], next),
            old(self).dist@[old(self).order@.len() - 1] <= old(self).dist@[from as int] + 1,
        ensures
            final(self).inv(m, closed@, start),
            final(self).grows_from(old(self), m, start),
            open_cell(m, closed@, next) ==> final(self).visited(m, start, next)
                && final(self).dist_of(m, start, next) <= old(self).dist@[from as int] + 1,
            final(self).dist@[final(self).order@.len() - 1] <= old(self).dist@[from as int] + 1,
            count_false(final(self).seen@) * 2 + final(self).order@.len() <= count_false(
                old(self).seen@,
            ) * 2 + old(self).order@.len(),
    {
        let ghost old_self = *self;
        if m.is_passable(next.0, next.1) && !contains_pos(closed, next) {
            let ni = m.idx(next.0, next.1);
            if !(next.0 == start.0 && next.1 == start.1) && !self.seen[ni] {
                let from_cell = self.order[from];
                let rank_new = self.order.len();
                proof {
                    old_self.lemma_visited_pos(m, closed@, start, from_cell);
                    old_self.lemma_order_pos(m, closed@, start, from as int);
                    lemma_count_false_update(self.seen@, ni as int);
                    m.lemma_idx(next.0 as int, next.1 as int);
                }
                self.seen.set(ni, true);
                self.parent.set(ni, from_cell);
                self.rank.set(ni, rank_new);
                self.order.push(next);
                self.dist = Ghost(self.dist@.push(self.dist@[from as int] + 1));
                proof {
                    let s = *self;
                    let d_new = old_self.dist@[from as int] + 1;
                    assert forall|p: (i32, i32)| #[trigger] old_self.visited(m, start, p)
                        implies s.visited(m, start, p) && s.pos_of(m, start, p) == old_self.pos_of(m, start, p) by {
                        if p != start {
                            m.lemma_idx(p.0 as int, p.1 as int);
                        }
                    }
                    assert(s.pos_of(m, start, from_cell) == from);
                    assert forall|i: int, j: int| 0 <= i <= j < s.dist@.len() implies
                        #[trigger] s.dist@[i] <= #[trigger] s.dist@[j] by {
                        if j < old_self.dist@.len() {
                            assert(old_self.dist@[i] <= old_self.dist@[j]);
                        } else if i < old_self.dist@.len() {
                            assert(old_self.dist@[i] <= old_self.dist@[old_self.dist@.len() - 1]);
                        }
                    }
                    assert forall|i: int| #![trigger s.order@[i]] 1 <= i < s.order@.len() implies {
                        let p = s.order@[i];
                        &&& p != start
                        &&& open_cell(m, closed@, p)
                        &&& m.in_bounds_spec(p.0 as int, p.1 as int)
                        &&& s.seen@[m.idx_spec(p.0 as int, p.1 as int)]
                        &&& s.rank@[m.idx_spec(p.0 as int, p.1 as int)] == i
                        &&& s.visited(m, start, s.parent@[m.idx_spec(p.0 as int, p.1 as int)])
                        &&& adjacent(s.parent@[m.idx_spec(p.0 as int, p.1 as int)], p)
                        &&& s.pos_of(m, start, s.parent@[m.idx_spec(p.0 as int, p.1 as int)]) < i
                        &&& s.dist@[i] == s.dist_of(m, start, s.parent@[m.idx_spec(p.0 as int, p.1 as int)]) + 1
                    } by {
                        let p = s.order@[i];
                        if i < old_self.order@.len() {
                            assert(old_self.order@[i] == p);
                            let pi = m.idx_spec(p.0 as int, p.1 as int);
                            m.lemma_idx(p.0 as int, p.1 as int);
                            assert(pi != ni as int);
                            let q = old_self.parent@[pi];
                            assert(s.parent@[pi] == q);
                            assert(old_self.visited(m, start, q));
                            old_self.lemma_visited_pos(m, closed@, start, q);
                            assert(s.pos_of(m, start, q) == old_self.pos_of(m, start, q));
                            if q != start {
                                m.lemma_idx(q.0 as int, q.1 as int);
                                assert(m.idx_spec(q.0 as int, q.1 as int) != ni as int);
                            }
                        } else {
                            assert(p == next);
                            assert(from_cell == old_self.order@[from as int]);
                            assert(old_self.visited(m, start, from_cell));
                            if from_cell != start {
                                m.lemma_idx(from_cell.0 as int, from_cell.1 as int);
                                assert(m.idx_spec(from_cell.0 as int, from_cell.1 as int) != ni as int);
                            }
                        }
                    }
                    assert forall|x: int, y: int|
                        #![trigger s.seen@[m.idx_spec(x, y)]]
                        m.in_bounds_spec(x, y) && s.seen@[m.idx_spec(x, y)] implies {
                            let r = s.rank@[m.idx_spec(x, y)] as int;
                            &&& r < s.order@.len()
                            &&& s.order@[r] == (x as i32, y as i32)
                        } by {
                        m.lemma_idx(x, y);
                        if m.idx_spec(x, y) != ni as int {
                            assert(old_self.seen@[m.idx_spec(x, y)]);
                        }
                    }
                    if m.in_bounds_spec(start.0 as int, start.1 as int) {
                        m.lemma_idx(start.0 as int, start.1 as int);
                    }
                    assert(s.pos_of(m, start, next) == rank_new);
                    assert(s.dist_of(m, start, next) == d_new);
                }
            } else {
                proof {
                    if open_cell(m, closed@, next) {
                        old_self.lemma_visited_pos(m, closed@, start, next);
                        let k = old_self.pos_of(m, start, next);
                        assert(old_self.dist@[k] <= old_self.dist@[old_self.dist@.len() - 1]);
                    }
                }
            }
        }
    }

    /// All open orthogonal neighbours of `p` have been reached, each at most
    /// one step further from the start than `p`.
    spec fn nbrs_done(&self, m: &FloorMap, closed: Seq<(i32, i32)>, start: (i32, i32), p: (i32, i32)) -> bool {
        &&& self.nbr_done(m, closed, start, p, (p.0, (p.1 + 1) as i32))
        &&& self.nbr_done(m, closed, start, p, (p.0, (p.1 - 1) as i32))
        &&& self.nbr_done(m, closed, start, p, ((p.0 + 1) as i32, p.1))
        &&& self.nbr_done(m, closed, start, p, ((p.0 - 1) as i32, p.1))
    }

    spec fn nbr_done(&self, m: &FloorMap, closed: Seq<(i32, i32)>, start: (i32, i32), p: (i32, i32), q: (i32, i32)) -> bool {
        open_cell(m, closed, q) ==> self.visited(m, start, q) && self.dist_of(m, start, q) <= self.dist_of(m, start, p) + 1
    }

    /// Following parents from a reached cell leads back to the start; the
    /// cells passed on the way, read backwards, form a walk ending there.
    fn path_to(&self, m: &FloorMap, closed: &Vec<(i32, i32)>, start: (i32, i32), goal: (i32, i32)) -> (path: Vec<(i32, i32)>)
        requires
            self.inv(m, closed@, start),
            self.visited(m, start, goal),
            goal != start,
        ensures
            path@.len() > 0,
            path@[0] == goal,
            is_walk(m, closed@, start, path@.reverse()),
            path@.len() == self.dist_of(m, start, goal),
    {
        let mut path: Vec<(i32, i32)> = Vec::new();
        let mut c = goal;
        while !(c.0 == start.0 && c.1 == start.1)
            invariant
                self.inv(m, closed@, start),
                self.visited(m, start, c),
                goal != start,
                path@.len() == 0 ==> c == goal,
                path@.len() > 0 ==> path@[0] == goal && adjacent(path@.last(), c),
                forall|i: int| 0 <= i < path@.len() ==> open_cell(m, closed@, #[trigger] path@[i]),
                forall|i: int| 0 < i < path@.len() ==> adjacent(#[trigger] path@[i - 1], path@[i]),
                path@.len() + self.dist_of(m, start, c) == self.dist_of(m, start, goal),
            decreases self.pos_of(m, start, c),
        {
            proof {
                self.lemma_visited_pos(m, closed@, start, c);
            }
            let ghost k = self.pos_of(m, start, c);
            assert(self.order@[k] == c);
            assert(k >= 1);
            let ci = m.idx(c.0, c.1);
            let p = self.parent[ci];
            proof {
                self.lemma_visited_pos(m, closed@, start, p);
            }
            path.push(c);
            c = p;
        }
        proof {
            let w = path@.reverse();
            assert forall|i: int| 0 <= i < w.len() implies open_cell(m, closed@, #[trigger] w[i]) by {
                assert(w[i] == path@[path@.len() - 1 - i]);
            }
            assert forall|i: int| 0 < i < w.len() implies adjacent(#[trigger] w[i - 1], w[i]) by {
                assert(w[i - 1] == path@[path@.len() - i]);
                assert(w[i] == path@[path@.len() - i - 1]);
                assert(adjacent(path@[path@.len() - i - 1], path@[path@.len() - i]));
            }
            assert(w[0] == path@.last());
        }
        path
    }

    /// Once every reached cell has been expanded, every cell of every walk
    /// from the start has been reached.
    proof fn lemma_walk_reached(
        &self,
        m: &FloorMap,
        closed: Seq<(i32, i32)>,
        start: (i32, i32),
        steps: Seq<(i32, i32)>,
        k: int,
    )
        requires
            self.inv(m, closed, start),
            forall|i: int| 0 <= i < self.order@.len() ==> #[trigger] self.nbrs_done(m, closed, start, self.order@[i]),
            i32::MIN < start.0 < i32::MAX,
            i32::MIN < start.1 < i32::MAX,
            is_walk(m, closed, start, steps),
            0 <= k < steps.len(),
        ensures
            self.visited(m, start, steps[k]),
        decreases k,
    {
        let prev = if k == 0 { start } else { steps[k - 1] };
        if k > 0 {
            self.lemma_walk_reached(m, closed, start, steps, k - 1);
            assert(open_cell(m, closed, steps[k - 1]));
            assert(adjacent(steps[k - 1], steps[k]));
        }
        assert(self.visited(m, start, prev));
        self.lemma_visited_pos(m, closed, start, prev);
        let j = self.pos_of(m, start, prev);
        assert(self.nbrs_done(m, closed, start, self.order@[j]));
        lemma_nbr_of(prev, steps[k]);
        assert(self.nbr_done(m, closed, start, prev, steps[k]));
        assert(open_cell(m, closed, steps[k]));
    }

    proof fn lemma_grows_trans(a: &Search, b: &Search, c: &Search, m: &FloorMap, start: (i32, i32))
        requires
            b.grows_from(a, m, start),
            c.grows_from(b, m, start),
        ensures
            c.grows_from(a, m, start),
    {
    }

    /// What is known of a neighbour of a reached cell stays known as the
    /// search goes on.
    proof fn lemma_nbr_kept(
        old: &Search,
        new: &Search,
        m: &FloorMap,
        closed: Seq<(i32, i32)>,
        start: (i32, i32),
        p: (i32, i32),
        q: (i32, i32),
    )
        requires
            old.inv(m, closed, start),
            new.grows_from(old, m, start),
            old.visited(m, start, p),
            old.nbr_done(m, closed, start, p, q),
        ensures
            new.nbr_done(m, closed, start, p, q),
    {
        old.lemma_visited_pos(m, closed, start, p);
        if open_cell(m, closed, q) {
            old.lemma_visited_pos(m, closed, start, q);
        }
    }

    /// While `order[head]` awaits expansion, each cell of a walk from the
    /// start whose index is below the head's distance has been reached, at
    /// most its index plus one steps from the start.
    proof fn lemma_prefix_near(
        &self,
        m: &FloorMap,
        closed: Seq<(i32, i32)>,
        start: (i32, i32),
        steps: Seq<(i32, i32)>,
        head: int,
        k: int,
    )
        requires
            self.inv(m, closed, start),
            0 <= head < self.order@.len(),
            forall|i: int| 0 <= i < head ==> #[trigger] self.nbrs_done(m, closed, start, self.order@[i]),
            i32::MIN < start.0 < i32::MAX,
            i32::MIN < start.1 < i32::MAX,
            is_walk(m, closed, start, steps),
            0 <= k < steps.len(),
            k < self.dist@[head],
        ensures
            self.visited(m, start, steps[k]),
            self.dist_of(m, start, steps[k]) <= k + 1,
        decreases k,
    {
        let prev = if k == 0 { start } else { steps[k - 1] };
        if k > 0 {
            self.lemma_prefix_near(m, closed, start, steps, head, k - 1);
            assert(open_cell(m, closed, steps[k - 1]));
            assert(adjacent(steps[k - 1], steps[k]));
        }
        assert(self.visited(m, start, prev));
        self.lemma_visited_pos(m, closed, start, prev);
        let j = self.pos_of(m, start, prev);
        if j >= head {
            assert(self.dist@[head] <= self.dist@[j]);
        }
        assert(self.nbrs_done(m, closed, start, self.order@[j]));
        lemma_nbr_of(prev, steps[k]);
        assert(self.nbr_done(m, closed, start, prev, steps[k]));
        assert(open_cell(m, closed, steps[k]));
    }

    /// No walk from the start reaches `order[head]` in fewer steps than its
    /// distance, while all cells before it have been expanded.
    proof fn lemma_shortest(
        &self,
        m: &FloorMap,
        closed: Seq<(i32, i32)>,
        start: (i32, i32),
        steps: Seq<(i32, i32)>,
        head: int,
    )
        requires
            self.inv(m, closed, start),
            0 <= head < self.order@.len(),
            forall|i: int| 0 <= i < head ==> #[trigger] self.nbrs_done(m, closed, start, self.order@[i]),
            i32::MIN < start.0 < i32::MAX,
            i32::MIN < start.1 < i32::MAX,
            is_walk(m, closed, start, steps),
            steps.len() > 0,
            steps.last() == self.order@[head],
        ensures
            self.dist@[head] <= steps.len(),
    {
        if steps.len() < self.dist@[head] {
            let k = steps.len() - 1;
            self.lemma_prefix_near(m, closed, start, steps, head, k);
            self.lemma_order_pos(m, closed, start, head);
        }
    }
}

/// Returns a shortest path from `start` (exclusive) to `goal` (inclusive) as a list of
/// grid positions stored in *reverse* order, so that popping from the end
/// yields the next step.  Returns `None` if no passable path exists.
///
/// `closed_doors` lists the positions blocked by a closed door: their tile
/// is walkable floor, but path-finding must treat them as blocked.
pub fn bfs_path(
    map: &FloorMap,
    closed_doors: &Vec<(i32, i32)>,
    start: (i32, i32),
    goal: (i32, i32),
) -> (r: Option<Vec<(i32, i32)>>)
    requires
        map.wf(),
        start != goal ==> i32::MIN < start.0 < i32::MAX && i32::MIN < start.1 < i32::MAX,
    ensures
        start == goal ==> (r matches Some(p) && p@.len() == 0),
        start != goal ==> (r is Some <==> reachable(map, closed_doors@, start, goal)),
        start != goal ==> (r matches Some(p) ==> {
            &&& p@.len() > 0
            &&& p@[0] == goal
            &&& is_walk(map, closed_doors@, start, p@.reverse())
            &&& no_shorter_walk(map, closed_doors@, start, goal, p@.len() as int)
        }),
{
    if start.0 == goal.0 && start.1 == goal.1 {
        return Some(Vec::new());
    }
    let n = map.tiles.len();
    let mut search = Search {
        seen: Vec::new(),
        parent: Vec::new(),
        rank: Vec::new(),
        order: Vec::new(),
        dist: Ghost(Seq::empty()),
    };
    let mut i: usize = 0;
    while i < n
        invariant
            n == map.tiles@.len(),
            i <= n,
            search.seen@.len() == i,
            search.parent@.len() == i,
            search.rank@.len() == i,
            search.order@.len() == 0,
            forall|j: int| 0 <= j < i ==> !search.seen@[j],
            forall|j: int| 0 <= j < i ==> search.rank@[j] == 0,
        decreases n - i,
    {
        search.seen.push(false);
        search.parent.push(start);
        search.rank.push(0);
        i = i + 1;
    }
    search.order.push(start);
    search.dist = Ghost(Seq::<int>::empty().push(0));
    if map.in_bounds(start.0, start.1) {
        let si = map.idx(start.0, start.1);
        search.seen.set(si, true);
    }
    proof {
        assert forall|x: int, y: int|
            #![trigger search.seen@[map.idx_spec(x, y)]]
            map.in_bounds_spec(x, y) && search.seen@[map.idx_spec(x, y)] implies {
                let r = search.rank@[map.idx_spec(x, y)] as int;
                &&& r < search.order@.len()
                &&& search.order@[r] == (x as i32, y as i32)
            } by {
            map.lemma_idx(x, y);
            if map.in_bounds_spec(start.0 as int, start.1 as int) {
                map.lemma_idx(start.0 as int, start.1 as int);
            }
        }
    }
    let mut head: usize = 0;
    while head < search.order.len()
        invariant
            search.inv(map, closed_doors@, start),
            head <= search.order@.len(),
            start != goal,
            i32::MIN < start.0 < i32::MAX,
            i32::MIN < start.1 < i32::MAX,
            forall|j: int| 0 <= j < head ==> #[trigger] search.nbrs_done(map, closed_doors@, start, search.order@[j]),
            forall|j: int| 0 <= j < head ==> #[trigger] search.order@[j] != goal,
            head < search.order@.len() ==> search.dist@[search.order@.len() - 1] <= search.dist@[head as int] + 1,
        decreases count_false(search.seen@) * 2 + search.order@.len() - head,
    {
        let current = search.order[head];
        if current.0 == goal.0 && current.1 == goal.1 {
            proof {
                if current != start {
                    assert(search.order@[head as int] == current);
                }
            }
            let path = search.path_to(map, closed_doors, start, goal);
            proof {
                assert(is_walk(map, closed_doors@, start, path@.reverse()));
                assert(path@.reverse().last() == goal);
                search.lemma_order_pos(map, closed_doors@, start, head as int);
                assert forall|steps: Seq<(i32, i32)>|
                    #[trigger] is_walk(map, closed_doors@, start, steps) && steps.len() > 0 && steps.last() == goal
                    implies path@.len() <= steps.len() by {
                    search.lemma_shortest(map, closed_doors@, start, steps, head as int);
                }
            }
            return Some(path);
        }
        proof {
            if current != start {
                assert(search.order@[head as int] == current);
            }
        }
        let ghost s0 = search;
        search.try_visit(map, closed_doors, start, head, (current.0, current.1 + 1));
        let ghost s1 = search;
        search.try_visit(map, closed_doors, start, head, (current.0, current.1 - 1));
        let ghost s2 = search;
        search.try_visit(map, closed_doors, start, head, (current.0 + 1, current.1));
        let ghost s3 = search;
        search.try_visit(map, closed_doors, start, head, (current.0 - 1, current.1));
        proof {
            let q0 = (current.0, (current.1 + 1) as i32);
            let q1 = (current.0, (current.1 - 1) as i32);
            let q2 = ((current.0 + 1) as i32, current.1);
            let q3 = ((current.0 - 1) as i32, current.1);
            Search::lemma_grows_trans(&s0, &s1, &s2, map, start);
            Search::lemma_grows_trans(&s0, &s2, &s3, map, start);
            Search::lemma_grows_trans(&s0, &s3, &search, map, start);
            Search::lemma_grows_trans(&s1, &s2, &s3, map, start);
            Search::lemma_grows_trans(&s1, &s3, &search, map, start);
            Search::lemma_grows_trans(&s2, &s3, &search, map, start);
            s0.lemma_order_pos(map, closed_doors@, start, head as int);
            s1.lemma_order_pos(map, closed_doors@, start, head as int);
            s2.lemma_order_pos(map, closed_doors@, start, head as int);
            s3.lemma_order_pos(map, closed_doors@, start, head as int);
            assert(s1.nbr_done(map, closed_doors@, start, current, q0));
            assert(s2.nbr_done(map, closed_doors@, start, current, q1));
            assert(s3.nbr_done(map, closed_doors@, start, current, q2));
            assert(search.nbr_done(map, closed_doors@, start, current, q3));
            Search::lemma_nbr_kept(&s1, &search, map, closed_doors@, start, current, q0);
            Search::lemma_nbr_kept(&s2, &search, map, closed_doors@, start, current, q1);
            Search::lemma_nbr_kept(&s3, &search, map, closed_doors@, start, current, q2);
            assert(search.order@[head as int] == current);
            assert forall|j: int| 0 <= j <= head implies #[trigger] search.nbrs_done(map, closed_doors@, start, search.order@[j]) by {
                assert(search.order@[j] == s0.order@[j]);
                if j < head {
                    let p = s0.order@[j];
                    assert(s0.nbrs_done(map, closed_doors@, start, p));
                    s0.lemma_order_pos(map, closed_doors@, start, j);
                    Search::lemma_nbr_kept(&s0, &search, map, closed_doors@, start, p, (p.0, (p.1 + 1) as i32));
                    Search::lemma_nbr_kept(&s0, &search, map, closed_doors@, start, p, (p.0, (p.1 - 1) as i32));
                    Search::lemma_nbr_kept(&s0, &search, map, closed_doors@, start, p, ((p.0 + 1) as i32, p.1));
                    Search::lemma_nbr_kept(&s0, &search, map, closed_doors@, start, p, ((p.0 - 1) as i32, p.1));
                }
            }
            assert forall|j: int| 0 <= j <= head implies #[trigger] search.order@[j] != goal by {
                assert(search.order@[j] == s0.order@[j]);
            }
            if head + 1 < search.order@.len() {
                assert(search.dist@[head as int] <= search.dist@[head + 1]);
            }
        }
        head = head + 1;
    }
    proof {
        if reachable(map, closed_doors@, start, goal) {
            let steps = choose|steps: Seq<(i32, i32)>|
                #[trigger] is_walk(map, closed_doors@, start, steps) && steps.len() > 0 && steps.last() == goal;
            search.lemma_walk_reached(map, closed_doors@, start, steps, steps.len() - 1);
            search.lemma_visited_pos(map, closed_doors@, start, goal);
        }
    }
    None
}

} // verus!
