use vstd::prelude::*;
use crate::map::FloorMap;
use crate::pathfind::{adjacent, is_walk, open_cell, reachable};

verus! {

/// `a` and `c` are the same cell, or some walk leads from `a` to `c`.
pub open spec fn connected(m: &FloorMap, closed: Seq<(i32, i32)>, a: (i32, i32), c: (i32, i32)) -> bool {
    a == c || reachable(m, closed, a, c)
}

/// One step onto an open neighbour.
pub proof fn lemma_step(m: &FloorMap, closed: Seq<(i32, i32)>, a: (i32, i32), c: (i32, i32))
    requires
        adjacent(a, c),
        open_cell(m, closed, c),
    ensures
        reachable(m, closed, a, c),
{
    let w = seq![c];
    assert(is_walk(m, closed, a, w));
}

/// Walks chain: a walk to `b` followed by a walk from `b` is a walk.
pub proof fn lemma_trans(m: &FloorMap, closed: Seq<(i32, i32)>, a: (i32, i32), b: (i32, i32), c: (i32, i32))
    requires
        reachable(m, closed, a, b),
        reachable(m, closed, b, c),
    ensures
        reachable(m, closed, a, c),
{
    let w1 = choose|s: Seq<(i32, i32)>| #[trigger] is_walk(m, closed, a, s) && s.len() > 0 && s.last() == b;
    let w2 = choose|s: Seq<(i32, i32)>| #[trigger] is_walk(m, closed, b, s) && s.len() > 0 && s.last() == c;
    let w = w1 + w2;
    assert forall|i: int| 0 <= i < w.len() implies open_cell(m, closed, #[trigger] w[i]) by {
        if i < w1.len() {
            assert(w[i] == w1[i]);
        } else {
            assert(w[i] == w2[i - w1.len()]);
        }
    }
    assert forall|i: int| 0 < i < w.len() implies adjacent(#[trigger] w[i - 1], w[i]) by {
        if i < w1.len() {
            assert(adjacent(w1[i - 1], w1[i]));
            assert(w[i - 1] == w1[i - 1]);
            assert(w[i] == w1[i]);
        } else if i == w1.len() {
            assert(w[i - 1] == w1[w1.len() - 1]);
            assert(w[i] == w2[0]);
        } else {
            let j = i - w1.len();
            assert(adjacent(w2[j - 1], w2[j]));
            assert(w[i - 1] == w2[j - 1]);
            assert(w[i] == w2[j]);
        }
    }
    assert(w[0] == w1[0]);
    assert(w.last() == w2.last());
    assert(is_walk(m, closed, a, w));
}

pub proof fn lemma_conn_trans(m: &FloorMap, closed: Seq<(i32, i32)>, a: (i32, i32), b: (i32, i32), c: (i32, i32))
    requires
        connected(m, closed, a, b),
        connected(m, closed, b, c),
    ensures
        connected(m, closed, a, c),
{
    if a != b && b != c {
        lemma_trans(m, closed, a, b, c);
    }
}

/// Along a row: if every cell after `x_from` up to `x_to` is open, the two
/// ends are connected.
pub proof fn lemma_row(m: &FloorMap, closed: Seq<(i32, i32)>, y: i32, x_from: i32, x_to: i32)
    requires
        forall|x: int| #![trigger open_cell(m, closed, (x as i32, y))]
            ((x_from < x <= x_to) || (x_to <= x < x_from)) ==> open_cell(m, closed, (x as i32, y)),
    ensures
        connected(m, closed, (x_from, y), (x_to, y)),
    decreases if x_from <= x_to { x_to - x_from } else { x_from - x_to },
{
    if x_from != x_to {
        let next: i32 = if x_from < x_to { (x_from + 1) as i32 } else { (x_from - 1) as i32 };
        assert(open_cell(m, closed, (next as int as i32, y)));
        lemma_step(m, closed, (x_from, y), (next, y));
        lemma_row(m, closed, y, next, x_to);
        lemma_conn_trans(m, closed, (x_from, y), (next, y), (x_to, y));
    }
}

/// Along a column: if every cell after `y_from` up to `y_to` is open, the
/// two ends are connected.
pub proof fn lemma_col(m: &FloorMap, closed: Seq<(i32, i32)>, x: i32, y_from: i32, y_to: i32)
    requires
        forall|y: int| #![trigger open_cell(m, closed, (x, y as i32))]
            ((y_from < y <= y_to) || (y_to <= y < y_from)) ==> open_cell(m, closed, (x, y as i32)),
    ensures
        connected(m, closed, (x, y_from), (x, y_to)),
    decreases if y_from <= y_to { y_to - y_from } else { y_from - y_to },
{
    if y_from != y_to {
        let next: i32 = if y_from < y_to { (y_from + 1) as i32 } else { (y_from - 1) as i32 };
        assert(open_cell(m, closed, (x, next as int as i32)));
        lemma_step(m, closed, (x, y_from), (x, next));
        lemma_col(m, closed, x, next, y_to);
        lemma_conn_trans(m, closed, (x, y_from), (x, next), (x, y_to));
    }
}

pub open spec fn in_rect(p: (i32, i32), x0: int, x1: int, y0: int, y1: int) -> bool {
    x0 <= p.0 <= x1 && y0 <= p.1 <= y1
}

/// Every cell of the rectangle, except possibly `b`, is open.
pub open spec fn rect_open(
    m: &FloorMap,
    closed: Seq<(i32, i32)>,
    x0: int,
    x1: int,
    y0: int,
    y1: int,
    b: (i32, i32),
) -> bool {
    forall|x: int, y: int|
        #![trigger open_cell(m, closed, (x as i32, y as i32))]
        x0 <= x <= x1 && y0 <= y <= y1 && (x as i32, y as i32) != b ==> open_cell(m, closed, (x as i32, y as i32))
}

/// A row segment of an open rectangle that avoids the blocked cell connects its ends.
proof fn lemma_rect_row(
    m: &FloorMap,
    closed: Seq<(i32, i32)>,
    x0: int,
    x1: int,
    y0: int,
    y1: int,
    b: (i32, i32),
    y: i32,
    xa: i32,
    xb: i32,
)
    requires
        rect_open(m, closed, x0, x1, y0, y1, b),
        y0 <= y <= y1,
        x0 <= xa <= x1,
        x0 <= xb <= x1,
        !(b.1 == y && ((xa < b.0 <= xb) || (xb <= b.0 < xa))),
    ensures
        connected(m, closed, (xa, y), (xb, y)),
{
    assert forall|x: int| #![trigger open_cell(m, closed, (x as i32, y))]
        ((xa < x <= xb) || (xb <= x < xa)) implies open_cell(m, closed, (x as i32, y)) by {
        assert(open_cell(m, closed, (x as i32, y as int as i32)));
    }
    lemma_row(m, closed, y, xa, xb);
}

/// A column segment of an open rectangle that avoids the blocked cell connects its ends.
proof fn lemma_rect_col(
    m: &FloorMap,
    closed: Seq<(i32, i32)>,
    x0: int,
    x1: int,
    y0: int,
    y1: int,
    b: (i32, i32),
    x: i32,
    ya: i32,
    yb: i32,
)
    requires
        rect_open(m, closed, x0, x1, y0, y1, b),
        x0 <= x <= x1,
        y0 <= ya <= y1,
        y0 <= yb <= y1,
        !(b.0 == x && ((ya < b.1 <= yb) || (yb <= b.1 < ya))),
    ensures
        connected(m, closed, (x, ya), (x, yb)),
{
    assert forall|y: int| #![trigger open_cell(m, closed, (x, y as i32))]
        ((ya < y <= yb) || (yb <= y < ya)) implies open_cell(m, closed, (x, y as i32)) by {
        assert(open_cell(m, closed, (x as int as i32, y as i32)));
    }
    lemma_col(m, closed, x, ya, yb);
}

/// In a rectangle at least two cells wide and two high whose cells are all
/// open but for at most one, any two open cells are connected: an L-shaped
/// route through the rectangle avoids the blocked cell, or one side-stepping
/// it through a neighbouring row or column.
pub proof fn lemma_rect(
    m: &FloorMap,
    closed: Seq<(i32, i32)>,
    x0: int,
    x1: int,
    y0: int,
    y1: int,
    b: (i32, i32),
    a: (i32, i32),
    c: (i32, i32),
)
    requires
        rect_open(m, closed, x0, x1, y0, y1, b),
        x0 < x1,
        y0 < y1,
        -1000000 <= x0,
        x1 <= 1000000,
        -1000000 <= y0,
        y1 <= 1000000,
        in_rect(a, x0, x1, y0, y1),
        in_rect(c, x0, x1, y0, y1),
        a != b,
        c != b,
    ensures
        connected(m, closed, a, c),
{
    let ax = a.0;
    let ay = a.1;
    let cx = c.0;
    let cy = c.1;
    if ax != cx && ay != cy {
        // Route 1: along row ay to column cx, then along column cx.
        let corner1: (i32, i32) = (cx, ay);
        // Route 2: along column ax to row cy, then along row cy.
        let corner2: (i32, i32) = (ax, cy);
        let on_route1 = (b.1 == ay && ((ax < b.0 <= cx) || (cx <= b.0 < ax))) || (b.0 == cx && ((ay < b.1 <= cy)
            || (cy <= b.1 < ay)));
        if !on_route1 {
            lemma_rect_row(m, closed, x0, x1, y0, y1, b, ay, ax, cx);
            lemma_rect_col(m, closed, x0, x1, y0, y1, b, cx, ay, cy);
            lemma_conn_trans(m, closed, a, corner1, c);
        } else {
            lemma_rect_col(m, closed, x0, x1, y0, y1, b, ax, ay, cy);
            lemma_rect_row(m, closed, x0, x1, y0, y1, b, cy, ax, cx);
            lemma_conn_trans(m, closed, a, corner2, c);
        }
    } else if ax == cx && ay != cy {
        let on_line = b.0 == ax && ((ay < b.1 <= cy) || (cy <= b.1 < ay));
        if !on_line {
            lemma_rect_col(m, closed, x0, x1, y0, y1, b, ax, ay, cy);
        } else {
            let s: i32 = if ax + 1 <= x1 { (ax + 1) as i32 } else { (ax - 1) as i32 };
            assert(open_cell(m, closed, (s as int as i32, ay as int as i32)));
            assert(open_cell(m, closed, (cx as int as i32, cy as int as i32)));
            lemma_step(m, closed, a, (s, ay));
            lemma_rect_col(m, closed, x0, x1, y0, y1, b, s, ay, cy);
            lemma_step(m, closed, (s, cy), c);
            lemma_conn_trans(m, closed, a, (s, ay), (s, cy));
            lemma_conn_trans(m, closed, a, (s, cy), c);
        }
    } else if ay == cy && ax != cx {
        let on_line = b.1 == ay && ((ax < b.0 <= cx) || (cx <= b.0 < ax));
        if !on_line {
            lemma_rect_row(m, closed, x0, x1, y0, y1, b, ay, ax, cx);
        } else {
            let s: i32 = if ay + 1 <= y1 { (ay + 1) as i32 } else { (ay - 1) as i32 };
            assert(open_cell(m, closed, (ax as int as i32, s as int as i32)));
            assert(open_cell(m, closed, (cx as int as i32, cy as int as i32)));
            lemma_step(m, closed, a, (ax, s));
            lemma_rect_row(m, closed, x0, x1, y0, y1, b, s, ax, cx);
            lemma_step(m, closed, (cx, s), c);
            lemma_conn_trans(m, closed, a, (ax, s), (cx, s));
            lemma_conn_trans(m, closed, a, (cx, s), c);
        }
    }
}

/// Walks only need their cells open: opening more cells keeps every walk.
pub proof fn lemma_reach_monotone(
    m1: &FloorMap,
    m2: &FloorMap,
    closed: Seq<(i32, i32)>,
    a: (i32, i32),
    c: (i32, i32),
)
    requires
        reachable(m1, closed, a, c),
        forall|p: (i32, i32)| #[trigger] open_cell(m1, closed, p) ==> open_cell(m2, closed, p),
    ensures
        reachable(m2, closed, a, c),
{
    let w = choose|s: Seq<(i32, i32)>| #[trigger] is_walk(m1, closed, a, s) && s.len() > 0 && s.last() == c;
    assert forall|i: int| 0 <= i < w.len() implies open_cell(m2, closed, #[trigger] w[i]) by {
        assert(open_cell(m1, closed, w[i]));
    }
    assert(is_walk(m2, closed, a, w));
}

} // verus!
