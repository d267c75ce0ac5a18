use vstd::prelude::*;
use crate::components::{CardinalDir, ItemKind};
use crate::map::{
    DoorPlacement, Dungeon, FloorMap, PropType, Rect, StairLink, StairNode, TileType, MAP_HEIGHT,
    MAP_WIDTH,
};
use crate::rng::random_in_range;
use crate::pathfind::open_cell;
use crate::reach::{connected, lemma_col, lemma_conn_trans, lemma_reach_monotone, lemma_rect, rect_open};

verus! {

/// Attempts at placing a room on each floor.
pub const MAX_ROOMS: usize = 12;
/// Smallest room side (including its walls).
pub const MIN_ROOM_SIZE: i32 = 3;
/// Largest room side (including its walls).
pub const MAX_ROOM_SIZE: i32 = 8;
/// Floors in the standard dungeon.
pub const NUM_DUNGEON_FLOORS: usize = 3;

pub open spec fn spec_min(a: int, b: int) -> int {
    if a <= b { a } else { b }
}

pub open spec fn spec_max(a: int, b: int) -> int {
    if a <= b { b } else { a }
}

/// Cell `(x, y)` lies strictly inside `r` (inside its walls).
pub open spec fn in_interior(r: Rect, x: int, y: int) -> bool {
    r.x1 < x < r.x2 && r.y1 < y < r.y2
}

/// Cell `(x, y)` lies in the three-tile-wide horizontal corridor along row `y0`
/// between columns `xa` and `xb`.
pub open spec fn in_h_corridor(xa: int, xb: int, y0: int, x: int, y: int) -> bool {
    spec_min(xa, xb) <= x <= spec_max(xa, xb) && y0 - 1 <= y <= y0 + 1
}

/// Cell `(x, y)` lies in the three-tile-wide vertical corridor along column `x0`
/// between rows `ya` and `yb`.
pub open spec fn in_v_corridor(ya: int, yb: int, x0: int, x: int, y: int) -> bool {
    spec_min(ya, yb) <= y <= spec_max(ya, yb) && x0 - 1 <= x <= x0 + 1
}

/// Only the tiles changed, and only as `carved` says: every in-bounds cell in
/// `carved` became `Floor`, every other cell kept its tile.
pub open spec fn tiles_carved(
    new: &FloorMap,
    old: &FloorMap,
    carved: spec_fn(int, int) -> bool,
) -> bool {
    &&& new.wf()
    &&& new.width == old.width
    &&& new.height == old.height
    &&& new.tiles@.len() == old.tiles@.len()
    &&& forall|x: int, y: int|
        #![trigger new.tile_at(x, y)]
        new.in_bounds_spec(x, y) ==> new.tile_at(x, y) == (if carved(x, y) {
            TileType::Floor
        } else {
            old.tile_at(x, y)
        })
}

/// Like [`tiles_carved`], with every other field unchanged.
pub open spec fn carved_from(
    new: &FloorMap,
    old: &FloorMap,
    carved: spec_fn(int, int) -> bool,
) -> bool {
    &&& tiles_carved(new, old, carved)
    &&& new.props == old.props
    &&& new.doors == old.doors
    &&& new.rooms == old.rooms
    &&& new.stair_links == old.stair_links
    &&& new.chest_items == old.chest_items
    &&& new.void_outcomes == old.void_outcomes
}

impl FloorMap {
    /// Turns one in-bounds cell into floor.
    fn set_floor(&mut self, x: i32, y: i32)
        requires
            old(self).wf(),
            old(self).in_bounds_spec(x as int, y as int),
        ensures
            carved_from(final(self), old(self), |cx: int, cy: int| cx == x && cy == y),
    {
        let i = self.idx(x, y);
        self.tiles.set(i, TileType::Floor);
        proof {
            assert forall|cx: int, cy: int| #![trigger self.tile_at(cx, cy)]
                self.in_bounds_spec(cx, cy) implies self.tile_at(cx, cy) == (if cx == x && cy == y {
                TileType::Floor
            } else {
                old(self).tile_at(cx, cy)
            }) by {
                old(self).lemma_idx(cx, cy);
                old(self).lemma_idx(x as int, y as int);
            }
        }
    }

    /// Turns the interior of `room` into floor.
    fn carve_room(&mut self, room: &Rect)
        requires
            old(self).wf(),
            0 <= room.x1 < room.x2 <= old(self).width,
            0 <= room.y1 < room.y2 <= old(self).height,
        ensures
            carved_from(final(self), old(self), |cx: int, cy: int| in_interior(*room, cx, cy)),
    {
        let ghost orig = *self;
        let mut y = room.y1 + 1;
        while y < room.y2
            invariant
                room.y1 + 1 <= y <= room.y2,
                0 <= room.x1 < room.x2 <= orig.width,
                0 <= room.y1 < room.y2 <= orig.height,
                orig.wf(),
                carved_from(
                    self,
                    &orig,
                    |cx: int, cy: int| in_interior(*room, cx, cy) && cy < y,
                ),
            decreases room.y2 - y,
        {
            let mut x = room.x1 + 1;
            while x < room.x2
                invariant
                    room.y1 + 1 <= y < room.y2,
                    room.x1 + 1 <= x <= room.x2,
                    0 <= room.x1 < room.x2 <= orig.width,
                    0 <= room.y1 < room.y2 <= orig.height,
                    orig.wf(),
                    carved_from(
                        self,
                        &orig,
                        |cx: int, cy: int|
                            in_interior(*room, cx, cy) && (cy < y || (cy == y && cx < x)),
                    ),
                decreases room.x2 - x,
            {
                self.set_floor(x, y);
                x = x + 1;
            }
            y = y + 1;
        }
    }

    /// Carves a three-tile-wide horizontal corridor along row `y` between
    /// columns `x1` and `x2`, skipping cells outside the map.
    fn carve_h_corridor(&mut self, x1: i32, x2: i32, y: i32)
        requires
            old(self).wf(),
            0 <= x1 < old(self).width,
            0 <= x2 < old(self).width,
            0 <= y < old(self).height,
        ensures
            carved_from(final(self), old(self), |cx: int, cy: int| in_h_corridor(x1 as int, x2 as int, y as int, cx, cy)),
    {
        let ghost orig = *self;
        let lo = if x1 <= x2 { x1 } else { x2 };
        let hi = if x1 <= x2 { x2 } else { x1 };
        let mut x = lo;
        while x <= hi
            invariant
                lo == spec_min(x1 as int, x2 as int),
                hi == spec_max(x1 as int, x2 as int),
                lo <= x <= hi + 1,
                0 <= lo <= hi < orig.width,
                0 <= y < orig.height,
                orig.wf(),
                carved_from(
                    self,
                    &orig,
                    |cx: int, cy: int| in_h_corridor(x1 as int, x2 as int, y as int, cx, cy) && cx < x,
                ),
            decreases hi + 1 - x,
        {
            let mut dy: i32 = -1;
            while dy <= 1
                invariant
                    lo == spec_min(x1 as int, x2 as int),
                    hi == spec_max(x1 as int, x2 as int),
                    lo <= x <= hi,
                    -1 <= dy <= 2,
                    0 <= lo <= hi < orig.width,
                    0 <= y < orig.height,
                    orig.wf(),
                    carved_from(
                        self,
                        &orig,
                        |cx: int, cy: int|
                            in_h_corridor(x1 as int, x2 as int, y as int, cx, cy) && (cx < x || (
                            cx == x && cy < y + dy)),
                    ),
                decreases 2 - dy,
            {
                if self.in_bounds(x, y + dy) {
                    self.set_floor(x, y + dy);
                }
                dy = dy + 1;
            }
            x = x + 1;
        }
    }

    /// Carves a three-tile-wide vertical corridor along column `x` between
    /// rows `y1` and `y2`, skipping cells outside the map.
    fn carve_v_corridor(&mut self, y1: i32, y2: i32, x: i32)
        requires
            old(self).wf(),
            0 <= y1 < old(self).height,
            0 <= y2 < old(self).height,
            0 <= x < old(self).width,
        ensures
            carved_from(final(self), old(self), |cx: int, cy: int| in_v_corridor(y1 as int, y2 as int, x as int, cx, cy)),
    {
        let ghost orig = *self;
        let lo = if y1 <= y2 { y1 } else { y2 };
        let hi = if y1 <= y2 { y2 } else { y1 };
        let mut y = lo;
        while y <= hi
            invariant
                lo == spec_min(y1 as int, y2 as int),
                hi == spec_max(y1 as int, y2 as int),
                lo <= y <= hi + 1,
                0 <= lo <= hi < orig.height,
                0 <= x < orig.width,
                orig.wf(),
                carved_from(
                    self,
                    &orig,
                    |cx: int, cy: int| in_v_corridor(y1 as int, y2 as int, x as int, cx, cy) && cy < y,
                ),
            decreases hi + 1 - y,
        {
            let mut dx: i32 = -1;
            while dx <= 1
                invariant
                    lo == spec_min(y1 as int, y2 as int),
                    hi == spec_max(y1 as int, y2 as int),
                    lo <= y <= hi,
                    -1 <= dx <= 2,
                    0 <= lo <= hi < orig.height,
                    0 <= x < orig.width,
                    orig.wf(),
                    carved_from(
                        self,
                        &orig,
                        |cx: int, cy: int|
                            in_v_corridor(y1 as int, y2 as int, x as int, cx, cy) && (cy < y || (
                            cy == y && cx < x + dx)),
                    ),
                decreases 2 - dx,
            {
                if self.in_bounds(x + dx, y) {
                    self.set_floor(x + dx, y);
                }
                dx = dx + 1;
            }
            y = y + 1;
        }
    }
}

/// Room placement rule: the room lies inside the outer wall ring and each
/// side measures between `MIN_ROOM_SIZE` and `MAX_ROOM_SIZE`.
pub open spec fn room_fits(r: Rect) -> bool {
    &&& 1 <= r.x1
    &&& r.x2 <= MAP_WIDTH - 2
    &&& 1 <= r.y1
    &&& r.y2 <= MAP_HEIGHT - 2
    &&& MIN_ROOM_SIZE <= r.x2 - r.x1 <= MAX_ROOM_SIZE
    &&& MIN_ROOM_SIZE <= r.y2 - r.y1 <= MAX_ROOM_SIZE
}

/// No two rooms intersect (they do not even touch).
pub open spec fn rooms_disjoint(rs: Seq<Rect>) -> bool {
    forall|i: int, j: int|
        0 <= i < j < rs.len() ==> !(#[trigger] rs[i]).overlaps(#[trigger] rs[j])
}

/// Where the test chest of a floor stands: one tile east of the first room's centre.
pub open spec fn chest_cell(r: Rect) -> (int, int) {
    (r.spec_center().0 + 1, r.spec_center().1 as int)
}

/// Facts about the tile grid kept throughout generation.
pub open spec fn grid_inv(m: &FloorMap) -> bool {
    &&& m.wf()
    &&& m.width == MAP_WIDTH
    &&& m.height == MAP_HEIGHT
    &&& forall|x: int, y: int|
        #![trigger m.tile_at(x, y)]
        m.in_bounds_spec(x, y) ==> (m.tile_at(x, y) == TileType::Wall || m.tile_at(x, y)
            == TileType::Floor)
    &&& forall|x: int| 0 <= x < MAP_WIDTH ==> #[trigger] m.tile_at(x, 0) == TileType::Wall
    &&& forall|y: int| 0 <= y < MAP_HEIGHT ==> #[trigger] m.tile_at(0, y) == TileType::Wall
    &&& forall|y: int| 0 <= y < MAP_HEIGHT ==> #[trigger] m.tile_at(MAP_WIDTH - 1, y) == TileType::Wall
    &&& forall|k: int| 0 <= k < m.rooms@.len() ==> room_fits(#[trigger] m.rooms@[k])
    &&& forall|k: int, x: int, y: int|
        #![trigger m.rooms@[k], m.tile_at(x, y)]
        0 <= k < m.rooms@.len() && in_interior(m.rooms@[k], x, y) ==> m.tile_at(x, y)
            == TileType::Floor
}

/// The layout every generated floor has, before and after stairs are placed.
pub open spec fn floor_layout(m: &FloorMap) -> bool {
    &&& m.wf()
    &&& m.width == MAP_WIDTH
    &&& m.height == MAP_HEIGHT
    &&& 1 <= m.rooms@.len() <= MAX_ROOMS
    &&& forall|k: int| 0 <= k < m.rooms@.len() ==> room_fits(#[trigger] m.rooms@[k])
    &&& rooms_disjoint(m.rooms@)
    &&& forall|k: int, x: int, y: int|
        #![trigger m.rooms@[k], m.tile_at(x, y)]
        0 <= k < m.rooms@.len() && in_interior(m.rooms@[k], x, y) ==> m.tile_at(x, y).walkable()
    &&& forall|x: int| 0 <= x < MAP_WIDTH ==> #[trigger] m.tile_at(x, 0) == TileType::Wall
    &&& forall|y: int| 0 <= y < MAP_HEIGHT ==> #[trigger] m.tile_at(0, y) == TileType::Wall
    &&& forall|y: int| 0 <= y < MAP_HEIGHT ==> #[trigger] m.tile_at(MAP_WIDTH - 1, y) == TileType::Wall
    &&& m.doors@.len() == 1
    &&& m.doors@[0] == (DoorPlacement {
        x: m.rooms@[0].spec_center().0,
        y: m.rooms@[0].y2,
        open: false,
        facing: CardinalDir::S,
    })
    &&& m.walkable_at(m.doors@[0].x as int, m.doors@[0].y as int)
    &&& m.in_bounds_spec(m.doors@[0].x as int, m.doors@[0].y + 1)
    &&& m.walkable_at(m.doors@[0].x as int, m.doors@[0].y + 1)
    &&& forall|x: int, y: int|
        #![trigger m.prop_at(x, y)]
        m.in_bounds_spec(x, y) ==> m.prop_at(x, y) == (if (x, y) == chest_cell(m.rooms@[0]) {
            Some(PropType::ChestClosed)
        } else {
            None
        })
    &&& m.chest_items@ == map![
        (chest_cell(m.rooms@[0]).0 as i32, chest_cell(m.rooms@[0]).1 as i32) => (ItemKind::Key, CardinalDir::N)
    ]
    &&& m.void_outcomes@ == Map::<(i32, i32), crate::map::VoidOutcome>::empty()
    &&& rooms_connected(m)
}

/// Centre and chest cell of a fitting room lie in its interior, away from the
/// outer wall ring.
pub proof fn lemma_room_cells(r: Rect)
    requires
        room_fits(r),
    ensures
        in_interior(r, r.spec_center().0 as int, r.spec_center().1 as int),
        in_interior(r, chest_cell(r).0, chest_cell(r).1),
        2 <= r.spec_center().0 < MAP_WIDTH - 2,
        2 <= r.spec_center().1 < MAP_HEIGHT - 2,
        r.spec_center().0 == (r.x1 + r.x2) / 2,
        r.spec_center().1 == (r.y1 + r.y2) / 2,
{
}

/// Carving floor outside the top row and left column keeps the grid facts,
/// and never turns floor back into wall.
proof fn lemma_carve_keeps_grid(new: &FloorMap, old: &FloorMap, carved: spec_fn(int, int) -> bool)
    requires
        grid_inv(old),
        carved_from(new, old, carved),
        forall|x: int, y: int| #[trigger] carved(x, y) ==> 1 <= x <= MAP_WIDTH - 2 && y >= 1,
    ensures
        grid_inv(new),
        forall|x: int, y: int|
            #![trigger new.tile_at(x, y)]
            old.in_bounds_spec(x, y) && old.tile_at(x, y) == TileType::Floor ==> new.tile_at(x, y)
                == TileType::Floor,
{
    assert forall|x: int| 0 <= x < MAP_WIDTH implies #[trigger] new.tile_at(x, 0) == TileType::Wall by {
        assert(old.tile_at(x, 0) == TileType::Wall);
        assert(!carved(x, 0));
    }
    assert forall|y: int| 0 <= y < MAP_HEIGHT implies #[trigger] new.tile_at(0, y) == TileType::Wall by {
        assert(old.tile_at(0, y) == TileType::Wall);
        assert(!carved(0, y));
    }
    assert forall|y: int| 0 <= y < MAP_HEIGHT implies #[trigger] new.tile_at(MAP_WIDTH - 1, y) == TileType::Wall by {
        assert(old.tile_at(MAP_WIDTH - 1, y) == TileType::Wall);
        assert(!carved(MAP_WIDTH - 1, y));
    }
    assert forall|k: int, x: int, y: int|
        #![trigger new.rooms@[k], new.tile_at(x, y)]
        0 <= k < new.rooms@.len() && in_interior(new.rooms@[k], x, y) implies new.tile_at(x, y)
            == TileType::Floor by {
        assert(old.rooms@[k] == new.rooms@[k]);
        assert(old.tile_at(x, y) == TileType::Floor);
    }
}

/// Whether `r` intersects any room in `rooms`.
fn overlaps_any(rooms: &Vec<Rect>, r: &Rect) -> (b: bool)
    ensures
        b == exists|i: int| 0 <= i < rooms@.len() && (#[trigger] rooms@[i]).overlaps(*r),
{
    let mut i: usize = 0;
    while i < rooms.len()
        invariant
            i <= rooms@.len(),
            forall|j: int| 0 <= j < i ==> !(#[trigger] rooms@[j]).overlaps(*r),
        decreases rooms@.len() - i,
    {
        if rooms[i].intersects(r) {
            return true;
        }
        i = i + 1;
    }
    false
}

/// Places a closed door on the south wall of the first room and carves one
/// floor tile outside it, so the door can be approached from both sides.
/// The door's facing is chosen from the walkable neighbour before the tile is
/// changed; the tile under the door becomes `Floor` so that it is walkable
/// once the door is open.
fn place_test_door(map: &mut FloorMap)
    requires
        grid_inv(old(map)),
        old(map).rooms@.len() >= 1,
    ensures
        ({
            let r = old(map).rooms@[0];
            let cx = r.spec_center().0 as int;
            &&& tiles_carved(
                final(map),
                old(map),
                |x: int, y: int| x == cx && (y == r.y2 || y == r.y2 + 1),
            )
            &&& final(map).doors@ == old(map).doors@.push(
                DoorPlacement { x: cx as i32, y: r.y2, open: false, facing: CardinalDir::S },
            )
        }),
        final(map).props == old(map).props,
        final(map).rooms == old(map).rooms,
        final(map).stair_links == old(map).stair_links,
        final(map).chest_items == old(map).chest_items,
        final(map).void_outcomes == old(map).void_outcomes,
{
    let ghost orig = *map;
    if map.rooms.len() == 0 {
        return;
    }
    let room = map.rooms[0];
    proof {
        lemma_room_cells(room);
        assert(orig.tile_at(room.spec_center().0 as int, room.y2 - 1) == TileType::Floor);
    }
    let cx = (room.x1 + room.x2) / 2;
    let door_y = room.y2;
    if !map.in_bounds(cx, door_y) {
        return;
    }
    let facing = if map.is_walkable(cx, door_y - 1) {
        CardinalDir::S
    } else if map.is_walkable(cx, door_y + 1) {
        CardinalDir::N
    } else if map.is_walkable(cx + 1, door_y) {
        CardinalDir::W
    } else {
        CardinalDir::E
    };
    map.set_floor(cx, door_y);
    let ghost mid = *map;
    assert(map.in_bounds_spec(cx as int, door_y + 1));
    if map.in_bounds(cx, door_y + 1) {
        map.set_floor(cx, door_y + 1);
    }
    let ghost last = *map;
    map.doors.push(DoorPlacement { x: cx, y: door_y, open: false, facing });
    proof {
        assert forall|x: int, y: int| #![trigger map.tile_at(x, y)] map.in_bounds_spec(x, y)
            implies map.tile_at(x, y) == (if x == cx && (y == door_y || y == door_y + 1) {
            TileType::Floor
        } else {
            orig.tile_at(x, y)
        }) by {
            assert(mid.tile_at(x, y) == (if x == cx && y == door_y {
                TileType::Floor
            } else {
                orig.tile_at(x, y)
            }));
            assert(last.tile_at(x, y) == (if x == cx && y == door_y + 1 {
                TileType::Floor
            } else {
                mid.tile_at(x, y)
            }));
            assert(map.tile_at(x, y) == last.tile_at(x, y));
        }
    }
}

/// Places a closed chest holding a key one tile east of the first room's
/// centre, provided that cell is on the map and walkable.
fn place_test_chest(map: &mut FloorMap)
    requires
        grid_inv(old(map)),
        old(map).rooms@.len() >= 1,
    ensures
        ({
            let c = chest_cell(old(map).rooms@[0]);
            &&& final(map).props@ == old(map).props@.update(
                old(map).idx_spec(c.0, c.1),
                Some(PropType::ChestClosed),
            )
            &&& final(map).chest_items@ == old(map).chest_items@.insert(
                (c.0 as i32, c.1 as i32),
                (ItemKind::Key, CardinalDir::N),
            )
        }),
        final(map).wf(),
        final(map).width == old(map).width,
        final(map).height == old(map).height,
        final(map).tiles == old(map).tiles,
        final(map).doors == old(map).doors,
        final(map).rooms == old(map).rooms,
        final(map).stair_links == old(map).stair_links,
        final(map).void_outcomes == old(map).void_outcomes,
{
    if map.rooms.len() == 0 {
        return;
    }
    let room = map.rooms[0];
    proof {
        lemma_room_cells(room);
    }
    let cx = (room.x1 + room.x2) / 2;
    let cy = (room.y1 + room.y2) / 2;
    let chest_x = cx + 1;
    let chest_y = cy;
    if !map.in_bounds(chest_x, chest_y) {
        return;
    }
    if !map.is_walkable(chest_x, chest_y) {
        return;
    }
    let idx = map.idx(chest_x, chest_y);
    map.props.set(idx, Some(PropType::ChestClosed));
    map.chest_items.insert((chest_x, chest_y), (ItemKind::Key, CardinalDir::N));
}

/// Cells of the L-shaped corridor that joins a new room to the last room
/// placed before it (none for the first room): along the row of the last
/// room's centre and then the column of the new room's centre, or along the
/// column of the last room's centre and then the row of the new room's centre.
pub open spec fn corridor_cells(rooms: Seq<Rect>, room: Rect, horizontal_first: bool, x: int, y: int) -> bool {
    rooms.len() > 0 && {
        let px = rooms.last().spec_center().0 as int;
        let py = rooms.last().spec_center().1 as int;
        let nx = room.spec_center().0 as int;
        let ny = room.spec_center().1 as int;
        if horizontal_first {
            in_h_corridor(px, nx, py, x, y) || in_v_corridor(py, ny, nx, x, y)
        } else {
            in_v_corridor(py, ny, px, x, y) || in_h_corridor(px, nx, ny, x, y)
        }
    }
}

proof fn lemma_carve_compose(
    m1: &FloorMap,
    m2: &FloorMap,
    m3: &FloorMap,
    p1: spec_fn(int, int) -> bool,
    p2: spec_fn(int, int) -> bool,
)
    requires
        carved_from(m2, m1, p1),
        carved_from(m3, m2, p2),
    ensures
        carved_from(m3, m1, |x: int, y: int| p1(x, y) || p2(x, y)),
{
    assert forall|x: int, y: int| #![trigger m3.tile_at(x, y)] m3.in_bounds_spec(x, y) implies m3.tile_at(x, y)
        == (if p1(x, y) || p2(x, y) {
        TileType::Floor
    } else {
        m1.tile_at(x, y)
    }) by {
        assert(m2.tile_at(x, y) == (if p1(x, y) { TileType::Floor } else { m1.tile_at(x, y) }));
    }
}

/// Places a room that intersects no room on the floor: its interior is
/// carved, and so is the corridor joining it to the last room placed
/// before it (`horizontal_first` picks the corridor's shape); then the room
/// is recorded.
pub fn place_room(map: &mut FloorMap, room: Rect, horizontal_first: bool)
    requires
        grid_inv(old(map)),
        room_fits(room),
        forall|i: int| 0 <= i < old(map).rooms@.len() ==> !(#[trigger] old(map).rooms@[i]).overlaps(room),
    ensures
        grid_inv(final(map)),
        tiles_carved(
            final(map),
            old(map),
            |x: int, y: int| in_interior(room, x, y) || corridor_cells(old(map).rooms@, room, horizontal_first, x, y),
        ),
        final(map).rooms@ == old(map).rooms@.push(room),
        final(map).props == old(map).props,
        final(map).doors == old(map).doors,
        final(map).stair_links == old(map).stair_links,
        final(map).chest_items == old(map).chest_items,
        final(map).void_outcomes == old(map).void_outcomes,
        rooms_disjoint(old(map).rooms@) ==> rooms_disjoint(final(map).rooms@),
{
    let ghost orig = *map;
    let ghost rooms0 = map.rooms@;
    map.carve_room(&room);
    proof {
        lemma_carve_keeps_grid(map, &orig, |cx: int, cy: int| in_interior(room, cx, cy));
        lemma_room_cells(room);
    }
    let ghost carved_room = *map;
    if map.rooms.len() > 0 {
        let prev = map.rooms[map.rooms.len() - 1];
        proof {
            lemma_room_cells(prev);
        }
        let (px, py) = prev.center();
        let (nx, ny) = room.center();
        let ghost b1 = *map;
        if horizontal_first {
            map.carve_h_corridor(px, nx, py);
            proof {
                lemma_carve_keeps_grid(map, &b1, |cx: int, cy: int| in_h_corridor(px as int, nx as int, py as int, cx, cy));
            }
            let ghost b2 = *map;
            map.carve_v_corridor(py, ny, nx);
            proof {
                lemma_carve_keeps_grid(map, &b2, |cx: int, cy: int| in_v_corridor(py as int, ny as int, nx as int, cx, cy));
                lemma_carve_compose(&b1, &b2, map,
                    |cx: int, cy: int| in_h_corridor(px as int, nx as int, py as int, cx, cy),
                    |cx: int, cy: int| in_v_corridor(py as int, ny as int, nx as int, cx, cy));
            }
        } else {
            map.carve_v_corridor(py, ny, px);
            proof {
                lemma_carve_keeps_grid(map, &b1, |cx: int, cy: int| in_v_corridor(py as int, ny as int, px as int, cx, cy));
            }
            let ghost b2 = *map;
            map.carve_h_corridor(px, nx, ny);
            proof {
                lemma_carve_keeps_grid(map, &b2, |cx: int, cy: int| in_h_corridor(px as int, nx as int, ny as int, cx, cy));
                lemma_carve_compose(&b1, &b2, map,
                    |cx: int, cy: int| in_v_corridor(py as int, ny as int, px as int, cx, cy),
                    |cx: int, cy: int| in_h_corridor(px as int, nx as int, ny as int, cx, cy));
            }
        }
        proof {
            let pc = |cx: int, cy: int| corridor_cells(rooms0, room, horizontal_first, cx, cy);
            assert(carved_from(map, &carved_room, pc));
            lemma_carve_compose(&orig, &carved_room, map, |cx: int, cy: int| in_interior(room, cx, cy), pc);
        }
    } else {
        proof {
            assert(carved_from(map, &orig, |cx: int, cy: int| in_interior(room, cx, cy) || corridor_cells(rooms0, room, horizontal_first, cx, cy)));
        }
    }
    proof {
        assert forall|cx: int, cy: int| #![trigger map.tile_at(cx, cy)]
            in_interior(room, cx, cy) implies map.tile_at(cx, cy) == TileType::Floor by {
            assert(carved_room.tile_at(cx, cy) == TileType::Floor);
        }
    }
    let ghost before_push = *map;
    map.rooms.push(room);
    proof {
        assert forall|k: int| 0 <= k < map.rooms@.len() implies room_fits(#[trigger] map.rooms@[k]) by {
            if k < before_push.rooms@.len() {
                assert(before_push.rooms@[k] == map.rooms@[k]);
            }
        }
        assert forall|cx: int, cy: int| #![trigger map.tile_at(cx, cy)]
            map.in_bounds_spec(cx, cy) implies (map.tile_at(cx, cy) == TileType::Wall || map.tile_at(cx, cy)
                == TileType::Floor) by {
            assert(before_push.tile_at(cx, cy) == map.tile_at(cx, cy));
        }
        assert forall|cx: int| 0 <= cx < MAP_WIDTH implies #[trigger] map.tile_at(cx, 0) == TileType::Wall by {
            assert(before_push.tile_at(cx, 0) == map.tile_at(cx, 0));
        }
        assert forall|cy: int| 0 <= cy < MAP_HEIGHT implies #[trigger] map.tile_at(0, cy) == TileType::Wall by {
            assert(before_push.tile_at(0, cy) == map.tile_at(0, cy));
        }
        assert forall|k: int, cx: int, cy: int|
            #![trigger map.rooms@[k], map.tile_at(cx, cy)]
            0 <= k < map.rooms@.len() && in_interior(map.rooms@[k], cx, cy) implies map.tile_at(cx, cy)
                == TileType::Floor by {
            if k < before_push.rooms@.len() {
                assert(before_push.rooms@[k] == map.rooms@[k]);
                assert(before_push.tile_at(cx, cy) == TileType::Floor);
            }
        }
        assert forall|cx: int, cy: int| #![trigger map.tile_at(cx, cy)] map.in_bounds_spec(cx, cy) implies
            map.tile_at(cx, cy) == (if in_interior(room, cx, cy) || corridor_cells(rooms0, room, horizontal_first, cx, cy) {
            TileType::Floor
        } else {
            orig.tile_at(cx, cy)
        }) by {
            assert(before_push.tile_at(cx, cy) == map.tile_at(cx, cy));
        }
        if rooms_disjoint(rooms0) {
            assert forall|i: int, j: int| 0 <= i < j < map.rooms@.len() implies
                !(#[trigger] map.rooms@[i]).overlaps(#[trigger] map.rooms@[j]) by {
                assert(before_push.rooms@[i] == map.rooms@[i]);
                if j < before_push.rooms@.len() {
                    assert(before_push.rooms@[j] == map.rooms@[j]);
                } else {
                    assert(!before_push.rooms@[i].overlaps(room));
                }
            }
        }
    }
}

/// Every corridor joining a room to the one placed before it (with the
/// shape recorded in `choices`) lies on the map and is floor.
pub open spec fn corridors_carved(m: &FloorMap, choices: Seq<bool>) -> bool {
    &&& choices.len() == m.rooms@.len()
    &&& forall|k: int, x: int, y: int|
        #![trigger corridor_cells(m.rooms@.subrange(0, k), m.rooms@[k], choices[k], x, y)]
        1 <= k < m.rooms@.len() && corridor_cells(m.rooms@.subrange(0, k), m.rooms@[k], choices[k], x, y)
            ==> m.in_bounds_spec(x, y) && m.tile_at(x, y) == TileType::Floor
}

/// Every corridor cell other than `b` is open.
pub open spec fn corridors_open(m: &FloorMap, closed: Seq<(i32, i32)>, choices: Seq<bool>, b: (i32, i32)) -> bool {
    forall|k: int, x: int, y: int|
        #![trigger corridor_cells(m.rooms@.subrange(0, k), m.rooms@[k], choices[k], x, y)]
        1 <= k < m.rooms@.len() && corridor_cells(m.rooms@.subrange(0, k), m.rooms@[k], choices[k], x, y)
            && (x as i32, y as i32) != b ==> open_cell(m, closed, (x as i32, y as i32))
}

/// Every room's centre can be reached from the first room's centre by a walk
/// over passable cells (no wall, no prop), with every door open.
pub open spec fn rooms_connected(m: &FloorMap) -> bool {
    forall|k: int|
        0 <= k < m.rooms@.len() ==> #[trigger] connected(
            m,
            Seq::<(i32, i32)>::empty(),
            m.rooms@[0].spec_center(),
            m.rooms@[k].spec_center(),
        )
}

/// Corridor cells between fitting rooms stay off the outer wall ring.
pub proof fn lemma_corridor_in_bounds(rooms: Seq<Rect>, room: Rect, horizontal_first: bool, x: int, y: int)
    requires
        rooms.len() > 0,
        room_fits(rooms.last()),
        room_fits(room),
        corridor_cells(rooms, room, horizontal_first, x, y),
    ensures
        1 <= x <= MAP_WIDTH - 2,
        1 <= y <= MAP_HEIGHT - 2,
{
    lemma_room_cells(rooms.last());
    lemma_room_cells(room);
}

/// By induction along the order the rooms were placed in, each room's
/// corridor links its centre to the previous room's, so all centres are
/// connected to the first.
proof fn lemma_rooms_chain(m: &FloorMap, choices: Seq<bool>, b: (i32, i32), k: int)
    requires
        choices.len() == m.rooms@.len(),
        forall|j: int| 0 <= j < m.rooms@.len() ==> room_fits(#[trigger] m.rooms@[j]),
        rooms_disjoint(m.rooms@),
        b == (chest_cell(m.rooms@[0]).0 as i32, chest_cell(m.rooms@[0]).1 as i32),
        corridors_open(m, Seq::<(i32, i32)>::empty(), choices, b),
        0 <= k < m.rooms@.len(),
    ensures
        connected(m, Seq::<(i32, i32)>::empty(), m.rooms@[0].spec_center(), m.rooms@[k].spec_center()),
    decreases k,
{
    let closed = Seq::<(i32, i32)>::empty();
    if k > 0 {
        lemma_rooms_chain(m, choices, b, k - 1);
        let prefix = m.rooms@.subrange(0, k);
        assert(prefix.last() == m.rooms@[k - 1]);
        let r0 = m.rooms@[0];
        lemma_room_cells(r0);
        if k - 1 > 0 {
            assert(!r0.overlaps(m.rooms@[k - 1]));
            lemma_centers_differ(r0, m.rooms@[k - 1]);
        }
        assert(!r0.overlaps(m.rooms@[k]));
        lemma_centers_differ(r0, m.rooms@[k]);
        assert(!m.rooms@[k - 1].overlaps(m.rooms@[k]));
        assert forall|x: int, y: int|
            #![trigger open_cell(m, closed, (x as i32, y as i32))]
            corridor_cells(prefix, m.rooms@[k], choices[k], x, y) && (x as i32, y as i32) != b implies open_cell(
                m,
                closed,
                (x as i32, y as i32),
            ) by {
            assert(corridor_cells(m.rooms@.subrange(0, k), m.rooms@[k], choices[k], x, y));
        }
        lemma_corridor_connects(m, closed, prefix, m.rooms@[k], choices[k], b);
        lemma_conn_trans(m, closed, r0.spec_center(), m.rooms@[k - 1].spec_center(), m.rooms@[k].spec_center());
    }
}

/// Rooms placed from the candidate rectangles `c`, tried in order: each
/// candidate that intersects no room placed before it is placed; the others
/// are skipped.
pub open spec fn greedy_rooms(c: Seq<Rect>) -> Seq<Rect>
    decreases c.len(),
{
    if c.len() == 0 {
        Seq::empty()
    } else {
        let g = greedy_rooms(c.drop_last());
        if exists|j: int| 0 <= j < g.len() && (#[trigger] g[j]).overlaps(c.last()) {
            g
        } else {
            g.push(c.last())
        }
    }
}

/// The room placement rule, over any candidates `c` tried in order: the
/// first candidate is always placed; placed rooms are candidates and never
/// intersect one another; and a candidate is left out only when it
/// intersects a room placed from an earlier candidate.  So every attempt
/// free of overlap yields a room.
pub proof fn lemma_room_placement(c: Seq<Rect>)
    ensures
        c.len() > 0 ==> greedy_rooms(c).len() >= 1 && greedy_rooms(c)[0] == c[0],
        greedy_rooms(c).len() <= c.len(),
        rooms_disjoint(greedy_rooms(c)),
        forall|k: int| 0 <= k < greedy_rooms(c).len() ==> c.contains(#[trigger] greedy_rooms(c)[k]),
        forall|i: int|
            0 <= i < c.len() && !greedy_rooms(c).contains(#[trigger] c[i]) ==> exists|j: int|
                0 <= j < i && greedy_rooms(c).contains(c[j]) && c[j].overlaps(c[i]),
    decreases c.len(),
{
    if c.len() > 0 {
        let d = c.drop_last();
        lemma_room_placement(d);
        let g = greedy_rooms(d);
        let r = greedy_rooms(c);
        assert forall|k: int| 0 <= k < g.len() implies r[k] == g[k] by {}
        assert forall|x: Rect| g.contains(x) implies r.contains(x) by {
            let k = choose|k: int| 0 <= k < g.len() && g[k] == x;
            assert(r[k] == x);
        }
        assert forall|k: int| 0 <= k < r.len() implies c.contains(#[trigger] r[k]) by {
            if k < g.len() {
                assert(d.contains(g[k]));
                let j = choose|j: int| 0 <= j < d.len() && d[j] == g[k];
                assert(c[j] == g[k]);
            } else {
                assert(r[k] == c[c.len() - 1]);
            }
        }
        if d.len() == 0 {
            assert(g.len() == 0);
            assert(r =~= seq![c[0]]);
        } else {
            assert(r[0] == g[0]);
        }
        assert forall|i: int|
            0 <= i < c.len() && !r.contains(#[trigger] c[i]) implies exists|j: int|
                0 <= j < i && r.contains(c[j]) && c[j].overlaps(c[i]) by {
            if i < d.len() {
                assert(d[i] == c[i]);
                if g.contains(d[i]) {
                    assert(r.contains(c[i]));
                }
                let j = choose|j: int| 0 <= j < i && g.contains(d[j]) && d[j].overlaps(d[i]);
                assert(d[j] == c[j]);
                assert(r.contains(c[j]));
            } else {
                assert(c[i] == c.last());
                if !(exists|j: int| 0 <= j < g.len() && (#[trigger] g[j]).overlaps(c.last())) {
                    assert(r[r.len() - 1] == c[i]);
                    assert(r.contains(c[i]));
                }
                let j = choose|j: int| 0 <= j < g.len() && (#[trigger] g[j]).overlaps(c.last());
                assert(d.contains(g[j]));
                let m = choose|m: int| 0 <= m < d.len() && d[m] == g[j];
                assert(c[m] == g[j]);
                assert(r.contains(c[m]));
            }
        }
    }
}

/// Builds one floor from its room candidates, tried in order: every
/// candidate that intersects no room placed so far is placed and joined to
/// the previously placed room by an L-shaped three-tile-wide corridor
/// (`coins[i]` picks the corridor's shape for candidate `i`); then a test
/// door goes on the first room's south wall and a chest holding a key next
/// to the first room's centre.
pub fn build_floor(cands: &Vec<Rect>, coins: &Vec<bool>) -> (map: FloorMap)
    requires
        1 <= cands@.len() <= MAX_ROOMS,
        coins@.len() == cands@.len(),
        forall|i: int| 0 <= i < cands@.len() ==> room_fits(#[trigger] cands@[i]),
    ensures
        floor_layout(&map),
        map.rooms@ == greedy_rooms(cands@),
        map.stair_links@ == Map::<(i32, i32), StairNode>::empty(),
        forall|x: int, y: int|
            #![trigger map.tile_at(x, y)]
            map.in_bounds_spec(x, y) ==> (map.tile_at(x, y) == TileType::Wall || map.tile_at(x, y)
                == TileType::Floor),
{
    let mut map = FloorMap::new();
    proof {
        assert forall|x: int, y: int| #![trigger map.tile_at(x, y)]
            map.in_bounds_spec(x, y) implies map.tile_at(x, y) == TileType::Wall by {
            map.lemma_idx(x, y);
        }
        assert(cands@.take(0) =~= Seq::<Rect>::empty());
    }
    let ghost mut choices = Seq::<bool>::empty();
    let mut attempt: usize = 0;
    while attempt < cands.len()
        invariant
            attempt <= cands@.len(),
            cands@.len() <= MAX_ROOMS,
            coins@.len() == cands@.len(),
            forall|i: int| 0 <= i < cands@.len() ==> room_fits(#[trigger] cands@[i]),
            map.rooms@ == greedy_rooms(cands@.take(attempt as int)),
            grid_inv(&map),
            corridors_carved(&map, choices),
            forall|i: int| 0 <= i < map.props@.len() ==> map.props@[i] is None,
            map.doors@.len() == 0,
            map.stair_links@ == Map::<(i32, i32), StairNode>::empty(),
            map.chest_items@ == Map::<(i32, i32), (ItemKind, CardinalDir)>::empty(),
            map.void_outcomes@ == Map::<(i32, i32), crate::map::VoidOutcome>::empty(),
            map.rooms@.len() <= attempt,
            attempt > 0 ==> map.rooms@.len() >= 1,
            rooms_disjoint(map.rooms@),
        decreases cands@.len() - attempt,
    {
        let new_room = cands[attempt];
        proof {
            assert(cands@.take(attempt + 1).drop_last() =~= cands@.take(attempt as int));
            assert(cands@.take(attempt + 1).last() == new_room);
        }
        let ghost rooms_before = map.rooms@;
        if !overlaps_any(&map.rooms, &new_room) {
            let horizontal_first = if map.rooms.len() > 0 {
                coins[attempt]
            } else {
                false
            };
            let ghost before = map;
            place_room(&mut map, new_room, horizontal_first);
            proof {
                let old_choices = choices;
                choices = choices.push(horizontal_first);
                assert forall|k: int, cx: int, cy: int|
                    #![trigger corridor_cells(map.rooms@.subrange(0, k), map.rooms@[k], choices[k], cx, cy)]
                    1 <= k < map.rooms@.len() && corridor_cells(map.rooms@.subrange(0, k), map.rooms@[k], choices[k], cx, cy)
                    implies map.in_bounds_spec(cx, cy) && map.tile_at(cx, cy) == TileType::Floor by {
                    assert(map.rooms@.subrange(0, k).last() == map.rooms@[k - 1]);
                    lemma_corridor_in_bounds(map.rooms@.subrange(0, k), map.rooms@[k], choices[k], cx, cy);
                    if k < before.rooms@.len() {
                        assert(map.rooms@.subrange(0, k) =~= before.rooms@.subrange(0, k));
                        assert(map.rooms@[k] == before.rooms@[k]);
                        assert(choices[k] == old_choices[k]);
                        assert(corridor_cells(before.rooms@.subrange(0, k), before.rooms@[k], old_choices[k], cx, cy));
                        assert(before.tile_at(cx, cy) == TileType::Floor);
                    } else {
                        assert(map.rooms@.subrange(0, k) =~= before.rooms@);
                    }
                }
            }
        }
        proof {
            assert(map.rooms@ == greedy_rooms(cands@.take(attempt + 1)));
        }
        attempt = attempt + 1;
    }
    proof {
        assert(cands@.take(cands@.len() as int) =~= cands@);
    }
    let ghost generated = map;
    place_test_door(&mut map);
    let ghost with_door = map;
    place_test_chest(&mut map);
    proof {
        let r = generated.rooms@[0];
        lemma_room_cells(r);
        let cx = r.spec_center().0 as int;
        let c = chest_cell(r);
        assert(map.rooms@[0] == r);
        assert forall|x: int, y: int| #![trigger map.tile_at(x, y)] map.in_bounds_spec(x, y)
            implies map.tile_at(x, y) == (if x == cx && (y == r.y2 || y == r.y2 + 1) {
            TileType::Floor
        } else {
            generated.tile_at(x, y)
        }) by {
            assert(with_door.tile_at(x, y) == map.tile_at(x, y));
        }
        assert forall|k: int, x: int, y: int|
            #![trigger map.rooms@[k], map.tile_at(x, y)]
            0 <= k < map.rooms@.len() && in_interior(map.rooms@[k], x, y) implies map.tile_at(x, y).walkable() by {
            assert(generated.rooms@[k] == map.rooms@[k]);
            assert(generated.tile_at(x, y) == TileType::Floor);
        }
        assert forall|x: int| 0 <= x < MAP_WIDTH implies #[trigger] map.tile_at(x, 0) == TileType::Wall by {
            assert(generated.tile_at(x, 0) == TileType::Wall);
        }
        assert forall|y: int| 0 <= y < MAP_HEIGHT implies #[trigger] map.tile_at(0, y) == TileType::Wall by {
            assert(generated.tile_at(0, y) == TileType::Wall);
        }
        assert forall|x: int, y: int| #![trigger map.tile_at(x, y)] map.in_bounds_spec(x, y)
            implies (map.tile_at(x, y) == TileType::Wall || map.tile_at(x, y) == TileType::Floor) by {
            assert(generated.tile_at(x, y) == TileType::Wall || generated.tile_at(x, y) == TileType::Floor);
        }
        assert(map.in_bounds_spec(c.0, c.1));
        map.lemma_idx(c.0, c.1);
        assert forall|x: int, y: int| #![trigger map.prop_at(x, y)] map.in_bounds_spec(x, y)
            implies map.prop_at(x, y) == (if (x, y) == c {
            Some(PropType::ChestClosed)
        } else {
            None
        }) by {
            map.lemma_idx(x, y);
        }
        assert(map.chest_items@ =~= map![(c.0 as i32, c.1 as i32) => (ItemKind::Key, CardinalDir::N)]);
        let b: (i32, i32) = (c.0 as i32, c.1 as i32);
        let closed = Seq::<(i32, i32)>::empty();
        assert forall|k: int, x: int, y: int|
            #![trigger corridor_cells(map.rooms@.subrange(0, k), map.rooms@[k], choices[k], x, y)]
            1 <= k < map.rooms@.len() && corridor_cells(map.rooms@.subrange(0, k), map.rooms@[k], choices[k], x, y)
                && (x as i32, y as i32) != b implies open_cell(&map, closed, (x as i32, y as i32)) by {
            assert(generated.rooms@ == map.rooms@);
            assert(corridor_cells(generated.rooms@.subrange(0, k), generated.rooms@[k], choices[k], x, y));
            assert(generated.in_bounds_spec(x, y) && generated.tile_at(x, y) == TileType::Floor);
            assert(map.tile_at(x, y) == TileType::Floor);
            assert(map.prop_at(x, y) is None);
        }
        assert forall|k: int| 0 <= k < map.rooms@.len() implies #[trigger] connected(
            &map,
            Seq::<(i32, i32)>::empty(),
            map.rooms@[0].spec_center(),
            map.rooms@[k].spec_center(),
        ) by {
            lemma_rooms_chain(&map, choices, b, k);
        }
    }
    map
}

/// Generates one floor: `MAX_ROOMS` random candidate rooms, each of random
/// size and position inside the outer wall ring, and a random corridor shape
/// for each, built into a floor by [`build_floor`].
pub fn generate_map() -> (map: FloorMap)
    ensures
        floor_layout(&map),
        exists|c: Seq<Rect>|
            c.len() == MAX_ROOMS && (forall|i: int| 0 <= i < c.len() ==> room_fits(#[trigger] c[i]))
                && map.rooms@ == greedy_rooms(c),
        map.stair_links@ == Map::<(i32, i32), StairNode>::empty(),
        forall|x: int, y: int|
            #![trigger map.tile_at(x, y)]
            map.in_bounds_spec(x, y) ==> (map.tile_at(x, y) == TileType::Wall || map.tile_at(x, y)
                == TileType::Floor),
{
    let mut cands: Vec<Rect> = Vec::new();
    let mut coins: Vec<bool> = Vec::new();
    while cands.len() < MAX_ROOMS
        invariant
            cands@.len() <= MAX_ROOMS,
            coins@.len() == cands@.len(),
            forall|i: int| 0 <= i < cands@.len() ==> room_fits(#[trigger] cands@[i]),
        decreases MAX_ROOMS - cands@.len(),
    {
        let w = random_in_range(MIN_ROOM_SIZE, MAX_ROOM_SIZE);
        let h = random_in_range(MIN_ROOM_SIZE, MAX_ROOM_SIZE);
        let x = random_in_range(1, MAP_WIDTH - w - 2);
        let y = random_in_range(1, MAP_HEIGHT - h - 2);
        let room = Rect::new(x, y, w, h);
        assert(room_fits(room));
        cands.push(room);
        coins.push(random_in_range(0, 1) == 1);
    }
    build_floor(&cands, &coins)
}

/// Every cell of `m` is wall or floor, except perhaps the cell `skip`.
pub open spec fn plain_except(m: &FloorMap, skip: Option<(i32, i32)>) -> bool {
    forall|x: int, y: int|
        #![trigger m.tile_at(x, y)]
        m.in_bounds_spec(x, y) && skip != Some((x as i32, y as i32)) ==> (m.tile_at(x, y) == TileType::Wall
            || m.tile_at(x, y) == TileType::Floor)
}

/// Where a floor's staircase stands: the centre of its last room.
pub open spec fn stair_pos(m: &FloorMap) -> (i32, i32) {
    m.rooms@.last().spec_center()
}

/// The traversal options of the stair on floor `f` of an `n`-floor dungeon:
/// up to floor `f - 1` unless on top, down to floor `f + 1` unless at the
/// bottom, each leg landing on the other floor's stair.
pub open spec fn expected_stair_node(floors: Seq<FloorMap>, f: int) -> StairNode {
    StairNode {
        up: if f > 0 {
            Some(StairLink { target_floor: (f - 1) as usize, target_pos: stair_pos(&floors[f - 1]) })
        } else {
            None
        },
        down: if f < floors.len() - 1 {
            Some(StairLink { target_floor: (f + 1) as usize, target_pos: stair_pos(&floors[f + 1]) })
        } else {
            None
        },
    }
}

/// Stair tile on floor `f` of an `n`-floor dungeon (`n >= 2`).
pub open spec fn expected_stair_tile(n: int, f: int) -> TileType {
    if f == 0 {
        TileType::StairsDown
    } else if f == n - 1 {
        TileType::StairsUp
    } else {
        TileType::StairsMid
    }
}

/// The stair of floor `f`: none in a one-floor dungeon; otherwise exactly one,
/// at the floor's stair position, of the tile type and with the links its
/// depth calls for.
pub open spec fn floor_stairs_ok(floors: Seq<FloorMap>, f: int) -> bool {
    if floors.len() == 1 {
        floors[f].stair_links@ == Map::<(i32, i32), StairNode>::empty()
    } else {
        &&& floors[f].stair_links@ == map![stair_pos(&floors[f]) => expected_stair_node(floors, f)]
        &&& floors[f].tile_at(stair_pos(&floors[f]).0 as int, stair_pos(&floors[f]).1 as int)
            == expected_stair_tile(floors.len() as int, f)
    }
}

/// The single staircase shaft of a generated dungeon (see [`floor_stairs_ok`]).
pub open spec fn stairs_linked(floors: Seq<FloorMap>) -> bool {
    forall|f: int| 0 <= f < floors.len() ==> #[trigger] floor_stairs_ok(floors, f)
}

/// Turns the stair position of a generated floor into a stair tile with the
/// given links.  The layout is kept because a stair is walkable.
fn place_stair(m: &mut FloorMap, tile: TileType, node: StairNode)
    requires
        floor_layout(old(m)),
        old(m).stair_links@ == Map::<(i32, i32), StairNode>::empty(),
        tile.walkable(),
    ensures
        floor_layout(final(m)),
        final(m).rooms == old(m).rooms,
        final(m).doors == old(m).doors,
        final(m).props == old(m).props,
        stair_pos(final(m)) == stair_pos(old(m)),
        final(m).tile_at(stair_pos(old(m)).0 as int, stair_pos(old(m)).1 as int) == tile,
        forall|x: int, y: int|
            #![trigger final(m).tile_at(x, y)]
            final(m).in_bounds_spec(x, y) && (x, y) != (stair_pos(old(m)).0 as int, stair_pos(old(m)).1 as int)
                ==> final(m).tile_at(x, y) == old(m).tile_at(x, y),
        final(m).stair_links@ == map![stair_pos(old(m)) => node],
{
    let ghost orig = *m;
    let last = m.rooms[m.rooms.len() - 1];
    proof {
        lemma_room_cells(last);
    }
    let (sx, sy) = last.center();
    let si = m.idx(sx, sy);
    m.tiles.set(si, tile);
    m.stair_links.insert((sx, sy), node);
    proof {
        assert forall|x: int, y: int| #![trigger m.tile_at(x, y)] m.in_bounds_spec(x, y) implies
            m.tile_at(x, y) == (if x == sx && y == sy { tile } else { orig.tile_at(x, y) }) by {
            orig.lemma_idx(x, y);
            orig.lemma_idx(sx as int, sy as int);
        }
        assert forall|k: int, x: int, y: int|
            #![trigger m.rooms@[k], m.tile_at(x, y)]
            0 <= k < m.rooms@.len() && in_interior(m.rooms@[k], x, y) implies m.tile_at(x, y).walkable() by {
            assert(orig.rooms@[k] == m.rooms@[k]);
            assert(orig.tile_at(x, y).walkable());
        }
        assert forall|x: int| 0 <= x < MAP_WIDTH implies #[trigger] m.tile_at(x, 0) == TileType::Wall by {
            assert(orig.tile_at(x, 0) == TileType::Wall);
        }
        assert forall|y: int| 0 <= y < MAP_HEIGHT implies #[trigger] m.tile_at(0, y) == TileType::Wall by {
            assert(orig.tile_at(0, y) == TileType::Wall);
        }
        let d = m.doors@[0];
        assert(orig.walkable_at(d.x as int, d.y as int));
        assert(orig.walkable_at(d.x as int, d.y + 1));
        assert forall|x: int, y: int| #![trigger m.prop_at(x, y)] m.in_bounds_spec(x, y) implies
            m.prop_at(x, y) == orig.prop_at(x, y) by {}
        assert(m.stair_links@ =~= map![(sx, sy) => node]);
        let closed = Seq::<(i32, i32)>::empty();
        assert forall|p: (i32, i32)| #[trigger] open_cell(&orig, closed, p) implies open_cell(m, closed, p) by {
            assert(orig.walkable_at(p.0 as int, p.1 as int));
            assert(m.prop_at(p.0 as int, p.1 as int) == orig.prop_at(p.0 as int, p.1 as int));
        }
        assert forall|k: int| 0 <= k < m.rooms@.len() implies #[trigger] connected(
            m,
            closed,
            m.rooms@[0].spec_center(),
            m.rooms@[k].spec_center(),
        ) by {
            assert(connected(&orig, closed, orig.rooms@[0].spec_center(), orig.rooms@[k].spec_center()));
            if orig.rooms@[0].spec_center() != orig.rooms@[k].spec_center() {
                lemma_reach_monotone(&orig, m, closed, orig.rooms@[0].spec_center(), orig.rooms@[k].spec_center());
            }
        }
    }
}

/// Generates a multi-floor dungeon linked by a single staircase shaft.
///
/// Each floor's stair tile sits at its last room's centre, forming a chain:
/// `StairsDown` on the top floor, `StairsMid` on intermediate floors and
/// `StairsUp` on the bottom floor, each linked to its neighbours.  A
/// one-floor dungeon has no stairs.  The player starts on floor 0.
pub fn generate_dungeon(num_floors: usize) -> (d: Dungeon)
    requires
        num_floors >= 1,
    ensures
        d.wf(),
        d.floors@.len() == num_floors,
        d.current_floor == 0,
        forall|f: int| 0 <= f < num_floors ==> floor_layout(&(#[trigger] d.floors@[f])),
        stairs_linked(d.floors@),
        forall|f: int| 0 <= f < num_floors ==> plain_except(
            &(#[trigger] d.floors@[f]),
            if num_floors == 1 { None } else { Some(stair_pos(&d.floors@[f])) },
        ),
{
    let mut raw: Vec<FloorMap> = Vec::new();
    while raw.len() < num_floors
        invariant
            raw@.len() <= num_floors,
            forall|f: int| 0 <= f < raw@.len() ==> floor_layout(&(#[trigger] raw@[f])),
            forall|f: int| 0 <= f < raw@.len() ==> (#[trigger] raw@[f]).stair_links@ == Map::<(i32, i32), StairNode>::empty(),
            forall|f: int| 0 <= f < raw@.len() ==> plain_except(&(#[trigger] raw@[f]), None),
        decreases num_floors - raw@.len(),
    {
        raw.push(generate_map());
    }
    let ghost all_raw = raw@;
    let mut positions: Vec<(i32, i32)> = Vec::new();
    let mut f: usize = 0;
    while f < num_floors
        invariant
            raw@ == all_raw,
            all_raw.len() == num_floors,
            forall|g: int| 0 <= g < all_raw.len() ==> floor_layout(&(#[trigger] all_raw[g])),
            forall|g: int| 0 <= g < all_raw.len() ==> plain_except(&(#[trigger] all_raw[g]), None),
            f <= num_floors,
            positions@.len() == f,
            forall|g: int| 0 <= g < f ==> #[trigger] positions@[g] == stair_pos(&all_raw[g]),
        decreases num_floors - f,
    {
        let m = &raw[f];
        positions.push(m.rooms[m.rooms.len() - 1].center());
        f = f + 1;
    }
    let mut floors: Vec<FloorMap> = Vec::new();
    let mut f: usize = 0;
    while f < num_floors
        invariant
            all_raw.len() == num_floors,
            forall|g: int| 0 <= g < all_raw.len() ==> floor_layout(&(#[trigger] all_raw[g])),
            forall|g: int| 0 <= g < all_raw.len() ==> (#[trigger] all_raw[g]).stair_links@ == Map::<(i32, i32), StairNode>::empty(),
            forall|g: int| 0 <= g < all_raw.len() ==> plain_except(&(#[trigger] all_raw[g]), None),
            forall|g: int| 0 <= g < f ==> plain_except(
                &(#[trigger] floors@[g]),
                if num_floors == 1 { None } else { Some(stair_pos(&all_raw[g])) },
            ),
            positions@.len() == num_floors,
            forall|g: int| 0 <= g < num_floors ==> #[trigger] positions@[g] == stair_pos(&all_raw[g]),
            f <= num_floors,
            raw@ == all_raw.subrange(f as int, num_floors as int),
            floors@.len() == f,
            forall|g: int| 0 <= g < f ==> floor_layout(&(#[trigger] floors@[g])),
            forall|g: int| 0 <= g < f ==> (#[trigger] floors@[g]).rooms == all_raw[g].rooms,
            forall|g: int| 0 <= g < f ==> if num_floors == 1 {
                (#[trigger] floors@[g]).stair_links@ == Map::<(i32, i32), StairNode>::empty()
            } else {
                &&& (#[trigger] floors@[g]).stair_links@ == map![stair_pos(&all_raw[g]) => expected_stair_node(all_raw, g)]
                &&& floors@[g].tile_at(stair_pos(&all_raw[g]).0 as int, stair_pos(&all_raw[g]).1 as int)
                    == expected_stair_tile(num_floors as int, g)
            },
        decreases num_floors - f,
    {
        assert(raw@[0] == all_raw[f as int]);
        let mut m = raw.remove(0);
        let is_top = f == 0;
        let is_bottom = f == num_floors - 1;
        if !(is_top && is_bottom) {
            let tile = if is_top {
                TileType::StairsDown
            } else if is_bottom {
                TileType::StairsUp
            } else {
                TileType::StairsMid
            };
            let up = if !is_top {
                Some(StairLink { target_floor: f - 1, target_pos: positions[f - 1] })
            } else {
                None
            };
            let down = if !is_bottom {
                Some(StairLink { target_floor: f + 1, target_pos: positions[f + 1] })
            } else {
                None
            };
            let node = StairNode { up, down };
            assert(node == expected_stair_node(all_raw, f as int));
            let ghost before = m;
            place_stair(&mut m, tile, node);
            proof {
                assert(plain_except(&before, None));
                assert forall|x: int, y: int|
                    #![trigger m.tile_at(x, y)]
                    m.in_bounds_spec(x, y) && Some(stair_pos(&all_raw[f as int])) != Some((x as i32, y as i32))
                        implies (m.tile_at(x, y) == TileType::Wall || m.tile_at(x, y) == TileType::Floor) by {
                    assert(before.tile_at(x, y) == TileType::Wall || before.tile_at(x, y) == TileType::Floor);
                }
            }
        }
        floors.push(m);
        f = f + 1;
    }
    let d = Dungeon { floors, current_floor: 0 };
    proof {
        assert forall|g: int| 0 <= g < num_floors implies stair_pos(&(#[trigger] d.floors@[g])) == stair_pos(&all_raw[g]) by {}
        assert forall|g: int| 0 <= g < num_floors implies #[trigger] expected_stair_node(d.floors@, g) == expected_stair_node(all_raw, g) by {
            if g > 0 {
                assert(stair_pos(&d.floors@[g - 1]) == stair_pos(&all_raw[g - 1]));
            }
            if g < num_floors - 1 {
                assert(stair_pos(&d.floors@[g + 1]) == stair_pos(&all_raw[g + 1]));
            }
        }
        assert forall|g: int| 0 <= g < num_floors implies plain_except(
            &(#[trigger] d.floors@[g]),
            if num_floors == 1 { None } else { Some(stair_pos(&d.floors@[g])) },
        ) by {
            assert(stair_pos(&d.floors@[g]) == stair_pos(&all_raw[g]));
        }
        assert forall|g: int| 0 <= g < d.floors@.len() implies (#[trigger] d.floors@[g]).wf() by {
            assert(floor_layout(&d.floors@[g]));
        }
        assert forall|g: int| 0 <= g < d.floors@.len() implies #[trigger] floor_stairs_ok(d.floors@, g) by {
            assert(stair_pos(&d.floors@[g]) == stair_pos(&all_raw[g]));
            assert(expected_stair_node(d.floors@, g) == expected_stair_node(all_raw, g));
        }
    }
    d
}

/// On every generated floor the player's starting cell, the first room's
/// centre, can be walked on and holds no prop.
pub proof fn lemma_first_room_center_passable(m: &FloorMap)
    requires
        floor_layout(m),
    ensures
        m.walkable_at(m.rooms@[0].spec_center().0 as int, m.rooms@[0].spec_center().1 as int),
        m.passable_at(m.rooms@[0].spec_center().0 as int, m.rooms@[0].spec_center().1 as int),
{
    let r = m.rooms@[0];
    lemma_room_cells(r);
    let c = r.spec_center();
    assert(m.tile_at(c.0 as int, c.1 as int).walkable());
    assert(m.prop_at(c.0 as int, c.1 as int) is None);
}

/// On every generated floor the staircase spot, the last room's centre, can
/// be walked to from the player's starting cell, the first room's centre,
/// with every door open.
pub proof fn lemma_stair_reachable(m: &FloorMap)
    requires
        floor_layout(m),
    ensures
        connected(m, Seq::<(i32, i32)>::empty(), m.rooms@[0].spec_center(), stair_pos(m)),
{
    assert(connected(
        m,
        Seq::<(i32, i32)>::empty(),
        m.rooms@[0].spec_center(),
        m.rooms@[m.rooms@.len() - 1].spec_center(),
    ));
}

/// The door of a generated floor can be approached from both sides: with the
/// door open, the cell just outside it can be walked to from the player's
/// starting cell, the first room's centre, straight down through the door.
pub proof fn lemma_door_approachable(m: &FloorMap)
    requires
        floor_layout(m),
    ensures
        connected(
            m,
            Seq::<(i32, i32)>::empty(),
            m.rooms@[0].spec_center(),
            (m.doors@[0].x, (m.doors@[0].y + 1) as i32),
        ),
{
    let r = m.rooms@[0];
    lemma_room_cells(r);
    let c = r.spec_center();
    let closed = Seq::<(i32, i32)>::empty();
    let cx = c.0;
    assert forall|y: int| #![trigger open_cell(m, closed, (cx, y as i32))]
        ((c.1 < y <= r.y2 + 1) || (r.y2 + 1 <= y < c.1)) implies open_cell(m, closed, (cx, y as i32)) by {
        assert(m.in_bounds_spec(cx as int, y));
        if y < r.y2 {
            assert(in_interior(r, cx as int, y));
            assert(m.tile_at(cx as int, y).walkable());
        }
        assert(m.prop_at(cx as int, y) is None);
    }
    lemma_col(m, closed, cx, c.1, (r.y2 + 1) as i32);
}

/// Every stair link can be walked back: following a floor's down link leads
/// to a stair whose up link returns to the same floor and position, and
/// following an up link leads to a stair whose down link returns.
pub proof fn lemma_stairs_bidirectional(floors: Seq<FloorMap>, f: int, p: (i32, i32))
    requires
        stairs_linked(floors),
        floors.len() <= usize::MAX,
        0 <= f < floors.len(),
        floors[f].stair_links@.dom().contains(p),
    ensures
        floors[f].stair_links@[p].down matches Some(l) ==> {
            &&& 0 <= l.target_floor < floors.len()
            &&& floors[l.target_floor as int].stair_links@.dom().contains(l.target_pos)
            &&& floors[l.target_floor as int].stair_links@[l.target_pos].up == Some(
                StairLink { target_floor: f as usize, target_pos: p },
            )
        },
        floors[f].stair_links@[p].up matches Some(l) ==> {
            &&& 0 <= l.target_floor < floors.len()
            &&& floors[l.target_floor as int].stair_links@.dom().contains(l.target_pos)
            &&& floors[l.target_floor as int].stair_links@[l.target_pos].down == Some(
                StairLink { target_floor: f as usize, target_pos: p },
            )
        },
{
    assert(floor_stairs_ok(floors, f));
    assert(floors.len() != 1);
    assert(p == stair_pos(&floors[f]));
    if f < floors.len() - 1 {
        assert(floor_stairs_ok(floors, f + 1));
    }
    if f > 0 {
        assert(floor_stairs_ok(floors, f - 1));
    }
}

/// Stair tiles can be walked on, and which links a stair carries follows its
/// depth: every floor but the last links down, every floor but the first
/// links up, so an intermediate floor's stair is a `StairsMid` with both.
pub proof fn lemma_stair_shape(floors: Seq<FloorMap>, f: int)
    requires
        stairs_linked(floors),
        forall|g: int| 0 <= g < floors.len() ==> floor_layout(&(#[trigger] floors[g])),
        floors.len() >= 2,
        0 <= f < floors.len(),
    ensures
        floors[f].stair_links@.dom() == set![stair_pos(&floors[f])],
        floors[f].walkable_at(stair_pos(&floors[f]).0 as int, stair_pos(&floors[f]).1 as int),
        (floors[f].stair_links@[stair_pos(&floors[f])].down is Some) == (f < floors.len() - 1),
        (floors[f].stair_links@[stair_pos(&floors[f])].up is Some) == (f > 0),
        floors[f].tile_at(stair_pos(&floors[f]).0 as int, stair_pos(&floors[f]).1 as int)
            == TileType::StairsMid <==> 0 < f < floors.len() - 1,
{
    assert(floor_stairs_ok(floors, f));
    let m = floors[f];
    let r = m.rooms@.last();
    assert(room_fits(m.rooms@[m.rooms@.len() - 1]));
    lemma_room_cells(r);
    assert(m.stair_links@.dom() =~= set![stair_pos(&m)]);
}

/// Two fitting rooms that do not intersect have different centres (each
/// centre lies inside its own room).
pub proof fn lemma_centers_differ(r1: Rect, r2: Rect)
    requires
        room_fits(r1),
        room_fits(r2),
        !r1.overlaps(r2),
    ensures
        r1.spec_center() != r2.spec_center(),
        chest_cell(r1) != (r2.spec_center().0 as int, r2.spec_center().1 as int),
{
    lemma_room_cells(r1);
    lemma_room_cells(r2);
}

/// The L-shaped corridor joining two rooms connects their centres, even
/// with one cell `b` other than the centres blocked.
pub proof fn lemma_corridor_connects(
    m: &FloorMap,
    closed: Seq<(i32, i32)>,
    rooms: Seq<Rect>,
    room: Rect,
    horizontal_first: bool,
    b: (i32, i32),
)
    requires
        rooms.len() > 0,
        room_fits(rooms.last()),
        room_fits(room),
        !rooms.last().overlaps(room),
        b != rooms.last().spec_center(),
        b != room.spec_center(),
        forall|x: int, y: int|
            #![trigger open_cell(m, closed, (x as i32, y as i32))]
            corridor_cells(rooms, room, horizontal_first, x, y) && (x as i32, y as i32) != b ==> open_cell(
                m,
                closed,
                (x as i32, y as i32),
            ),
    ensures
        connected(m, closed, rooms.last().spec_center(), room.spec_center()),
{
    let p = rooms.last().spec_center();
    let q = room.spec_center();
    lemma_centers_differ(rooms.last(), room);
    lemma_room_cells(rooms.last());
    lemma_room_cells(room);
    let px = p.0 as int;
    let py = p.1 as int;
    let nx = q.0 as int;
    let ny = q.1 as int;
    let ylo = spec_min(py, ny);
    let yhi = spec_max(py, ny);
    let xlo = spec_min(px, nx);
    let xhi = spec_max(px, nx);
    if px == nx {
        // Both centres lie in the vertical corridor, three columns wide.
        assert(rect_open(m, closed, nx - 1, nx + 1, ylo, yhi, b)) by {
            assert forall|x: int, y: int|
                #![trigger open_cell(m, closed, (x as i32, y as i32))]
                nx - 1 <= x <= nx + 1 && ylo <= y <= yhi && (x as i32, y as i32) != b implies open_cell(m, closed, (x as i32, y as i32)) by {
                assert(corridor_cells(rooms, room, horizontal_first, x, y));
            }
        }
        lemma_rect(m, closed, nx - 1, nx + 1, ylo, yhi, b, p, q);
    } else if py == ny {
        // Both centres lie in the horizontal corridor, three rows high.
        assert(rect_open(m, closed, xlo, xhi, py - 1, py + 1, b)) by {
            assert forall|x: int, y: int|
                #![trigger open_cell(m, closed, (x as i32, y as i32))]
                xlo <= x <= xhi && py - 1 <= y <= py + 1 && (x as i32, y as i32) != b implies open_cell(m, closed, (x as i32, y as i32)) by {
                assert(corridor_cells(rooms, room, horizontal_first, x, y));
            }
        }
        lemma_rect(m, closed, xlo, xhi, py - 1, py + 1, b, p, q);
    } else if horizontal_first {
        // Row py first (rows py-1..py+1), then column nx (columns nx-1..nx+1).
        assert(rect_open(m, closed, xlo, xhi, py - 1, py + 1, b)) by {
            assert forall|x: int, y: int|
                #![trigger open_cell(m, closed, (x as i32, y as i32))]
                xlo <= x <= xhi && py - 1 <= y <= py + 1 && (x as i32, y as i32) != b implies open_cell(m, closed, (x as i32, y as i32)) by {
                assert(corridor_cells(rooms, room, horizontal_first, x, y));
            }
        }
        assert(rect_open(m, closed, nx - 1, nx + 1, ylo, yhi, b)) by {
            assert forall|x: int, y: int|
                #![trigger open_cell(m, closed, (x as i32, y as i32))]
                nx - 1 <= x <= nx + 1 && ylo <= y <= yhi && (x as i32, y as i32) != b implies open_cell(m, closed, (x as i32, y as i32)) by {
                assert(corridor_cells(rooms, room, horizontal_first, x, y));
            }
        }
        let j1: (i32, i32) = (nx as i32, py as i32);
        let j2: (i32, i32) = (nx as i32, (if ny > py { py + 1 } else { py - 1 }) as i32);
        let j = if j1 != b { j1 } else { j2 };
        lemma_rect(m, closed, xlo, xhi, py - 1, py + 1, b, p, j);
        if j != q {
            lemma_rect(m, closed, nx - 1, nx + 1, ylo, yhi, b, j, q);
        }
        lemma_conn_trans(m, closed, p, j, q);
    } else {
        // Column px first (columns px-1..px+1), then row ny (rows ny-1..ny+1).
        assert(rect_open(m, closed, px - 1, px + 1, ylo, yhi, b)) by {
            assert forall|x: int, y: int|
                #![trigger open_cell(m, closed, (x as i32, y as i32))]
                px - 1 <= x <= px + 1 && ylo <= y <= yhi && (x as i32, y as i32) != b implies open_cell(m, closed, (x as i32, y as i32)) by {
                assert(corridor_cells(rooms, room, horizontal_first, x, y));
            }
        }
        assert(rect_open(m, closed, xlo, xhi, ny - 1, ny + 1, b)) by {
            assert forall|x: int, y: int|
                #![trigger open_cell(m, closed, (x as i32, y as i32))]
                xlo <= x <= xhi && ny - 1 <= y <= ny + 1 && (x as i32, y as i32) != b implies open_cell(m, closed, (x as i32, y as i32)) by {
                assert(corridor_cells(rooms, room, horizontal_first, x, y));
            }
        }
        let j1: (i32, i32) = (px as i32, ny as i32);
        let j2: (i32, i32) = ((if nx > px { px + 1 } else { px - 1 }) as i32, ny as i32);
        let j = if j1 != b { j1 } else { j2 };
        if j != p {
            lemma_rect(m, closed, px - 1, px + 1, ylo, yhi, b, p, j);
        }
        lemma_rect(m, closed, xlo, xhi, ny - 1, ny + 1, b, j, q);
        lemma_conn_trans(m, closed, p, j, q);
    }
}

} // verus!
