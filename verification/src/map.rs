use vstd::prelude::*;
use crate::components::{CardinalDir, ItemKind};
use crate::pos_map::PosMap;


verus! {

/// Width of every generated floor, in tiles.
pub const MAP_WIDTH: i32 = 40;
/// Height of every generated floor, in tiles.
pub const MAP_HEIGHT: i32 = 22;

/// The base type of a map cell.  Determines rendering and tile-level
/// walkability (see [`FloorMap::is_walkable`]).  Gameplay-level passability also
/// accounts for props — see [`FloorMap::is_passable`].
#[derive(Clone, Copy, PartialEq, Eq, Debug, Structural)]
pub enum TileType {
    /// Standard stone wall.
    Wall,
    /// Closed door — impassable.
    DoorClosed,
    /// Damaged/collapsed wall section.
    BrokenWall,
    /// Wall with a window opening.
    Window,
    /// Standard stone floor.
    Floor,
    /// Dirt/earth floor.
    Dirt,
    /// Wooden plank floor.
    Planks,
    /// Bridge section spanning a gap.
    Bridge,
    /// Spiral staircase descending to the next (deeper) floor.
    StairsDown,
    /// Intermediate stair tile connecting the floor above and the floor below.
    StairsMid,
    /// Staircase ascending to the previous (shallower) floor.
    StairsUp,
    /// Open doorway — walkable.
    DoorOpen,
    /// Wide archway — walkable.
    Archway,
    /// A gap in the floor.  Not walkable, but a jump may land in it.
    Void,
}

impl TileType {
    pub open spec fn walkable(self) -> bool {
        match self {
            TileType::Floor | TileType::Dirt | TileType::Planks | TileType::Bridge
            | TileType::StairsDown | TileType::StairsMid | TileType::StairsUp
            | TileType::DoorOpen | TileType::Archway => true,
            _ => false,
        }
    }

    pub open spec fn floor_like(self) -> bool {
        match self {
            TileType::Floor | TileType::Dirt | TileType::Planks | TileType::Bridge
            | TileType::StairsDown | TileType::StairsMid | TileType::StairsUp => true,
            _ => false,
        }
    }

    /// Tiles that are drawn with wall sprites.
    pub open spec fn wall_like(self) -> bool {
        match self {
            TileType::Wall | TileType::DoorClosed | TileType::DoorOpen | TileType::BrokenWall
            | TileType::Window | TileType::Archway => true,
            _ => false,
        }
    }

    pub open spec fn occluding(self) -> bool {
        match self {
            TileType::Wall | TileType::DoorClosed | TileType::BrokenWall | TileType::Window => true,
            _ => false,
        }
    }

    pub open spec fn stair(self) -> bool {
        match self {
            TileType::StairsDown | TileType::StairsMid | TileType::StairsUp => true,
            _ => false,
        }
    }

    pub open spec fn floor_prefix(self) -> Seq<char> {
        match self {
            TileType::Floor => "stone"@,
            TileType::Dirt => "dirt"@,
            TileType::Planks => "planks"@,
            TileType::Bridge => "bridge"@,
            _ => "stairsSpiral"@,
        }
    }

    pub open spec fn wall_prefix(self) -> Seq<char> {
        match self {
            TileType::Wall => "stoneWall"@,
            TileType::DoorClosed => "stoneWallDoorClosed"@,
            TileType::DoorOpen => "stoneWallDoorOpen"@,
            TileType::BrokenWall => "stoneWallBroken"@,
            TileType::Window => "stoneWallWindow"@,
            _ => "stoneWallArchway"@,
        }
    }

    /// Returns `true` for any tile the player can stand on (ignores props).
    pub fn is_walkable(self) -> (b: bool)
        ensures
            b == self.walkable(),
    {
        match self {
            TileType::Floor | TileType::Dirt | TileType::Planks | TileType::Bridge
            | TileType::StairsDown | TileType::StairsMid | TileType::StairsUp
            | TileType::DoorOpen | TileType::Archway => true,
            _ => false,
        }
    }

    /// Returns `true` if this tile renders as a floor sprite.
    pub fn is_floor_like(self) -> (b: bool)
        ensures
            b == self.floor_like(),
    {
        match self {
            TileType::Floor | TileType::Dirt | TileType::Planks | TileType::Bridge
            | TileType::StairsDown | TileType::StairsMid | TileType::StairsUp => true,
            _ => false,
        }
    }

    /// Asset prefix for floor-like tiles (e.g. `"stone"` → `stone_N.png`).
    pub fn floor_asset_prefix(self) -> (s: &'static str)
        requires
            self.floor_like(),
        ensures
            s@ == self.floor_prefix(),
    {
        match self {
            TileType::Floor => "stone",
            TileType::Dirt => "dirt",
            TileType::Planks => "planks",
            TileType::Bridge => "bridge",
            _ => "stairsSpiral",
        }
    }

    /// Asset prefix for wall-like tiles (e.g. `"stoneWallDoorOpen"`).
    pub fn wall_asset_prefix(self) -> (s: &'static str)
        requires
            self.wall_like(),
        ensures
            s@ == self.wall_prefix(),
    {
        match self {
            TileType::Wall => "stoneWall",
            TileType::DoorClosed => "stoneWallDoorClosed",
            TileType::DoorOpen => "stoneWallDoorOpen",
            TileType::BrokenWall => "stoneWallBroken",
            TileType::Window => "stoneWallWindow",
            _ => "stoneWallArchway",
        }
    }

    /// Returns `true` if this tile is a wall that may hide the player and
    /// should therefore be faded.  Walkable openings are excluded.
    pub fn is_occluding_wall(self) -> (b: bool)
        ensures
            b == self.occluding(),
    {
        match self {
            TileType::Wall | TileType::DoorClosed | TileType::BrokenWall | TileType::Window => true,
            _ => false,
        }
    }

    /// Returns `true` for any stair tile variant.
    pub fn is_stair(self) -> (b: bool)
        ensures
            b == self.stair(),
    {
        match self {
            TileType::StairsDown | TileType::StairsMid | TileType::StairsUp => true,
            _ => false,
        }
    }
}

/// Every occluding wall blocks movement, and every stair can be walked on.
pub proof fn lemma_tile_classes(t: TileType)
    ensures
        t.occluding() ==> !t.walkable(),
        t.stair() ==> t.walkable() && t.floor_like(),
        t.floor_like() ==> t.walkable(),
        t.floor_like() ==> !t.wall_like(),
        t == TileType::DoorOpen || t == TileType::Archway ==> t.walkable() && !t.occluding(),
{
}

/// An object placed on top of a floor tile.  Props block player movement but
/// do not block the lantern beam.
#[derive(Clone, Copy, PartialEq, Eq, Debug, Structural)]
pub enum PropType {
    Barrel,
    Barrels,
    BarrelsStacked,
    ChestClosed,
    ChestOpen,
    WoodenCrate,
    WoodenCrates,
    WoodenPile,
    /// Stone column / pillar.
    Pillar,
    /// Stone column with wooden cap.
    PillarWood,
    TableRound,
    TableRoundChairs,
    TableShort,
    TableShortChairs,
    Chair,
    WoodenSupports,
    WoodenSupportsBeam,
}

impl PropType {
    pub open spec fn prefix(self) -> Seq<char> {
        match self {
            PropType::Barrel => "barrel"@,
            PropType::Barrels => "barrels"@,
            PropType::BarrelsStacked => "barrelsStacked"@,
            PropType::ChestClosed => "chestClosed"@,
            PropType::ChestOpen => "chestOpen"@,
            PropType::WoodenCrate => "woodenCrate"@,
            PropType::WoodenCrates => "woodenCrates"@,
            PropType::WoodenPile => "woodenPile"@,
            PropType::Pillar => "stoneColumn"@,
            PropType::PillarWood => "stoneColumnWood"@,
            PropType::TableRound => "tableRound"@,
            PropType::TableRoundChairs => "tableRoundChairs"@,
            PropType::TableShort => "tableShort"@,
            PropType::TableShortChairs => "tableShortChairs"@,
            PropType::Chair => "chair"@,
            PropType::WoodenSupports => "woodenSupports"@,
            PropType::WoodenSupportsBeam => "woodenSupportsBeam"@,
        }
    }

    /// Returns the asset filename prefix (without `_N.png` etc.).
    pub fn asset_prefix(self) -> (s: &'static str)
        ensures
            s@ == self.prefix(),
    {
        match self {
            PropType::Barrel => "barrel",
            PropType::Barrels => "barrels",
            PropType::BarrelsStacked => "barrelsStacked",
            PropType::ChestClosed => "chestClosed",
            PropType::ChestOpen => "chestOpen",
            PropType::WoodenCrate => "woodenCrate",
            PropType::WoodenCrates => "woodenCrates",
            PropType::WoodenPile => "woodenPile",
            PropType::Pillar => "stoneColumn",
            PropType::PillarWood => "stoneColumnWood",
            PropType::TableRound => "tableRound",
            PropType::TableRoundChairs => "tableRoundChairs",
            PropType::TableShort => "tableShort",
            PropType::TableShortChairs => "tableShortChairs",
            PropType::Chair => "chair",
            PropType::WoodenSupports => "woodenSupports",
            PropType::WoodenSupportsBeam => "woodenSupportsBeam",
        }
    }
}

/// One directional leg of a staircase — the floor and tile position the player
/// lands on after travelling in that direction.
#[derive(Clone, Copy, PartialEq, Eq, Debug)]
pub struct StairLink {
    pub target_floor: usize,
    pub target_pos: (i32, i32),
}

/// The full traversal options for a single stair tile.
///
/// - `StairsDown` tiles have `down = Some(…)` and `up = None`.
/// - `StairsUp`   tiles have `up   = Some(…)` and `down = None`.
/// - `StairsMid`  tiles have both `Some(…)`.
#[derive(Clone, Copy, PartialEq, Eq, Debug)]
pub struct StairNode {
    pub up: Option<StairLink>,
    pub down: Option<StairLink>,
}

/// Describes a door to be spawned.  The tile at `(x, y)` is already
/// `TileType::Floor`, so passability is correct when the door is open.
#[derive(Clone, Copy, PartialEq, Eq, Debug, Structural)]
pub struct DoorPlacement {
    pub x: i32,
    pub y: i32,
    pub open: bool,
    /// Sprite face direction, chosen from which neighbour is the room interior.
    pub facing: CardinalDir,
}

/// What happens to a player who lands in a [`TileType::Void`] cell.
#[derive(Clone, Copy, PartialEq, Eq, Debug)]
pub enum VoidOutcome {
    /// Fall through to the next floor down.
    NextFloor,
    /// Take damage and respawn in the first room of the current floor.
    Hazard { damage: u32 },
    /// Land on a given floor at a given position.
    Warp { floor: usize, pos: (i32, i32) },
    /// The game ends.
    Terminal,
}

/// Truncating halving, as Rust's `/ 2` does on signed integers.
pub open spec fn half(a: int) -> int {
    if a >= 0 { a / 2 } else { -((-a) / 2) }
}

/// Axis-aligned rectangle (used for rooms).
#[derive(Clone, Copy, PartialEq, Eq, Debug, Structural)]
pub struct Rect {
    pub x1: i32,
    pub y1: i32,
    pub x2: i32,
    pub y2: i32,
}

impl Rect {
    pub open spec fn spec_center(self) -> (i32, i32) {
        (half(self.x1 + self.x2) as i32, half(self.y1 + self.y2) as i32)
    }

    pub open spec fn overlaps(self, other: Rect) -> bool {
        self.x1 <= other.x2 && self.x2 >= other.x1 && self.y1 <= other.y2 && self.y2 >= other.y1
    }

    pub fn new(x: i32, y: i32, w: i32, h: i32) -> (r: Self)
        requires
            i32::MIN <= x + w <= i32::MAX,
            i32::MIN <= y + h <= i32::MAX,
        ensures
            r.x1 == x,
            r.y1 == y,
            r.x2 == x + w,
            r.y2 == y + h,
    {
        Self { x1: x, y1: y, x2: x + w, y2: y + h }
    }

    pub fn center(&self) -> (c: (i32, i32))
        ensures
            c == self.spec_center(),
    {
        (((self.x1 as i64 + self.x2 as i64) / 2) as i32, ((self.y1 as i64 + self.y2 as i64) / 2) as i32)
    }

    /// Closed-interval overlap test: rectangles that merely touch intersect.
    pub fn intersects(&self, other: &Rect) -> (b: bool)
        ensures
            b == self.overlaps(*other),
    {
        self.x1 <= other.x2 && self.x2 >= other.x1 && self.y1 <= other.y2 && self.y2 >= other.y1
    }
}

/// One floor of the dungeon: a `width × height` grid of tiles with optional
/// props, plus the doors, rooms, stair links, chest contents and void
/// outcomes placed on it.
pub struct FloorMap {
    pub width: i32,
    pub height: i32,
    /// One entry per cell; indexed by `idx(x, y)`.
    pub tiles: Vec<TileType>,
    /// Optional prop in each cell; same indexing as `tiles`.
    pub props: Vec<Option<PropType>>,
    /// Doors to be spawned.  Each entry's tile is already `Floor`.
    pub doors: Vec<DoorPlacement>,
    pub rooms: Vec<Rect>,
    /// Stair tile positions on this floor and their traversal options.
    pub stair_links: PosMap<StairNode>,
    /// Items stored inside closed chests, keyed by grid position:
    /// (item kind, sprite facing direction for the open-chest asset).
    pub chest_items: PosMap<(ItemKind, CardinalDir)>,
    /// What happens on landing in each `Void` cell that has a recorded outcome.
    pub void_outcomes: PosMap<VoidOutcome>,
}

impl FloorMap {
    /// The grid dimensions are positive, every cell index fits in an `i32`,
    /// and the per-cell vectors cover the grid exactly.
    pub open spec fn wf(&self) -> bool {
        &&& 0 < self.width
        &&& 0 < self.height
        &&& self.width * self.height <= i32::MAX
        &&& self.tiles@.len() == self.width * self.height
        &&& self.props@.len() == self.width * self.height
        &&& self.stair_links.wf()
        &&& self.chest_items.wf()
        &&& self.void_outcomes.wf()
    }

    pub open spec fn in_bounds_spec(&self, x: int, y: int) -> bool {
        0 <= x < self.width && 0 <= y < self.height
    }

    pub open spec fn idx_spec(&self, x: int, y: int) -> int {
        y * self.width + x
    }

    pub open spec fn tile_at(&self, x: int, y: int) -> TileType {
        self.tiles@[self.idx_spec(x, y)]
    }

    pub open spec fn prop_at(&self, x: int, y: int) -> Option<PropType> {
        self.props@[self.idx_spec(x, y)]
    }

    pub open spec fn walkable_at(&self, x: int, y: int) -> bool {
        self.in_bounds_spec(x, y) && self.tile_at(x, y).walkable()
    }

    pub open spec fn passable_at(&self, x: int, y: int) -> bool {
        self.walkable_at(x, y) && self.prop_at(x, y) is None
    }

    /// Distinct in-bounds cells have distinct indices inside the grid.
    pub proof fn lemma_idx(&self, x: int, y: int)
        requires
            self.wf(),
            self.in_bounds_spec(x, y),
        ensures
            0 <= self.idx_spec(x, y) < self.width * self.height,
            forall|x2: int, y2: int| #[trigger] self.idx_spec(x2, y2) == self.idx_spec(x, y)
                && self.in_bounds_spec(x2, y2) ==> x2 == x && y2 == y,
    {
        let w = self.width as int;
        let h = self.height as int;
        assert(0 <= y * w + x < h * w) by (nonlinear_arith)
            requires 0 <= x < w, 0 <= y < h;
        assert forall|x2: int, y2: int| #[trigger] self.idx_spec(x2, y2) == self.idx_spec(x, y)
            && self.in_bounds_spec(x2, y2) implies x2 == x && y2 == y by {
            assert(y2 == y && x2 == x) by (nonlinear_arith)
                requires 0 <= x < w, 0 <= y < h, 0 <= x2 < w, 0 <= y2 < h,
                    y2 * w + x2 == y * w + x;
        }
    }

    /// A floor of the standard size, all walls, with nothing placed on it.
    pub fn new() -> (m: Self)
        ensures
            m.wf(),
            m.width == MAP_WIDTH,
            m.height == MAP_HEIGHT,
            forall|i: int| 0 <= i < m.tiles@.len() ==> m.tiles@[i] == TileType::Wall,
            forall|i: int| 0 <= i < m.props@.len() ==> m.props@[i] is None,
            m.doors@.len() == 0,
            m.rooms@.len() == 0,
            m.stair_links@ == Map::<(i32, i32), StairNode>::empty(),
            m.chest_items@ == Map::<(i32, i32), (ItemKind, CardinalDir)>::empty(),
            m.void_outcomes@ == Map::<(i32, i32), VoidOutcome>::empty(),
    {
        let size: usize = (MAP_WIDTH * MAP_HEIGHT) as usize;
        let mut tiles: Vec<TileType> = Vec::new();
        let mut props: Vec<Option<PropType>> = Vec::new();
        let mut i: usize = 0;
        while i < size
            invariant
                size == MAP_WIDTH * MAP_HEIGHT,
                i <= size,
                tiles@.len() == i,
                props@.len() == i,
                forall|j: int| 0 <= j < i ==> tiles@[j] == TileType::Wall,
                forall|j: int| 0 <= j < i ==> props@[j] is None,
            decreases size - i,
        {
            tiles.push(TileType::Wall);
            props.push(None);
            i = i + 1;
        }
        FloorMap {
            width: MAP_WIDTH,
            height: MAP_HEIGHT,
            tiles,
            props,
            doors: Vec::new(),
            rooms: Vec::new(),
            stair_links: PosMap::new(),
            chest_items: PosMap::new(),
            void_outcomes: PosMap::new(),
        }
    }

    /// Index of cell `(x, y)` in `tiles` and `props`.
    pub fn idx(&self, x: i32, y: i32) -> (i: usize)
        requires
            self.wf(),
            self.in_bounds_spec(x as int, y as int),
        ensures
            i == self.idx_spec(x as int, y as int),
            i < self.tiles@.len(),
    {
        proof {
            self.lemma_idx(x as int, y as int);
        }
        (y * self.width + x) as usize
    }

    pub fn in_bounds(&self, x: i32, y: i32) -> (b: bool)
        ensures
            b == self.in_bounds_spec(x as int, y as int),
    {
        x >= 0 && x < self.width && y >= 0 && y < self.height
    }

    /// Tile-level walkability check — ignores props and door entities.
    pub fn is_walkable(&self, x: i32, y: i32) -> (b: bool)
        requires
            self.wf(),
        ensures
            b == self.walkable_at(x as int, y as int),
    {
        self.in_bounds(x, y) && self.tiles[self.idx(x, y)].is_walkable()
    }

    /// Gameplay passability — `false` if the tile is impassable *or* a prop
    /// occupies the cell.  Door entities are not consulted here.
    pub fn is_passable(&self, x: i32, y: i32) -> (b: bool)
        requires
            self.wf(),
        ensures
            b == self.passable_at(x as int, y as int),
    {
        self.is_walkable(x, y) && self.props[self.idx(x, y)].is_none()
    }

    /// The tile at an in-bounds cell.
    pub fn tile(&self, x: i32, y: i32) -> (t: TileType)
        requires
            self.wf(),
            self.in_bounds_spec(x as int, y as int),
        ensures
            t == self.tile_at(x as int, y as int),
    {
        self.tiles[self.idx(x, y)]
    }
}

/// Holds all floors of the dungeon and tracks which floor the player is on.
/// Floor 0 is the shallowest; higher indices are deeper underground.
pub struct Dungeon {
    pub floors: Vec<FloorMap>,
    pub current_floor: usize,
}

impl Dungeon {
    pub open spec fn wf(&self) -> bool {
        &&& self.current_floor < self.floors@.len()
        &&& forall|f: int| 0 <= f < self.floors@.len() ==> (#[trigger] self.floors@[f]).wf()
    }

    /// Returns a reference to the currently active floor map.
    pub fn current_map(&self) -> (m: &FloorMap)
        requires
            self.current_floor < self.floors@.len(),
        ensures
            *m == self.floors@[self.current_floor as int],
    {
        &self.floors[self.current_floor]
    }
}

} // verus!
