use vstd::prelude::*;
use crate::components::{CardinalDir, DoorState, MapPosition};
use crate::log::GameMessage;
use crate::map::{Dungeon, FloorMap, StairNode, TileType, VoidOutcome};
use crate::mapgen::{floor_layout, floor_stairs_ok, lemma_stair_shape, lemma_stairs_bidirectional, stair_pos, stairs_linked};
use crate::pathfind::{bfs_path, contains_pos, is_walk, no_shorter_walk, open_cell, reachable};
use crate::player::{dir_to_facing, facing_to_grid_delta, spec_dir_to_facing, spec_grid_delta, FacingDir, Pace, PlayerAnimation};
use crate::pos_map::PosMap;

verus! {

/// Grid step chosen by the movement keys, checked in the order up, down,
/// left, right: up is `+y`, down `-y`, left `-x`, right `+x`; no key, no step.
pub fn key_direction(up: bool, down: bool, left: bool, right: bool) -> (d: (i32, i32))
    ensures
        d == (if up {
            (0i32, 1i32)
        } else if down {
            (0i32, -1i32)
        } else if left {
            (-1i32, 0i32)
        } else if right {
            (1i32, 0i32)
        } else {
            (0i32, 0i32)
        }),
{
    if up {
        (0, 1)
    } else if down {
        (0, -1)
    } else if left {
        (-1, 0)
    } else if right {
        (1, 0)
    } else {
        (0, 0)
    }
}

/// Positions of the doors that block movement (closed or locked).
pub fn closed_positions(doors: &PosMap<DoorState>) -> (v: Vec<(i32, i32)>)
    requires
        doors.wf(),
    ensures
        forall|p: (i32, i32)| v@.contains(p) <==> doors@.dom().contains(p) && doors@[p] != DoorState::Open,
{
    let entries = doors.entries();
    let mut v: Vec<(i32, i32)> = Vec::new();
    let mut i: usize = 0;
    while i < entries.len()
        invariant
            entries@ == doors.entry_seq(),
            doors.wf(),
            i <= entries@.len(),
            forall|q: (i32, i32)| #[trigger] v@.contains(q) ==> exists|j: int| 0 <= j < i
                && (#[trigger] entries@[j]).0 == q && entries@[j].1 != DoorState::Open,
            forall|j: int| 0 <= j < i && (#[trigger] entries@[j]).1 != DoorState::Open
                ==> v@.contains(entries@[j].0),
        decreases entries@.len() - i,
    {
        let (p, state) = entries[i];
        let ghost old_v = v@;
        if state != DoorState::Open {
            v.push(p);
            proof {
                assert forall|q: (i32, i32)| #[trigger] v@.contains(q) implies exists|j: int| 0 <= j < i + 1
                    && (#[trigger] entries@[j]).0 == q && entries@[j].1 != DoorState::Open by {
                    if q == p {
                        assert(entries@[i as int].0 == q);
                    } else {
                        let k = choose|k: int| 0 <= k < v@.len() && v@[k] == q;
                        assert(old_v[k] == q);
                        assert(old_v.contains(q));
                    }
                }
                assert forall|j: int| 0 <= j < i + 1 && (#[trigger] entries@[j]).1 != DoorState::Open
                    implies v@.contains(entries@[j].0) by {
                    if j < i {
                        assert(old_v.contains(entries@[j].0));
                        let k = choose|k: int| 0 <= k < old_v.len() && old_v[k] == entries@[j].0;
                        assert(v@[k] == entries@[j].0);
                    } else {
                        assert(v@[v@.len() - 1] == p);
                    }
                }
            }
        }
        i = i + 1;
    }
    proof {
        assert forall|p: (i32, i32)| v@.contains(p) <==> doors@.dom().contains(p) && doors@[p] != DoorState::Open by {
            if v@.contains(p) {
                let j = choose|j: int| 0 <= j < entries@.len() && (#[trigger] entries@[j]).0 == p
                    && entries@[j].1 != DoorState::Open;
                doors.lemma_key_index(j);
            }
            if doors@.dom().contains(p) && doors@[p] != DoorState::Open {
                let k = PosMap::<DoorState>::key_index(doors.entry_seq(), p);
                doors.lemma_key_index(k);
                assert(entries@[k].1 != DoorState::Open);
            }
        }
    }
    v
}

/// The player may enter `(x, y)`: passable, and no closed door there.
pub open spec fn may_enter(m: &FloorMap, closed: Seq<(i32, i32)>, x: int, y: int) -> bool {
    m.passable_at(x, y) && !closed.contains((x as i32, y as i32))
}

impl PlayerAnimation {
    /// Not taking clicks: mid-jump or still travelling a path.
    pub open spec fn spec_busy(&self) -> bool {
        self.jumping || self.path@.len() != 0
    }

    pub fn is_busy(&self) -> (b: bool)
        ensures
            b == self.spec_busy(),
    {
        self.jumping || self.path.len() != 0
    }

    /// A movement key press of step `(dx, dy)` for the player at `pos`.
    /// Nothing happens mid-jump or without a step.  Otherwise auto-travel is
    /// cancelled; a vertical key on a `StairsMid` tile is left to the
    /// stairs; the player steps (walk animation) if the target cell may be
    /// entered, and only turns towards it if not.  Returns whether the
    /// player moved.
    pub fn keyboard_step(
        &mut self,
        map: &FloorMap,
        closed: &Vec<(i32, i32)>,
        pos: &mut MapPosition,
        dx: i32,
        dy: i32,
    ) -> (moved: bool)
        requires
            map.wf(),
            map.in_bounds_spec(old(pos).x as int, old(pos).y as int),
            -1 <= dx <= 1,
            -1 <= dy <= 1,
        ensures
            ({
                let facing = spec_dir_to_facing(dx as int, dy as int);
                let nx = old(pos).x + dx;
                let ny = old(pos).y + dy;
                if old(self).jumping || (dx == 0 && dy == 0) {
                    &&& !moved
                    &&& *final(pos) == *old(pos)
                    &&& *final(self) == *old(self)
                } else if dy != 0 && map.tile_at(old(pos).x as int, old(pos).y as int) == TileType::StairsMid {
                    &&& !moved
                    &&& *final(pos) == *old(pos)
                    &&& final(self).path@.len() == 0
                    &&& final(self).facing == old(self).facing
                    &&& final(self).running == old(self).running
                    &&& final(self).auto_running == old(self).auto_running
                    &&& final(self).frame == old(self).frame
                    &&& final(self).pace == old(self).pace
                } else if may_enter(map, closed@, nx, ny) {
                    &&& moved
                    &&& final(pos).x == nx && final(pos).y == ny
                    &&& final(self).path@.len() == 0
                    &&& final(self).facing == facing
                    &&& final(self).running
                    &&& !final(self).auto_running
                    &&& final(self).pace == Pace::Walk
                    &&& final(self).frame == (if old(self).auto_running { 0 } else { old(self).frame })
                } else {
                    &&& !moved
                    &&& *final(pos) == *old(pos)
                    &&& final(self).path@.len() == 0
                    &&& final(self).facing == facing
                    &&& final(self).running == old(self).running
                    &&& final(self).auto_running == old(self).auto_running
                    &&& final(self).frame == old(self).frame
                    &&& final(self).pace == old(self).pace
                }
            }),
            final(self).path_total == old(self).path_total,
            final(self).lerping == old(self).lerping,
            final(self).same_jump(old(self)),
    {
        if self.jumping {
            return false;
        }
        if dx == 0 && dy == 0 {
            return false;
        }
        self.path.clear();
        let facing = dir_to_facing(dx, dy);
        let new_x = pos.x + dx;
        let new_y = pos.y + dy;
        if dy != 0 && map.tile(pos.x, pos.y) == TileType::StairsMid {
            return false;
        }
        if map.is_passable(new_x, new_y) && !contains_pos(closed, (new_x, new_y)) {
            pos.x = new_x;
            pos.y = new_y;
            self.trigger_walk(facing);
            true
        } else {
            self.facing = facing;
            false
        }
    }

    /// A left click on grid cell `target` (not using an item), when the
    /// player is not busy.  A single click turns the player towards the
    /// target (unless it is the player's own cell); a double click on a
    /// passable cell sets off along a shortest open path to it, if one exists.
    pub fn click(
        &mut self,
        map: &FloorMap,
        closed: &Vec<(i32, i32)>,
        pos: MapPosition,
        target: (i32, i32),
        is_double: bool,
    )
        requires
            map.wf(),
            map.in_bounds_spec(pos.x as int, pos.y as int),
            i32::MIN <= target.0 - pos.x <= i32::MAX,
            i32::MIN <= target.1 - pos.y <= i32::MAX,
        ensures
            ({
                let dx = target.0 - pos.x;
                let dy = target.1 - pos.y;
                if old(self).spec_busy() {
                    *final(self) == *old(self)
                } else if !is_double {
                    &&& final(self).facing == (if dx != 0 || dy != 0 {
                        spec_dir_to_facing(dx, dy)
                    } else {
                        old(self).facing
                    })
                    &&& final(self).path@ == old(self).path@
                    &&& final(self).path_total == old(self).path_total
                } else if !map.passable_at(target.0 as int, target.1 as int) || ((pos.x, pos.y) != target
                    && !reachable(map, closed@, (pos.x, pos.y), target)) {
                    *final(self) == *old(self)
                } else {
                    &&& final(self).facing == old(self).facing
                    &&& final(self).path_total == final(self).path@.len()
                    &&& (pos.x, pos.y) == target ==> final(self).path@.len() == 0
                    &&& (pos.x, pos.y) != target ==> {
                        &&& final(self).path@.len() > 0
                        &&& final(self).path@[0] == target
                        &&& is_walk(map, closed@, (pos.x, pos.y), final(self).path@.reverse())
                        &&& no_shorter_walk(map, closed@, (pos.x, pos.y), target, final(self).path@.len() as int)
                    }
                }
            }),
            final(self).running == old(self).running,
            final(self).auto_running == old(self).auto_running,
            final(self).frame == old(self).frame,
            final(self).pace == old(self).pace,
            final(self).lerping == old(self).lerping,
            final(self).same_jump(old(self)),
    {
        if self.jumping || self.path.len() != 0 {
            return;
        }
        let dx = target.0 - pos.x;
        let dy = target.1 - pos.y;
        if !is_double {
            if dx != 0 || dy != 0 {
                self.facing = dir_to_facing(dx, dy);
            }
            return;
        }
        if !map.is_passable(target.0, target.1) {
            return;
        }
        match bfs_path(map, closed, (pos.x, pos.y), target) {
            Some(path) => {
                self.path_total = path.len();
                self.path = path;
            },
            None => {},
        }
    }

    /// Start the next auto-travel step from `pos`, if any remains: the next
    /// cell is taken off the path; if it may no longer be entered (a door
    /// closed meanwhile) the rest of the path is dropped.  Otherwise the
    /// player moves onto it, interpolating there, facing it, with the walk
    /// animation on the first and last steps and on short paths, and the
    /// run animation in the middle of paths of three or more steps.
    /// Returns whether a step started.
    pub fn next_auto_step(&mut self, map: &FloorMap, closed: &Vec<(i32, i32)>, pos: &mut MapPosition) -> (stepped: bool)
        requires
            map.wf(),
            map.in_bounds_spec(old(pos).x as int, old(pos).y as int),
        ensures
            old(self).path@.len() == 0 ==> !stepped && *final(pos) == *old(pos) && *final(self) == *old(self),
            old(self).path@.len() > 0 ==> ({
                let next = old(self).path@.last();
                let remaining = old(self).path@.len() - 1;
                let step_index = if old(self).path_total >= remaining + 1 {
                    old(self).path_total - (remaining + 1)
                } else {
                    0
                };
                let use_run = old(self).path_total >= 3 && step_index != 0 && remaining != 0;
                if !may_enter(map, closed@, next.0 as int, next.1 as int) {
                    &&& !stepped
                    &&& *final(pos) == *old(pos)
                    &&& final(self).path@.len() == 0
                    &&& final(self).lerping == old(self).lerping
                    &&& final(self).facing == old(self).facing
                } else {
                    &&& stepped
                    &&& final(pos).x == next.0 && final(pos).y == next.1
                    &&& final(self).path@ == old(self).path@.drop_last()
                    &&& final(self).lerping
                    &&& final(self).facing == spec_dir_to_facing(next.0 - old(pos).x, next.1 - old(pos).y)
                    &&& final(self).running
                    &&& final(self).auto_running == use_run
                    &&& final(self).pace == (if use_run { Pace::Run } else { Pace::Walk })
                    &&& final(self).frame == (if use_run != old(self).auto_running { 0 } else { old(self).frame })
                }
            }),
            final(self).path_total == old(self).path_total,
            final(self).same_jump(old(self)),
            !stepped ==> final(self).running == old(self).running && final(self).auto_running
                == old(self).auto_running && final(self).frame == old(self).frame && final(self).pace
                == old(self).pace,
            map.in_bounds_spec(final(pos).x as int, final(pos).y as int),
    {
        if self.path.len() == 0 {
            return false;
        }
        let (nx, ny) = match self.path.pop() {
            Some(p) => p,
            None => { return false; },
        };
        if !map.is_passable(nx, ny) || contains_pos(closed, (nx, ny)) {
            self.path.clear();
            return false;
        }
        let facing = dir_to_facing(nx - pos.x, ny - pos.y);
        let remaining = self.path.len();
        let step_index = if self.path_total >= remaining + 1 { self.path_total - (remaining + 1) } else { 0 };
        let is_first = step_index == 0;
        let is_last = remaining == 0;
        let use_run = self.path_total >= 3 && !is_first && !is_last;
        self.lerping = true;
        pos.x = nx;
        pos.y = ny;
        if use_run {
            self.trigger_run(facing);
        } else {
            self.trigger_walk(facing);
        }
        true
    }
}

/// Result of pressing the jump key.
#[derive(Clone, Copy, PartialEq, Eq, Debug, Structural)]
pub enum JumpOutcome {
    /// A jump is already under way.
    Busy,
    /// The landing cell lies off the map.
    NothingToJumpTo,
    /// The landing cell is neither a void nor a walkable cell free of a closed door.
    CantJumpThere,
    /// The cell behind the player cannot be stepped back onto.
    NoRoom,
    /// The jump started.
    Jumping,
}

/// The log line a jump outcome produces, if any.
pub fn jump_message(outcome: JumpOutcome) -> (m: Option<GameMessage>)
    ensures
        outcome == JumpOutcome::NothingToJumpTo ==> (m matches Some(g) && g.text@ == "Nothing to jump to."@ && !g.alert),
        outcome == JumpOutcome::CantJumpThere ==> (m matches Some(g) && g.text@ == "Can't jump there."@ && !g.alert),
        outcome == JumpOutcome::NoRoom ==> (m matches Some(g) && g.text@ == "Not enough room to jump."@ && g.alert),
        outcome == JumpOutcome::Busy || outcome == JumpOutcome::Jumping ==> m is None,
{
    match outcome {
        JumpOutcome::NothingToJumpTo => Some(GameMessage::new("Nothing to jump to.")),
        JumpOutcome::CantJumpThere => Some(GameMessage::new("Can't jump there.")),
        JumpOutcome::NoRoom => Some(GameMessage::alert("Not enough room to jump.")),
        _ => None,
    }
}

impl PlayerAnimation {
    /// The jump key for the player at `pos`: jump two tiles in the facing
    /// direction.  The landing cell must be on the map and be a void or a
    /// walkable cell without a closed door (a prop there does not stop the
    /// jump); the cell one step behind must be one the player may enter, to
    /// take a run-up.  The cell jumped over does not matter.
    pub fn try_jump(&mut self, map: &FloorMap, closed: &Vec<(i32, i32)>, pos: MapPosition) -> (outcome: JumpOutcome)
        requires
            map.wf(),
            map.in_bounds_spec(pos.x as int, pos.y as int),
            pos.x <= i32::MAX - 2,
            pos.y <= i32::MAX - 2,
        ensures
            ({
                let d = spec_grid_delta(old(self).facing);
                let land = (pos.x + 2 * d.0, pos.y + 2 * d.1);
                let back = (pos.x - d.0, pos.y - d.1);
                &&& outcome == (if old(self).jumping {
                    JumpOutcome::Busy
                } else if !map.in_bounds_spec(land.0, land.1) {
                    JumpOutcome::NothingToJumpTo
                } else if !(map.tile_at(land.0, land.1) == TileType::Void || (map.walkable_at(land.0, land.1)
                    && !closed@.contains((land.0 as i32, land.1 as i32)))) {
                    JumpOutcome::CantJumpThere
                } else if !may_enter(map, closed@, back.0, back.1) {
                    JumpOutcome::NoRoom
                } else {
                    JumpOutcome::Jumping
                })
                &&& outcome == JumpOutcome::Jumping ==> {
                    &&& final(self).jumping
                    &&& final(self).jump_origin == (pos.x, pos.y)
                    &&& final(self).jump_back_tile == (back.0 as i32, back.1 as i32)
                    &&& final(self).jump_target == (land.0 as i32, land.1 as i32)
                    &&& final(self).jump_phase == crate::player::JumpPhase::WalkBack
                    &&& final(self).jump_frame == 0
                    &&& !final(self).jump_midpoint_reached
                    &&& final(self).path@.len() == 0
                    &&& !final(self).running
                    &&& !final(self).lerping
                    &&& final(self).auto_running == old(self).auto_running
                    &&& final(self).frame == old(self).frame
                    &&& final(self).pace == old(self).pace
                    &&& final(self).path_total == old(self).path_total
                }
                &&& outcome != JumpOutcome::Jumping ==> *final(self) == *old(self)
            }),
            final(self).facing == old(self).facing,
    {
        if self.jumping {
            return JumpOutcome::Busy;
        }
        let (dx, dy) = facing_to_grid_delta(self.facing);
        let land_x = pos.x + dx * 2;
        let land_y = pos.y + dy * 2;
        if !map.in_bounds(land_x, land_y) {
            return JumpOutcome::NothingToJumpTo;
        }
        let land_tile = map.tile(land_x, land_y);
        let can_land = land_tile == TileType::Void || (map.is_walkable(land_x, land_y) && !contains_pos(
            closed,
            (land_x, land_y),
        ));
        if !can_land {
            return JumpOutcome::CantJumpThere;
        }
        let back_x = pos.x - dx;
        let back_y = pos.y - dy;
        if !map.in_bounds(back_x, back_y) || !map.is_passable(back_x, back_y) || contains_pos(closed, (back_x, back_y)) {
            return JumpOutcome::NoRoom;
        }
        self.trigger_jump((pos.x, pos.y), (back_x, back_y), (land_x, land_y));
        JumpOutcome::Jumping
    }
}

/// Request to move the player to another floor.
#[derive(Clone, Copy, PartialEq, Eq, Debug)]
pub struct LevelTransition {
    pub destination_floor: usize,
    pub exit_pos: (i32, i32),
}

/// Stair traversal for the player at `pos`: on a `StairsDown` the interact
/// key descends and on a `StairsUp` it ascends; on a `StairsMid` the up key
/// ascends, else the down key descends.  Each takes the corresponding link
/// of the stair at `pos`, if there is one.
pub open spec fn stair_step(map: &FloorMap, pos: MapPosition, interact: bool, up_key: bool, down_key: bool) -> Option<LevelTransition> {
    let p = (pos.x, pos.y);
    if !map.stair_links@.dom().contains(p) {
        None
    } else {
        let node = map.stair_links@[p];
        let link = match map.tile_at(pos.x as int, pos.y as int) {
            TileType::StairsDown => if interact { node.down } else { None },
            TileType::StairsUp => if interact { node.up } else { None },
            TileType::StairsMid => if up_key { node.up } else if down_key { node.down } else { None },
            _ => None,
        };
        match link {
            Some(l) => Some(LevelTransition { destination_floor: l.target_floor, exit_pos: l.target_pos }),
            None => None,
        }
    }
}

/// The level transition the keys pressed at `pos` call for (see [`stair_step`]).
pub fn stair_transition(map: &FloorMap, pos: MapPosition, interact: bool, up_key: bool, down_key: bool) -> (t: Option<LevelTransition>)
    requires
        map.wf(),
        map.in_bounds_spec(pos.x as int, pos.y as int),
    ensures
        t == stair_step(map, pos, interact, up_key, down_key),
{
    let tile = map.tile(pos.x, pos.y);
    let node: &StairNode = match map.stair_links.get((pos.x, pos.y)) {
        Some(n) => n,
        None => { return None; },
    };
    let link = match tile {
        TileType::StairsDown => if interact { node.down } else { None },
        TileType::StairsUp => if interact { node.up } else { None },
        TileType::StairsMid => if up_key { node.up } else if down_key { node.down } else { None },
        _ => None,
    };
    match link {
        Some(l) => Some(LevelTransition { destination_floor: l.target_floor, exit_pos: l.target_pos }),
        None => None,
    }
}

/// Which keys take which stairs.  A `StairsDown` or `StairsUp` tile reacts
/// to the interact key alone: without it nothing happens, and the movement
/// keys make no difference.  A `StairsMid` tile reacts to the movement keys
/// alone (up before down), and the interact key makes no difference.  Any
/// other tile, or a tile without a recorded stair, never leads anywhere.  A
/// `StairsDown` only ever leads down its down link and a `StairsUp` up its up
/// link.
pub proof fn lemma_stair_keys(map: &FloorMap, pos: MapPosition, interact: bool, up_key: bool, down_key: bool)
    ensures
        ({
            let t = map.tile_at(pos.x as int, pos.y as int);
            let p = (pos.x, pos.y);
            let node = map.stair_links@[p];
            let r = stair_step(map, pos, interact, up_key, down_key);
            &&& (t == TileType::StairsDown || t == TileType::StairsUp) && !interact ==> r is None
            &&& (t == TileType::StairsDown || t == TileType::StairsUp) ==> r == stair_step(map, pos, interact, !up_key, !down_key)
            &&& t == TileType::StairsMid ==> r == stair_step(map, pos, !interact, up_key, down_key)
            &&& t == TileType::StairsMid && !up_key && !down_key ==> r is None
            &&& !t.stair() || !map.stair_links@.dom().contains(p) ==> r is None
            &&& t == TileType::StairsDown && r is Some ==> (node.down matches Some(l) && r == Some(
                LevelTransition { destination_floor: l.target_floor, exit_pos: l.target_pos },
            ))
            &&& t == TileType::StairsUp && r is Some ==> (node.up matches Some(l) && r == Some(
                LevelTransition { destination_floor: l.target_floor, exit_pos: l.target_pos },
            ))
            &&& t == TileType::StairsMid && up_key && r is Some ==> (node.up matches Some(l) && r == Some(
                LevelTransition { destination_floor: l.target_floor, exit_pos: l.target_pos },
            ))
            &&& t == TileType::StairsMid && !up_key && r is Some ==> (node.down matches Some(l) && r == Some(
                LevelTransition { destination_floor: l.target_floor, exit_pos: l.target_pos },
            ))
        }),
{
}

/// Taking a staircase of a generated dungeon and then, at the arrival
/// stair, pressing the interact key together with the key for the opposite
/// direction returns the player to the floor and stair left.
pub proof fn lemma_stair_round_trip(
    floors: Seq<FloorMap>,
    f: int,
    pos: MapPosition,
    interact: bool,
    up_key: bool,
    down_key: bool,
)
    requires
        stairs_linked(floors),
        forall|g: int| 0 <= g < floors.len() ==> floor_layout(&(#[trigger] floors[g])),
        floors.len() <= usize::MAX,
        0 <= f < floors.len(),
    ensures
        stair_step(&floors[f], pos, interact, up_key, down_key) matches Some(t) ==> {
            let back = MapPosition { x: t.exit_pos.0, y: t.exit_pos.1 };
            let went_down = t.destination_floor > f;
            &&& 0 <= t.destination_floor < floors.len()
            &&& stair_step(&floors[t.destination_floor as int], back, true, went_down, !went_down)
                == Some(LevelTransition { destination_floor: f as usize, exit_pos: (pos.x, pos.y) })
        },
{
    let p = (pos.x, pos.y);
    if let Some(t) = stair_step(&floors[f], pos, interact, up_key, down_key) {
        lemma_stairs_bidirectional(floors, f, p);
        assert(floor_stairs_ok(floors, f));
        let g = t.destination_floor as int;
        assert(g == f + 1 || g == f - 1);
        lemma_stair_shape(floors, g);
        assert(floor_stairs_ok(floors, g));
        assert(floors[g].stair_links@.dom().contains(t.exit_pos));
        assert(t.exit_pos == stair_pos(&floors[g]));
    }
}

/// Switches the active floor to the transition's destination and puts the
/// player on its exit position, cancelling any auto-travel.
pub fn apply_level_transition(dungeon: &mut Dungeon, anim: &mut PlayerAnimation, pos: &mut MapPosition, ev: LevelTransition)
    requires
        ev.destination_floor < old(dungeon).floors@.len(),
    ensures
        final(dungeon).current_floor == ev.destination_floor,
        final(dungeon).floors == old(dungeon).floors,
        final(pos).x == ev.exit_pos.0 && final(pos).y == ev.exit_pos.1,
        final(anim).path@.len() == 0,
        final(anim).facing == old(anim).facing,
        final(anim).running == old(anim).running,
        final(anim).auto_running == old(anim).auto_running,
        final(anim).frame == old(anim).frame,
        final(anim).pace == old(anim).pace,
        final(anim).path_total == old(anim).path_total,
        final(anim).lerping == old(anim).lerping,
        final(anim).same_jump(old(anim)),
{
    dungeon.current_floor = ev.destination_floor;
    anim.path.clear();
    pos.x = ev.exit_pos.0;
    pos.y = ev.exit_pos.1;
}

/// What landing from a jump does to the player.
#[derive(Clone, Copy, PartialEq, Eq, Debug)]
pub enum Landing {
    /// Not a void cell: nothing happens.
    Safe,
    /// Fell through to the next floor, landing at the given position.
    FellToFloor { floor: usize, pos: (i32, i32) },
    /// Fell from the deepest floor: the game ends.
    Abyss,
    /// Hurt by a pit; respawn at the given position facing south.
    Hazard { damage: u32, respawn: (i32, i32) },
    /// Warped to the given floor and position.
    Warp { floor: usize, pos: (i32, i32) },
    /// Lost forever: the game ends.
    Lost,
}

/// Whether `pos` is a void cell of floor `m`.
pub open spec fn lands_in_void(m: &FloorMap, pos: MapPosition) -> bool {
    m.in_bounds_spec(pos.x as int, pos.y as int) && m.tile_at(pos.x as int, pos.y as int) == TileType::Void
}

/// What a void cell of `m` at `pos` does: its recorded outcome, or a pit
/// dealing 10 damage when none is recorded.
pub open spec fn void_outcome_at(m: &FloorMap, pos: MapPosition) -> VoidOutcome {
    if m.void_outcomes@.dom().contains((pos.x, pos.y)) {
        m.void_outcomes@[(pos.x, pos.y)]
    } else {
        VoidOutcome::Hazard { damage: 10 }
    }
}

/// Effect of the player landing at `pos` on the current floor.  Only a
/// void cell has an effect (see [`void_outcome_at`]).  Falling to the next
/// floor lands in that floor's first room's centre (or ends the game below
/// the deepest floor); a pit respawns the player in the current floor's
/// first room's centre.  Those first rooms must exist when they are used.
pub fn landing_outcome(dungeon: &Dungeon, pos: MapPosition) -> (l: Landing)
    requires
        dungeon.wf(),
        ({
            let f = dungeon.current_floor as int;
            let m = dungeon.floors@[f];
            lands_in_void(&m, pos) ==> match void_outcome_at(&m, pos) {
                VoidOutcome::Hazard { .. } => m.rooms@.len() >= 1,
                VoidOutcome::NextFloor => f + 1 < dungeon.floors@.len() ==> dungeon.floors@[f + 1].rooms@.len() >= 1,
                _ => true,
            }
        }),
    ensures
        ({
            let m = dungeon.floors@[dungeon.current_floor as int];
            if !lands_in_void(&m, pos) {
                l == Landing::Safe
            } else {
                l == match void_outcome_at(&m, pos) {
                    VoidOutcome::NextFloor => if dungeon.current_floor + 1 < dungeon.floors@.len() {
                        Landing::FellToFloor {
                            floor: (dungeon.current_floor + 1) as usize,
                            pos: dungeon.floors@[dungeon.current_floor + 1].rooms@[0].spec_center(),
                        }
                    } else {
                        Landing::Abyss
                    },
                    VoidOutcome::Hazard { damage } => Landing::Hazard { damage, respawn: m.rooms@[0].spec_center() },
                    VoidOutcome::Warp { floor, pos } => Landing::Warp { floor, pos },
                    VoidOutcome::Terminal => Landing::Lost,
                }
            }
        }),
{
    let m = dungeon.current_map();
    if !m.in_bounds(pos.x, pos.y) {
        return Landing::Safe;
    }
    if m.tile(pos.x, pos.y) != TileType::Void {
        return Landing::Safe;
    }
    let outcome = match m.void_outcomes.get((pos.x, pos.y)) {
        Some(o) => *o,
        None => VoidOutcome::Hazard { damage: 10 },
    };
    match outcome {
        VoidOutcome::NextFloor => {
            if dungeon.current_floor < dungeon.floors.len() - 1 {
                let next = dungeon.current_floor + 1;
                let landing = dungeon.floors[next].rooms[0].center();
                Landing::FellToFloor { floor: next, pos: landing }
            } else {
                Landing::Abyss
            }
        },
        VoidOutcome::Hazard { damage } => Landing::Hazard { damage, respawn: m.rooms[0].center() },
        VoidOutcome::Warp { floor, pos } => Landing::Warp { floor, pos },
        VoidOutcome::Terminal => Landing::Lost,
    }
}

/// Applies a landing to the player: a pit moves the player to the respawn
/// cell, facing south; every other landing leaves position and animation
/// state alone (falls and warps go through a level transition, the others
/// end the game).
pub fn apply_landing(anim: &mut PlayerAnimation, pos: &mut MapPosition, l: Landing)
    ensures
        l matches Landing::Hazard { respawn, .. } ==> {
            &&& final(pos).x == respawn.0 && final(pos).y == respawn.1
            &&& *final(anim) == (PlayerAnimation { facing: FacingDir::South, ..*old(anim) })
        },
        !(l is Hazard) ==> *final(pos) == *old(pos) && *final(anim) == *old(anim),
{
    match l {
        Landing::Hazard { respawn, .. } => {
            pos.x = respawn.0;
            pos.y = respawn.1;
            anim.facing = FacingDir::South;
        },
        _ => {},
    }
}

/// Result of pressing the interact key next to doors.
#[derive(Clone, Copy, PartialEq, Eq, Debug)]
pub enum DoorAction {
    /// No unlocked door adjacent (or the player stands on a stair, which
    /// takes priority).
    Nothing,
    /// The door at `pos` was toggled to `state`.
    Toggled { pos: (i32, i32), state: DoorState },
}

/// A door stands at `c` and is not locked.
pub open spec fn unlocked_door(doors: Map<(i32, i32), DoorState>, c: (i32, i32)) -> bool {
    doors.dom().contains(c) && doors[c] != DoorState::Locked
}

/// The door the interact key acts on: the first door adjacent to `pos` that
/// is not locked, looking north, east, south, then west (−y, +x, +y, −x).
/// Locked doors are passed over.
pub open spec fn first_adjacent_door(doors: Map<(i32, i32), DoorState>, pos: MapPosition) -> Option<(i32, i32)> {
    let n = (pos.x, (pos.y - 1) as i32);
    let e = ((pos.x + 1) as i32, pos.y);
    let s = (pos.x, (pos.y + 1) as i32);
    let w = ((pos.x - 1) as i32, pos.y);
    if unlocked_door(doors, n) {
        Some(n)
    } else if unlocked_door(doors, e) {
        Some(e)
    } else if unlocked_door(doors, s) {
        Some(s)
    } else if unlocked_door(doors, w) {
        Some(w)
    } else {
        None
    }
}

/// Interact key for the player at `pos` with doors in states `doors`: the
/// action taken and the doors' states afterwards.  Unless the player stands
/// on a stair, the first adjacent door that is not locked is toggled between
/// open and closed; locked doors are skipped silently.
pub open spec fn door_interaction(
    map: &FloorMap,
    pos: MapPosition,
    doors: Map<(i32, i32), DoorState>,
) -> (DoorAction, Map<(i32, i32), DoorState>) {
    if map.tile_at(pos.x as int, pos.y as int).stair() {
        (DoorAction::Nothing, doors)
    } else {
        match first_adjacent_door(doors, pos) {
            None => (DoorAction::Nothing, doors),
            Some(p) => {
                let st = if doors[p] == DoorState::Closed { DoorState::Open } else { DoorState::Closed };
                (DoorAction::Toggled { pos: p, state: st }, doors.insert(p, st))
            },
        }
    }
}

/// Interact key for the player at `pos` (see [`door_interaction`]).  `doors`
/// gives the state of each door on the floor by position; the door acted on
/// is updated in place.
pub fn interact_with_doors(map: &FloorMap, pos: MapPosition, doors: &mut PosMap<DoorState>) -> (a: DoorAction)
    requires
        map.wf(),
        map.in_bounds_spec(pos.x as int, pos.y as int),
        old(doors).wf(),
    ensures
        final(doors).wf(),
        a == door_interaction(map, pos, old(doors)@).0,
        final(doors)@ == door_interaction(map, pos, old(doors)@).1,
{
    if map.tile(pos.x, pos.y).is_stair() {
        return DoorAction::Nothing;
    }
    let candidates = [(0i32, -1i32), (1, 0), (0, 1), (-1, 0)];
    let ghost cells = seq![
        (pos.x, (pos.y - 1) as i32),
        ((pos.x + 1) as i32, pos.y),
        (pos.x, (pos.y + 1) as i32),
        ((pos.x - 1) as i32, pos.y),
    ];
    let mut k: usize = 0;
    while k < 4
        invariant
            k <= 4,
            candidates@ == seq![(0i32, -1i32), (1i32, 0i32), (0i32, 1i32), (-1i32, 0i32)],
            cells == seq![
                (pos.x, (pos.y - 1) as i32),
                ((pos.x + 1) as i32, pos.y),
                (pos.x, (pos.y + 1) as i32),
                ((pos.x - 1) as i32, pos.y),
            ],
            doors@ == old(doors)@,
            doors.wf(),
            map.wf(),
            !map.tile_at(pos.x as int, pos.y as int).stair(),
            map.in_bounds_spec(pos.x as int, pos.y as int),
            forall|j: int| 0 <= j < k ==> !unlocked_door(doors@, #[trigger] cells[j]),
        decreases 4 - k,
    {
        let (dx, dy) = candidates[k];
        let adj = (pos.x + dx, pos.y + dy);
        assert(adj == cells[k as int]);
        match doors.get(adj) {
            None => {},
            Some(state) => {
                let st = *state;
                if st != DoorState::Locked {
                    proof {
                        if k >= 1 { assert(!unlocked_door(doors@, cells[0])); }
                        if k >= 2 { assert(!unlocked_door(doors@, cells[1])); }
                        if k >= 3 { assert(!unlocked_door(doors@, cells[2])); }
                        assert(first_adjacent_door(old(doors)@, pos) == Some(adj));
                    }
                    let new_state = match st {
                        DoorState::Closed => DoorState::Open,
                        _ => DoorState::Closed,
                    };
                    doors.insert(adj, new_state);
                    return DoorAction::Toggled { pos: adj, state: new_state };
                }
            },
        }
        k = k + 1;
    }
    proof {
        assert(!unlocked_door(doors@, cells[0]));
        assert(!unlocked_door(doors@, cells[1]));
        assert(!unlocked_door(doors@, cells[2]));
        assert(!unlocked_door(doors@, cells[3]));
    }
    DoorAction::Nothing
}

/// Pressing the interact key twice at the same spot leaves every door as it
/// was: a toggled door is toggled back, and nothing else ever changes.
pub proof fn lemma_interact_twice_restores(map: &FloorMap, pos: MapPosition, doors: Map<(i32, i32), DoorState>)
    ensures
        door_interaction(map, pos, door_interaction(map, pos, doors).1).1 == doors,
{
    let (a, d1) = door_interaction(map, pos, doors);
    if !map.tile_at(pos.x as int, pos.y as int).stair() {
        match first_adjacent_door(doors, pos) {
            None => {},
            Some(p) => {
                let n = (pos.x, (pos.y - 1) as i32);
                let e = ((pos.x + 1) as i32, pos.y);
                let s = (pos.x, (pos.y + 1) as i32);
                let w = ((pos.x - 1) as i32, pos.y);
                assert(unlocked_door(doors, n) == unlocked_door(d1, n));
                assert(unlocked_door(doors, e) == unlocked_door(d1, e));
                assert(unlocked_door(doors, s) == unlocked_door(d1, s));
                assert(unlocked_door(doors, w) == unlocked_door(d1, w));
                assert(first_adjacent_door(d1, pos) == Some(p));
                assert(d1.insert(p, doors[p]) =~= doors);
            },
        }
    }
}

/// A wall occludes the player at `player` when it is nearer the viewer
/// (`wall_depth = x + y` exceeds the player's) and shares the player's
/// screen column (`wall_col = x − y` within one of the player's).
pub fn wall_occludes(wall_depth: i32, wall_col: i32, player: MapPosition) -> (b: bool)
    ensures
        b == (wall_depth > player.x + player.y && -1 <= wall_col - (player.x - player.y) <= 1),
{
    let depth = player.x as i64 + player.y as i64;
    let col = player.x as i64 - player.y as i64;
    let diff = wall_col as i64 - col;
    (wall_depth as i64) > depth && -1 <= diff && diff <= 1
}

/// Sprite for a wall-like tile: asset prefix and the face suffix.
#[derive(Clone, Copy, PartialEq, Eq, Debug)]
pub struct WallSprite {
    pub prefix: &'static str,
    pub dir: CardinalDir,
}

/// Which wall sprite a wall-like cell shows, chosen from which of its
/// neighbours (south `+y`, north `−y`, east `+x`, west `−x`) can be walked
/// on.  A plain wall uses a corner piece where two walkable neighbours meet;
/// a wall with no walkable neighbour is not drawn.
pub open spec fn spec_wall_sprite(t: TileType, s: bool, n: bool, e: bool, w: bool) -> Option<(Seq<char>, CardinalDir)> {
    if t == TileType::Wall {
        if s && e {
            Some(("stoneWallCorner"@, CardinalDir::N))
        } else if s && w {
            Some(("stoneWallCorner"@, CardinalDir::E))
        } else if n && w {
            Some(("stoneWallCorner"@, CardinalDir::S))
        } else if n && e {
            Some(("stoneWallCorner"@, CardinalDir::W))
        } else if s {
            Some(("stoneWall"@, CardinalDir::N))
        } else if n {
            Some(("stoneWall"@, CardinalDir::S))
        } else if e {
            Some(("stoneWall"@, CardinalDir::W))
        } else if w {
            Some(("stoneWall"@, CardinalDir::E))
        } else {
            None
        }
    } else if s {
        Some((t.wall_prefix(), CardinalDir::N))
    } else if n {
        Some((t.wall_prefix(), CardinalDir::S))
    } else if e {
        Some((t.wall_prefix(), CardinalDir::W))
    } else if w {
        Some((t.wall_prefix(), CardinalDir::E))
    } else {
        None
    }
}

/// Wall faces.  A plain wall where two walkable neighbours meet shows the
/// corner piece, its face fixed by the pair (checked in this order): south
/// and east give the north face, south and west the east face, north and
/// west the south face, north and east the west face.  A plain wall with a
/// single walkable neighbour shows the straight piece facing away from it:
/// south gives north, north gives south, east gives west, west gives east.
/// Other wall-like tiles use their own prefix with the same single-side
/// faces, south before north before east before west, and never a corner.
/// A cell without a walkable neighbour shows nothing.
pub proof fn lemma_wall_faces(t: TileType, s: bool, n: bool, e: bool, w: bool)
    ensures
        t == TileType::Wall && s && e ==> spec_wall_sprite(t, s, n, e, w) == Some(("stoneWallCorner"@, CardinalDir::N)),
        t == TileType::Wall && s && w && !e ==> spec_wall_sprite(t, s, n, e, w) == Some(("stoneWallCorner"@, CardinalDir::E)),
        t == TileType::Wall && n && w && !s ==> spec_wall_sprite(t, s, n, e, w) == Some(("stoneWallCorner"@, CardinalDir::S)),
        t == TileType::Wall && n && e && !s && !w ==> spec_wall_sprite(t, s, n, e, w) == Some(("stoneWallCorner"@, CardinalDir::W)),
        t == TileType::Wall && s && !n && !e && !w ==> spec_wall_sprite(t, s, n, e, w) == Some(("stoneWall"@, CardinalDir::N)),
        t == TileType::Wall && n && !s && !e && !w ==> spec_wall_sprite(t, s, n, e, w) == Some(("stoneWall"@, CardinalDir::S)),
        t == TileType::Wall && e && !s && !n && !w ==> spec_wall_sprite(t, s, n, e, w) == Some(("stoneWall"@, CardinalDir::W)),
        t == TileType::Wall && w && !s && !n && !e ==> spec_wall_sprite(t, s, n, e, w) == Some(("stoneWall"@, CardinalDir::E)),
        t != TileType::Wall && s ==> spec_wall_sprite(t, s, n, e, w) == Some((t.wall_prefix(), CardinalDir::N)),
        t != TileType::Wall && n && !s ==> spec_wall_sprite(t, s, n, e, w) == Some((t.wall_prefix(), CardinalDir::S)),
        t != TileType::Wall && e && !s && !n ==> spec_wall_sprite(t, s, n, e, w) == Some((t.wall_prefix(), CardinalDir::W)),
        t != TileType::Wall && w && !s && !n && !e ==> spec_wall_sprite(t, s, n, e, w) == Some((t.wall_prefix(), CardinalDir::E)),
        !s && !n && !e && !w ==> spec_wall_sprite(t, s, n, e, w) is None,
{
}

pub fn wall_sprite(map: &FloorMap, x: i32, y: i32) -> (r: Option<WallSprite>)
    requires
        map.wf(),
        map.in_bounds_spec(x as int, y as int),
        map.tile_at(x as int, y as int).wall_like(),
    ensures
        ({
            let spec = spec_wall_sprite(
                map.tile_at(x as int, y as int),
                map.walkable_at(x as int, y + 1),
                map.walkable_at(x as int, y - 1),
                map.walkable_at(x + 1, y as int),
                map.walkable_at(x - 1, y as int),
            );
            match r {
                Some(ws) => (spec matches Some(v) && ws.prefix@ == v.0 && ws.dir == v.1),
                None => spec is None,
            }
        }),
{
    let tile = map.tile(x, y);
    let s = map.is_walkable(x, y + 1);
    let n = map.is_walkable(x, y - 1);
    let e = map.is_walkable(x + 1, y);
    let w = map.is_walkable(x - 1, y);
    if tile == TileType::Wall {
        let corner = "stoneWallCorner";
        let plain = "stoneWall";
        proof {
            reveal_strlit("stoneWallCorner");
            reveal_strlit("stoneWall");
        }
        if s && e {
            Some(WallSprite { prefix: corner, dir: CardinalDir::N })
        } else if s && w {
            Some(WallSprite { prefix: corner, dir: CardinalDir::E })
        } else if n && w {
            Some(WallSprite { prefix: corner, dir: CardinalDir::S })
        } else if n && e {
            Some(WallSprite { prefix: corner, dir: CardinalDir::W })
        } else if s {
            Some(WallSprite { prefix: plain, dir: CardinalDir::N })
        } else if n {
            Some(WallSprite { prefix: plain, dir: CardinalDir::S })
        } else if e {
            Some(WallSprite { prefix: plain, dir: CardinalDir::W })
        } else if w {
            Some(WallSprite { prefix: plain, dir: CardinalDir::E })
        } else {
            None
        }
    } else {
        let prefix = tile.wall_asset_prefix();
        if s {
            Some(WallSprite { prefix, dir: CardinalDir::N })
        } else if n {
            Some(WallSprite { prefix, dir: CardinalDir::S })
        } else if e {
            Some(WallSprite { prefix, dir: CardinalDir::W })
        } else if w {
            Some(WallSprite { prefix, dir: CardinalDir::E })
        } else {
            None
        }
    }
}

} // verus!
