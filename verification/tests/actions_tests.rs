use iso_dungeon::actions::{
    apply_level_transition, closed_positions, interact_with_doors, jump_message, key_direction,
    apply_landing, landing_outcome, stair_transition, wall_occludes, wall_sprite, DoorAction, JumpOutcome, Landing,
};
use iso_dungeon::components::{CardinalDir, DoorState, MapPosition};
use iso_dungeon::map::{FloorMap, PropType, TileType, VoidOutcome};
use iso_dungeon::mapgen::generate_dungeon;
use iso_dungeon::player::{FacingDir, PlayerAnimation};
use iso_dungeon::pos_map::PosMap;

/// A 10×10 floor whose interior (1..=8 × 1..=8) is open floor.
fn open_floor() -> FloorMap {
    let mut m = FloorMap::new();
    for y in 1..9 {
        for x in 1..9 {
            let i = m.idx(x, y);
            m.tiles[i] = TileType::Floor;
        }
    }
    m
}

#[test]
fn movement_keys() {
    assert_eq!(key_direction(true, true, false, false), (0, 1));
    assert_eq!(key_direction(false, true, true, false), (0, -1));
    assert_eq!(key_direction(false, false, true, true), (-1, 0));
    assert_eq!(key_direction(false, false, false, true), (1, 0));
    assert_eq!(key_direction(false, false, false, false), (0, 0));
}

#[test]
fn keyboard_step_moves_or_turns() {
    let m = open_floor();
    let mut anim = PlayerAnimation::new();
    let mut pos = MapPosition::new(1, 1);
    assert!(anim.keyboard_step(&m, &Vec::new(), &mut pos, 1, 0));
    assert_eq!(pos, MapPosition::new(2, 1));
    assert_eq!(anim.facing, FacingDir::East);
    assert!(anim.running);
    assert!(!anim.keyboard_step(&m, &Vec::new(), &mut pos, 0, -1), "row 0 is wall");
    assert_eq!(pos, MapPosition::new(2, 1));
    assert_eq!(anim.facing, FacingDir::North);
    assert!(!anim.keyboard_step(&m, &vec![(3, 1)], &mut pos, 1, 0), "closed door blocks");
}

#[test]
fn vertical_keys_on_mid_stair_do_not_move() {
    let mut m = open_floor();
    let i = m.idx(4, 4);
    m.tiles[i] = TileType::StairsMid;
    let mut anim = PlayerAnimation::new();
    let mut pos = MapPosition::new(4, 4);
    assert!(!anim.keyboard_step(&m, &Vec::new(), &mut pos, 0, 1));
    assert_eq!(pos, MapPosition::new(4, 4));
    assert!(anim.keyboard_step(&m, &Vec::new(), &mut pos, 1, 0));
}

#[test]
fn double_click_plans_path_and_auto_steps_follow_it() {
    let m = open_floor();
    let mut anim = PlayerAnimation::new();
    let mut pos = MapPosition::new(1, 1);
    anim.click(&m, &Vec::new(), pos, (4, 1), false);
    assert_eq!(anim.facing, FacingDir::East);
    assert!(anim.path.is_empty());
    anim.click(&m, &Vec::new(), pos, (4, 1), true);
    assert_eq!(anim.path_total, 3);
    assert_eq!(anim.path[0], (4, 1));
    assert!(anim.next_auto_step(&m, &Vec::new(), &mut pos));
    assert_eq!(pos, MapPosition::new(2, 1));
    assert!(!anim.auto_running, "first step walks");
    assert!(anim.next_auto_step(&m, &Vec::new(), &mut pos));
    assert!(anim.auto_running, "middle step runs");
    assert!(anim.next_auto_step(&m, &Vec::new(), &mut pos));
    assert!(!anim.auto_running, "last step walks");
    assert_eq!(pos, MapPosition::new(4, 1));
    assert!(!anim.next_auto_step(&m, &Vec::new(), &mut pos));
}

#[test]
fn auto_travel_stops_at_newly_closed_door() {
    let m = open_floor();
    let mut anim = PlayerAnimation::new();
    let mut pos = MapPosition::new(1, 1);
    anim.click(&m, &Vec::new(), pos, (3, 1), true);
    assert!(!anim.next_auto_step(&m, &vec![(2, 1)], &mut pos));
    assert!(anim.path.is_empty());
    assert_eq!(pos, MapPosition::new(1, 1));
}

#[test]
fn jump_rules() {
    let mut m = open_floor();
    let mut anim = PlayerAnimation::new();
    anim.facing = FacingDir::East;
    assert_eq!(anim.try_jump(&m, &Vec::new(), MapPosition::new(2, 2)), JumpOutcome::Jumping);
    assert_eq!(anim.jump_target, (4, 2));
    assert_eq!(anim.jump_back_tile, (1, 2));
    assert_eq!(anim.try_jump(&m, &Vec::new(), MapPosition::new(2, 2)), JumpOutcome::Busy);
    let mut anim = PlayerAnimation::new();
    anim.facing = FacingDir::West;
    assert_eq!(anim.try_jump(&m, &Vec::new(), MapPosition::new(1, 2)), JumpOutcome::NothingToJumpTo);
    anim.facing = FacingDir::East;
    assert_eq!(anim.try_jump(&m, &Vec::new(), MapPosition::new(1, 2)), JumpOutcome::NoRoom);
    assert_eq!(anim.try_jump(&m, &vec![(4, 2)], MapPosition::new(2, 2)), JumpOutcome::CantJumpThere);
    // A prop on a walkable landing cell does not stop the jump.
    let i = m.idx(4, 2);
    m.props[i] = Some(PropType::Barrel);
    let mut barrel_jump = PlayerAnimation::new();
    barrel_jump.facing = FacingDir::East;
    assert_eq!(barrel_jump.try_jump(&m, &Vec::new(), MapPosition::new(2, 2)), JumpOutcome::Jumping);
    m.props[i] = None;
    // A wall is no landing cell.
    let w = m.idx(2, 0);
    assert_eq!(m.tiles[w], TileType::Wall);
    anim.facing = FacingDir::North;
    assert_eq!(anim.try_jump(&m, &Vec::new(), MapPosition::new(2, 2)), JumpOutcome::CantJumpThere);
    anim.facing = FacingDir::East;
    let i = m.idx(4, 2);
    m.tiles[i] = TileType::Void;
    assert_eq!(anim.try_jump(&m, &Vec::new(), MapPosition::new(2, 2)), JumpOutcome::Jumping);
    assert_eq!(jump_message(JumpOutcome::NoRoom).map(|g| (g.text, g.alert)), Some(("Not enough room to jump.".to_string(), true)));
    assert!(jump_message(JumpOutcome::Jumping).is_none());
}

#[test]
fn stairs_lead_between_floors() {
    let mut d = generate_dungeon(3);
    let ((sx, sy), _) = d.floors[0].stair_links.entries()[0];
    let here = MapPosition::new(sx, sy);
    assert!(stair_transition(&d.floors[0], here, false, false, false).is_none());
    let t = stair_transition(&d.floors[0], here, true, false, false).expect("down the stairs");
    assert_eq!(t.destination_floor, 1);
    let mut anim = PlayerAnimation::new();
    let mut pos = here;
    apply_level_transition(&mut d, &mut anim, &mut pos, t);
    assert_eq!(d.current_floor, 1);
    assert_eq!((pos.x, pos.y), t.exit_pos);
    let up = stair_transition(&d.floors[1], pos, false, true, false).expect("back up");
    assert_eq!(up.destination_floor, 0);
    assert_eq!(up.exit_pos, (sx, sy));
}

#[test]
fn landing_in_void() {
    let mut d = generate_dungeon(2);
    let (cx, cy) = d.floors[0].rooms[0].center();
    assert_eq!(landing_outcome(&d, MapPosition::new(cx, cy)), Landing::Safe);
    let i = d.floors[0].idx(cx, cy);
    d.floors[0].tiles[i] = TileType::Void;
    assert_eq!(landing_outcome(&d, MapPosition::new(cx, cy)), Landing::Hazard { damage: 10, respawn: (cx, cy) });
    d.floors[0].void_outcomes.insert((cx, cy), VoidOutcome::NextFloor);
    let next = d.floors[1].rooms[0].center();
    assert_eq!(landing_outcome(&d, MapPosition::new(cx, cy)), Landing::FellToFloor { floor: 1, pos: next });
    d.floors[0].void_outcomes.insert((cx, cy), VoidOutcome::Terminal);
    assert_eq!(landing_outcome(&d, MapPosition::new(cx, cy)), Landing::Lost);
}

#[test]
fn door_interaction_order_and_lock() {
    let m = open_floor();
    let pos = MapPosition::new(4, 4);
    // North is looked at before south.
    let mut doors = PosMap::new();
    doors.insert((4, 5), DoorState::Closed);
    doors.insert((4, 3), DoorState::Closed);
    assert_eq!(interact_with_doors(&m, pos, &mut doors), DoorAction::Toggled { pos: (4, 3), state: DoorState::Open });
    assert_eq!(doors.get((4, 5)), Some(&DoorState::Closed));
    // A locked door is passed over silently for the next one (east, then south).
    let mut doors = PosMap::new();
    doors.insert((4, 3), DoorState::Locked);
    doors.insert((4, 5), DoorState::Open);
    assert_eq!(interact_with_doors(&m, pos, &mut doors), DoorAction::Toggled { pos: (4, 5), state: DoorState::Closed });
    assert_eq!(doors.get((4, 3)), Some(&DoorState::Locked));
    doors.insert((5, 4), DoorState::Closed);
    assert_eq!(interact_with_doors(&m, pos, &mut doors), DoorAction::Toggled { pos: (5, 4), state: DoorState::Open });
    let closed = closed_positions(&doors);
    assert_eq!(closed.len(), 2);
    // Only locked doors around: nothing happens.
    let mut locked = PosMap::new();
    locked.insert((4, 3), DoorState::Locked);
    assert_eq!(interact_with_doors(&m, pos, &mut locked), DoorAction::Nothing);
    assert_eq!(interact_with_doors(&m, MapPosition::new(1, 1), &mut doors), DoorAction::Nothing);
}

#[test]
fn occlusion_and_wall_faces() {
    let p = MapPosition::new(3, 3);
    assert!(wall_occludes(7, 1, p));
    assert!(!wall_occludes(6, 0, p));
    assert!(!wall_occludes(7, 2, p));
    let m = open_floor();
    let corner = wall_sprite(&m, 0, 0).is_none();
    assert!(corner, "a wall with no walkable neighbour is not drawn");
    let top = wall_sprite(&m, 4, 0).unwrap();
    assert_eq!((top.prefix, top.dir), ("stoneWall", CardinalDir::N));
    let mut m2 = open_floor();
    let i = m2.idx(0, 2);
    m2.tiles[i] = TileType::Wall;
    let left = wall_sprite(&m2, 0, 1).unwrap();
    assert_eq!((left.prefix, left.dir), ("stoneWall", CardinalDir::W));
}

#[test]
fn interacting_twice_restores_doors() {
    let m = open_floor();
    let mut doors = PosMap::new();
    doors.insert((5, 4), DoorState::Open);
    doors.insert((3, 4), DoorState::Closed);
    let pos = MapPosition::new(4, 4);
    assert_eq!(interact_with_doors(&m, pos, &mut doors), DoorAction::Toggled { pos: (5, 4), state: DoorState::Closed });
    assert_eq!(interact_with_doors(&m, pos, &mut doors), DoorAction::Toggled { pos: (5, 4), state: DoorState::Open });
    assert_eq!(doors.get((5, 4)), Some(&DoorState::Open));
    assert_eq!(doors.get((3, 4)), Some(&DoorState::Closed));
    assert_eq!(doors.len(), 2);
}

#[test]
fn stair_round_trip_every_floor() {
    let d = generate_dungeon(4);
    for f in 0..4 {
        let ((sx, sy), _) = d.floors[f].stair_links.entries()[0];
        let here = MapPosition::new(sx, sy);
        let tile = d.floors[f].tile(sx, sy);
        // Down: interact on a StairsDown, the down key on a StairsMid; then back up.
        if let Some(t) = stair_transition(&d.floors[f], here, tile == TileType::StairsDown, false, true) {
            assert_eq!(t.destination_floor, f + 1);
            let back = MapPosition::new(t.exit_pos.0, t.exit_pos.1);
            let r = stair_transition(&d.floors[f + 1], back, true, true, false).expect("stairs back up");
            assert_eq!((r.destination_floor, r.exit_pos), (f, (sx, sy)));
        } else {
            assert_eq!(f, 3);
        }
        // Up: interact on a StairsUp, the up key on a StairsMid; then back down.
        if let Some(t) = stair_transition(&d.floors[f], here, tile == TileType::StairsUp, true, false) {
            assert_eq!(t.destination_floor + 1, f);
            let back = MapPosition::new(t.exit_pos.0, t.exit_pos.1);
            let r = stair_transition(&d.floors[f - 1], back, true, false, true).expect("stairs back down");
            assert_eq!((r.destination_floor, r.exit_pos), (f, (sx, sy)));
        } else {
            assert_eq!(f, 0);
        }
    }
}

#[test]
fn pit_landing_respawns_facing_south() {
    let mut anim = PlayerAnimation::new();
    anim.facing = FacingDir::East;
    anim.frame = 3;
    let mut pos = MapPosition::new(7, 7);
    apply_landing(&mut anim, &mut pos, Landing::Hazard { damage: 10, respawn: (2, 3) });
    assert_eq!(pos, MapPosition::new(2, 3));
    assert_eq!(anim.facing, FacingDir::South);
    assert_eq!(anim.frame, 3);
    apply_landing(&mut anim, &mut pos, Landing::Warp { floor: 1, pos: (5, 5) });
    assert_eq!(pos, MapPosition::new(2, 3));
    apply_landing(&mut anim, &mut pos, Landing::Safe);
    assert_eq!(pos, MapPosition::new(2, 3));
}
