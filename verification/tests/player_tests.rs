use iso_dungeon::components::{CharacterKind, MapPosition};
use iso_dungeon::map::{FloorMap, TileType};
use iso_dungeon::mapgen::generate_map;
use iso_dungeon::pathfind::bfs_path;
use iso_dungeon::player::{
    dir_to_facing, facing_to_grid_delta, FacingDir, JumpPhase, LightType, Pace, PlayerAnimation,
    FEMALE_JUMP_FRAME_COUNT, FEMALE_RUN_FRAME_COUNT, FEMALE_WALKBACK_FRAME_COUNT, FEMALE_WALK_FRAME_COUNT,
};

#[test]
fn bfs_reaches_room_center() {
    let map = generate_map();
    let (ax, ay) = map.rooms[0].center();
    let (bx, by) = map.rooms.last().unwrap().center();
    let no_doors: Vec<(i32, i32)> = Vec::new();
    if (ax, ay) == (bx, by) {
        assert!(bfs_path(&map, &no_doors, (ax, ay), (bx, by)).unwrap().is_empty());
        return;
    }
    let path = bfs_path(&map, &no_doors, (ax, ay), (bx, by));
    assert!(path.is_some(), "rooms should be connected via corridors");
    let path = path.unwrap();
    let first_step = *path.last().unwrap();
    let dist = (first_step.0 - ax).abs() + (first_step.1 - ay).abs();
    assert_eq!(dist, 1, "first step must be one tile away");
}

#[test]
fn bfs_same_start_and_goal() {
    let map = generate_map();
    let (cx, cy) = map.rooms[0].center();
    let path = bfs_path(&map, &Vec::new(), (cx, cy), (cx, cy)).unwrap();
    assert!(path.is_empty());
}

#[test]
fn dir_to_facing_cardinals() {
    assert_eq!(dir_to_facing(0, -1), FacingDir::North);
    assert_eq!(dir_to_facing(1, 0), FacingDir::East);
    assert_eq!(dir_to_facing(0, 1), FacingDir::South);
    assert_eq!(dir_to_facing(-1, 0), FacingDir::West);
}

#[test]
fn dir_to_facing_diagonals() {
    assert_eq!(dir_to_facing(1, -1), FacingDir::NorthEast);
    assert_eq!(dir_to_facing(1, 1), FacingDir::SouthEast);
    assert_eq!(dir_to_facing(-1, 1), FacingDir::SouthWest);
    assert_eq!(dir_to_facing(-1, -1), FacingDir::NorthWest);
}

#[test]
fn light_type_cycle_is_complete() {
    let start = LightType::Torch;
    let next1 = start.next();
    let next2 = next1.next();
    let next3 = next2.next();
    assert_eq!(next1, LightType::Lantern);
    assert_eq!(next2, LightType::Dark);
    assert_eq!(next3, LightType::Torch, "cycle must return to Torch");
}

#[test]
fn bfs_closed_door_blocks_path() {
    let map = generate_map();
    let door = &map.doors[0];
    let door_pos = (door.x, door.y);
    let (cx, cy) = map.rooms[0].center();
    let no_doors: Vec<(i32, i32)> = Vec::new();
    assert!(
        bfs_path(&map, &no_doors, (cx, cy), door_pos).is_some(),
        "BFS should reach the door tile when it is not in the closed set"
    );
    let closed = vec![door_pos];
    assert!(
        bfs_path(&map, &closed, (cx, cy), door_pos).is_none(),
        "BFS must not reach a tile listed in the closed-door set"
    );
}

#[test]
fn bfs_unreachable_returns_none() {
    let map = generate_map();
    let (cx, cy) = map.rooms[0].center();
    assert!(bfs_path(&map, &Vec::new(), (cx, cy), (0, 0)).is_none());
}

#[test]
fn facing_to_grid_delta_cardinals() {
    assert_eq!(facing_to_grid_delta(FacingDir::North), (0, -1));
    assert_eq!(facing_to_grid_delta(FacingDir::East), (1, 0));
    assert_eq!(facing_to_grid_delta(FacingDir::South), (0, 1));
    assert_eq!(facing_to_grid_delta(FacingDir::West), (-1, 0));
}

#[test]
fn facing_to_grid_delta_diagonals() {
    assert_eq!(facing_to_grid_delta(FacingDir::NorthEast), (1, -1));
    assert_eq!(facing_to_grid_delta(FacingDir::SouthEast), (1, 1));
    assert_eq!(facing_to_grid_delta(FacingDir::SouthWest), (-1, 1));
    assert_eq!(facing_to_grid_delta(FacingDir::NorthWest), (-1, -1));
}

#[test]
fn jump_frame_count_matches_walk_layout() {
    assert_eq!(FEMALE_JUMP_FRAME_COUNT, FEMALE_WALK_FRAME_COUNT);
}

#[test]
fn player_animation_starts_not_jumping() {
    let anim = PlayerAnimation::new();
    assert!(!anim.jumping);
}

#[test]
fn trigger_jump_sets_jumping_state() {
    let mut anim = PlayerAnimation::new();
    anim.trigger_jump((3, 4), (2, 4), (5, 4));
    assert!(anim.jumping);
    assert_eq!(anim.jump_phase, JumpPhase::WalkBack);
    assert_eq!(anim.jump_origin, (3, 4));
    assert_eq!(anim.jump_back_tile, (2, 4));
    assert_eq!(anim.jump_target, (5, 4));
    assert!(!anim.jump_midpoint_reached);
    assert_eq!(anim.jump_frame, 0);
    assert!(anim.path.is_empty(), "trigger_jump must clear auto-travel path");
    assert!(!anim.running, "trigger_jump must clear running state");
}

#[test]
fn advance_jump_phase_cycles_correctly() {
    let mut anim = PlayerAnimation::new();
    anim.trigger_jump((3, 4), (2, 4), (5, 4));
    assert_eq!(anim.jump_phase, JumpPhase::WalkBack);

    assert!(!anim.advance_jump_phase());
    assert_eq!(anim.jump_phase, JumpPhase::RunForward);
    assert_eq!(anim.jump_frame, 0);

    assert!(!anim.advance_jump_phase());
    assert_eq!(anim.jump_phase, JumpPhase::Arc);
    assert_eq!(anim.jump_frame, 0);

    assert!(anim.advance_jump_phase(), "Arc should signal completion");
}

#[test]
fn walkback_frame_count_matches_walk_layout() {
    assert_eq!(FEMALE_WALKBACK_FRAME_COUNT, FEMALE_WALK_FRAME_COUNT);
}

#[test]
fn dir_to_facing_large_deltas() {
    assert_eq!(dir_to_facing(5, 3), FacingDir::SouthEast);
    assert_eq!(dir_to_facing(0, -10), FacingDir::North);
    assert_eq!(dir_to_facing(-7, -7), FacingDir::NorthWest);
}

#[test]
fn dir_to_facing_zero_delta_is_south() {
    assert_eq!(dir_to_facing(0, 0), FacingDir::South);
}

#[test]
fn trigger_walk_resets_frame_on_run_to_walk_transition() {
    let mut anim = PlayerAnimation::new();
    anim.running = true;
    anim.auto_running = true;
    anim.frame = FEMALE_RUN_FRAME_COUNT - 1;
    anim.trigger_walk(FacingDir::North);
    assert_eq!(anim.frame, 0, "frame must reset when switching from run to walk");
    assert!(!anim.auto_running);
}

#[test]
fn trigger_run_resets_frame_on_walk_to_run_transition() {
    let mut anim = PlayerAnimation::new();
    anim.running = true;
    anim.auto_running = false;
    anim.frame = FEMALE_WALK_FRAME_COUNT - 1;
    anim.trigger_run(FacingDir::East);
    assert_eq!(anim.frame, 0, "frame must reset when switching from walk to run");
    assert!(anim.auto_running);
}

#[test]
fn trigger_walk_preserves_frame_when_already_walking() {
    let mut anim = PlayerAnimation::new();
    anim.running = true;
    anim.auto_running = false;
    anim.frame = 10;
    anim.trigger_walk(FacingDir::South);
    assert_eq!(anim.frame, 10, "frame should be preserved when walk-to-walk");
}

#[test]
fn run_cooldown_matches_step_duration() {
    let mut anim = PlayerAnimation::new();
    anim.trigger_walk(FacingDir::North);
    assert_eq!(anim.pace, Pace::Walk, "walk cooldown should match walk step duration");
    anim.trigger_run(FacingDir::North);
    assert_eq!(anim.pace, Pace::Run, "run cooldown should match run step duration");
}

// ── Additional checks ───────────────────────────────────────────────────────

#[test]
fn female_dir_index_picks_nearest_angle() {
    // NW = 0° → index 0; N = 45° → index 2; E = 135° → index 6; S = 225° → index 10.
    assert_eq!(FacingDir::NorthWest.to_female_dir_index(), 0);
    assert_eq!(FacingDir::North.to_female_dir_index(), 2);
    assert_eq!(FacingDir::East.to_female_dir_index(), 6);
    assert_eq!(FacingDir::South.to_female_dir_index(), 10);
    assert_eq!(FacingDir::West.to_female_dir_index(), 14);
}

#[test]
fn jump_frames_advance_through_all_phases() {
    let mut anim = PlayerAnimation::new();
    anim.trigger_jump((3, 4), (2, 4), (5, 4));
    let mut landed_after = 0;
    for i in 1..200 {
        if anim.advance_jump_frame() {
            landed_after = i;
            break;
        }
    }
    assert_eq!(landed_after, FEMALE_WALKBACK_FRAME_COUNT + FEMALE_RUN_FRAME_COUNT + FEMALE_JUMP_FRAME_COUNT);
    assert!(!anim.jumping);
    assert_eq!(anim.jump_frame, FEMALE_JUMP_FRAME_COUNT - 1);
}

#[test]
fn jump_position_snaps_at_phase_midpoints() {
    let mut anim = PlayerAnimation::new();
    let mut pos = MapPosition::new(3, 4);
    anim.trigger_jump((3, 4), (2, 4), (5, 4));
    anim.jump_frame = FEMALE_WALKBACK_FRAME_COUNT / 2 - 1;
    anim.snap_jump_position(&mut pos);
    assert_eq!(pos, MapPosition::new(3, 4));
    anim.jump_frame = FEMALE_WALKBACK_FRAME_COUNT / 2;
    anim.snap_jump_position(&mut pos);
    assert_eq!(pos, MapPosition::new(2, 4));
    anim.advance_jump_phase();
    anim.jump_frame = FEMALE_RUN_FRAME_COUNT / 2;
    anim.snap_jump_position(&mut pos);
    assert_eq!(pos, MapPosition::new(3, 4));
    anim.advance_jump_phase();
    anim.jump_frame = FEMALE_JUMP_FRAME_COUNT / 2;
    anim.snap_jump_position(&mut pos);
    assert_eq!(pos, MapPosition::new(5, 4));
    assert!(anim.jump_midpoint_reached);
}

#[test]
fn frame_counter_wraps_per_sheet() {
    let mut anim = PlayerAnimation::new();
    anim.frame = 15;
    anim.advance_frame(CharacterKind::Female);
    assert_eq!(anim.frame, 0, "idle sheet has 16 frames");
    anim.trigger_run(FacingDir::East);
    anim.frame = 19;
    anim.advance_frame(CharacterKind::Female);
    assert_eq!(anim.frame, 0, "run sheet has 20 frames");
    anim.frame = 9;
    anim.advance_frame(CharacterKind::Male);
    assert_eq!(anim.frame, 0, "male run has 10 frames");
}

/// Opens every cell of the rectangle `x1..=x2` × `y1..=y2`.
fn open_rect(map: &mut FloorMap, x1: i32, x2: i32, y1: i32, y2: i32) {
    for y in y1..=y2 {
        for x in x1..=x2 {
            let i = map.idx(x, y);
            map.tiles[i] = TileType::Floor;
        }
    }
}

#[test]
fn bfs_path_is_shortest() {
    // A U-shaped passage: two vertical arms joined at the bottom.
    let mut map = FloorMap::new();
    open_rect(&mut map, 2, 2, 2, 8);
    open_rect(&mut map, 6, 6, 2, 8);
    open_rect(&mut map, 2, 6, 8, 8);
    let path = bfs_path(&map, &Vec::new(), (2, 2), (6, 2)).unwrap();
    // Down 6, across 4, up 6.
    assert_eq!(path.len(), 16);
    assert_eq!(path[0], (6, 2));
    // With a wide open room the path is as long as the grid distance.
    let mut room = FloorMap::new();
    open_rect(&mut room, 1, 10, 1, 10);
    let path = bfs_path(&room, &Vec::new(), (2, 3), (9, 7)).unwrap();
    assert_eq!(path.len(), 11);
    // A closed door on the bottom of the U cuts the only route.
    let closed = vec![(4, 8)];
    assert!(bfs_path(&map, &closed, (2, 2), (6, 2)).is_none());
}

#[test]
fn jump_lands_on_its_target() {
    let mut anim = PlayerAnimation::new();
    let mut pos = MapPosition::new(3, 4);
    anim.trigger_jump((3, 4), (3, 5), (3, 2));
    let mut visited_back_tile = false;
    loop {
        let landed = anim.advance_jump_frame();
        if landed {
            break;
        }
        anim.snap_jump_position(&mut pos);
        visited_back_tile |= pos == MapPosition::new(3, 5);
    }
    assert!(visited_back_tile);
    assert_eq!(pos, MapPosition::new(3, 2));
    assert!(!anim.jumping);
}

#[test]
fn bfs_same_start_and_goal_anywhere() {
    let map = FloorMap::new();
    let far = (i32::MAX, i32::MIN);
    assert_eq!(bfs_path(&map, &vec![far], far, far), Some(Vec::new()));
}
