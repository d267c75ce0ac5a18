use iso_dungeon::map::{PropType, TileType, MAP_HEIGHT, MAP_WIDTH, Rect};
use iso_dungeon::mapgen::{generate_dungeon, generate_map};

#[test]
fn generate_map_has_rooms() {
    let map = generate_map();
    assert!(!map.rooms.is_empty(), "dungeon must have at least one room");
}

#[test]
fn first_room_center_is_walkable() {
    let map = generate_map();
    let (cx, cy) = map.rooms[0].center();
    assert!(map.is_walkable(cx, cy));
}

#[test]
fn first_room_center_is_passable() {
    let map = generate_map();
    let (cx, cy) = map.rooms[0].center();
    assert!(map.is_passable(cx, cy));
}

#[test]
fn map_bounds_correct() {
    let map = generate_map();
    assert!(!map.in_bounds(-1, 0));
    assert!(!map.in_bounds(0, -1));
    assert!(!map.in_bounds(MAP_WIDTH, 0));
    assert!(!map.in_bounds(0, MAP_HEIGHT));
    assert!(map.in_bounds(0, 0));
    assert!(map.in_bounds(MAP_WIDTH - 1, MAP_HEIGHT - 1));
}

#[test]
fn props_len_matches_tiles() {
    let map = generate_map();
    assert_eq!(map.tiles.len(), map.props.len());
}

#[test]
fn test_door_is_placed() {
    let map = generate_map();
    assert_eq!(map.doors.len(), 1, "exactly one test door should be placed");
}

#[test]
fn test_door_tile_is_floor() {
    let map = generate_map();
    let door = &map.doors[0];
    assert!(
        map.is_walkable(door.x, door.y),
        "door tile ({},{}) must be walkable (Floor)",
        door.x,
        door.y
    );
}

#[test]
fn test_door_starts_closed() {
    let map = generate_map();
    assert!(!map.doors[0].open, "test door should start closed");
}

#[test]
fn test_door_outside_tile_is_floor() {
    let map = generate_map();
    let door = &map.doors[0];
    let outside_y = door.y + 1;
    assert!(map.in_bounds(door.x, outside_y), "tile south of door must be in bounds");
    assert!(
        map.is_walkable(door.x, outside_y),
        "tile south of door ({},{}) must be walkable",
        door.x,
        outside_y
    );
}

#[test]
fn generate_dungeon_has_correct_floor_count() {
    let dungeon = generate_dungeon(3);
    assert_eq!(dungeon.floors.len(), 3);
}

#[test]
fn dungeon_starts_on_floor_zero() {
    let dungeon = generate_dungeon(2);
    assert_eq!(dungeon.current_floor, 0);
}

#[test]
fn stairs_down_placed_on_all_but_last_floor() {
    let dungeon = generate_dungeon(3);
    for f in 0..2 {
        let has_down = dungeon.floors[f].stair_links.entries().iter().any(|(_, node)| node.down.is_some());
        assert!(has_down, "floor {f} must have a downward stair link");
    }
    assert!(
        dungeon.floors[2].stair_links.entries().iter().all(|(_, node)| node.down.is_none()),
        "last floor must not have a downward link"
    );
}

#[test]
fn intermediate_floor_has_stairsmid() {
    let dungeon = generate_dungeon(3);
    let floor = &dungeon.floors[1];
    let has_mid = floor
        .stair_links
        .entries()
        .iter()
        .any(|&((x, y), _)| floor.tiles[floor.idx(x, y)] == TileType::StairsMid);
    assert!(has_mid, "floor 1 of 3 must contain a StairsMid tile");
}

#[test]
fn stairsmid_has_both_links() {
    let dungeon = generate_dungeon(3);
    let floor = &dungeon.floors[1];
    for &((x, y), node) in floor.stair_links.entries() {
        if floor.tiles[floor.idx(x, y)] == TileType::StairsMid {
            assert!(node.up.is_some(), "StairsMid at ({x},{y}) must have an up link");
            assert!(node.down.is_some(), "StairsMid at ({x},{y}) must have a down link");
        }
    }
}

#[test]
fn stairs_links_are_bidirectional() {
    let dungeon = generate_dungeon(3);
    for f in 0..dungeon.floors.len() {
        for &(pos, node) in dungeon.floors[f].stair_links.entries() {
            if let Some(down) = &node.down {
                let back = dungeon.floors[down.target_floor]
                    .stair_links
                    .get(down.target_pos)
                    .expect("target floor must have a return stair node");
                let up = back.up.as_ref().expect("return node must have an up link");
                assert_eq!(up.target_floor, f);
                assert_eq!(up.target_pos, pos);
            }
        }
    }
}

#[test]
fn stair_tiles_are_walkable() {
    let dungeon = generate_dungeon(3);
    for (f, floor) in dungeon.floors.iter().enumerate() {
        for &((x, y), _) in floor.stair_links.entries() {
            assert!(floor.is_walkable(x, y), "stair tile at ({x},{y}) on floor {f} must be walkable");
        }
    }
}

#[test]
fn single_floor_dungeon_has_no_stairs() {
    let dungeon = generate_dungeon(1);
    assert!(dungeon.floors[0].stair_links.is_empty());
}

#[test]
fn walkable_tile_types() {
    for t in [
        TileType::Floor,
        TileType::Dirt,
        TileType::Planks,
        TileType::Bridge,
        TileType::StairsDown,
        TileType::StairsMid,
        TileType::StairsUp,
        TileType::DoorOpen,
        TileType::Archway,
    ] {
        assert!(t.is_walkable(), "{t:?} should be walkable");
    }
}

#[test]
fn impassable_tile_types() {
    for t in [TileType::Wall, TileType::DoorClosed, TileType::BrokenWall, TileType::Window] {
        assert!(!t.is_walkable(), "{t:?} should not be walkable");
    }
}

#[test]
fn prop_blocks_passability() {
    let mut map = generate_map();
    let (cx, cy) = map.rooms[0].center();
    assert!(map.is_passable(cx, cy));
    let idx = map.idx(cx, cy);
    map.props[idx] = Some(PropType::Barrel);
    assert!(!map.is_passable(cx, cy), "prop should block passability");
    assert!(map.is_walkable(cx, cy), "prop must not affect tile walkability");
}

#[test]
fn floor_like_tiles_have_asset_prefix() {
    for t in [
        TileType::Floor,
        TileType::Dirt,
        TileType::Planks,
        TileType::Bridge,
        TileType::StairsDown,
        TileType::StairsMid,
        TileType::StairsUp,
    ] {
        assert!(t.is_floor_like());
        let p = t.floor_asset_prefix();
        assert!(!p.is_empty());
        assert!(!p.contains('/'));
    }
}

#[test]
fn wall_like_tiles_have_asset_prefix() {
    for t in [
        TileType::Wall,
        TileType::DoorClosed,
        TileType::DoorOpen,
        TileType::BrokenWall,
        TileType::Window,
        TileType::Archway,
    ] {
        let p = t.wall_asset_prefix();
        assert!(!p.is_empty());
        assert!(!p.contains('/'));
    }
}

#[test]
fn occluding_walls_are_impassable() {
    for t in [TileType::Wall, TileType::DoorClosed, TileType::BrokenWall, TileType::Window] {
        assert!(t.is_occluding_wall());
        assert!(!t.is_walkable(), "{t:?} is occluding but walkable");
    }
}

#[test]
fn walkable_wall_openings_do_not_occlude() {
    for t in [TileType::DoorOpen, TileType::Archway] {
        assert!(!t.is_occluding_wall(), "{t:?} should not occlude");
        assert!(t.is_walkable());
    }
}

#[test]
fn all_prop_prefixes_are_nonempty() {
    for p in [
        PropType::Barrel,
        PropType::Barrels,
        PropType::BarrelsStacked,
        PropType::ChestClosed,
        PropType::ChestOpen,
        PropType::WoodenCrate,
        PropType::WoodenCrates,
        PropType::WoodenPile,
        PropType::Pillar,
        PropType::PillarWood,
        PropType::TableRound,
        PropType::TableRoundChairs,
        PropType::TableShort,
        PropType::TableShortChairs,
        PropType::Chair,
        PropType::WoodenSupports,
        PropType::WoodenSupportsBeam,
    ] {
        let prefix = p.asset_prefix();
        assert!(!prefix.is_empty(), "{p:?} has empty asset prefix");
        assert!(!prefix.contains('/'), "{p:?} prefix contains a path separator");
    }
}

// ── Additional checks ───────────────────────────────────────────────────────

#[test]
fn rect_center_and_intersection() {
    let a = Rect::new(2, 3, 4, 6);
    assert_eq!((a.x2, a.y2), (6, 9));
    assert_eq!(a.center(), (4, 6));
    let b = Rect::new(6, 9, 3, 3);
    assert!(a.intersects(&b), "touching rectangles intersect");
    let c = Rect::new(7, 0, 3, 3);
    assert!(!a.intersects(&c));
    // Truncating division for negative coordinates.
    assert_eq!(Rect::new(-3, -3, 0, 0).center(), (-3, -3));
    assert_eq!(Rect::new(-3, -3, 2, 2).center(), (-2, -2));
}

#[test]
fn generated_floor_layout_facts() {
    for _ in 0..20 {
        let map = generate_map();
        assert_eq!(map.width, MAP_WIDTH);
        assert_eq!(map.height, MAP_HEIGHT);
        assert!(map.rooms.len() <= 12);
        for x in 0..MAP_WIDTH {
            assert_eq!(map.tiles[map.idx(x, 0)], TileType::Wall);
        }
        for y in 0..MAP_HEIGHT {
            assert_eq!(map.tiles[map.idx(0, y)], TileType::Wall);
        }
        for i in 0..map.rooms.len() {
            for j in (i + 1)..map.rooms.len() {
                assert!(!map.rooms[i].intersects(&map.rooms[j]));
            }
        }
        let r = map.rooms[0];
        let (cx, cy) = r.center();
        assert_eq!((map.doors[0].x, map.doors[0].y), (cx, r.y2));
        assert_eq!(map.doors[0].facing, iso_dungeon::components::CardinalDir::S);
        assert_eq!(map.props[map.idx(cx + 1, cy)], Some(PropType::ChestClosed));
        assert_eq!(map.chest_items.len(), 1);
        assert!(map.chest_items.contains_key((cx + 1, cy)));
        assert_eq!(map.props.iter().filter(|p| p.is_some()).count(), 1);
    }
}

#[test]
fn stair_tile_types_by_depth() {
    let dungeon = generate_dungeon(4);
    let expected = [TileType::StairsDown, TileType::StairsMid, TileType::StairsMid, TileType::StairsUp];
    for (f, floor) in dungeon.floors.iter().enumerate() {
        assert_eq!(floor.stair_links.len(), 1);
        let &((x, y), node) = &floor.stair_links.entries()[0];
        assert_eq!(floor.tile(x, y), expected[f]);
        let last = floor.rooms[floor.rooms.len() - 1].center();
        assert_eq!((x, y), last);
        assert_eq!(node.up.is_some(), f > 0);
        assert_eq!(node.down.is_some(), f < 3);
    }
}

#[test]
fn pos_map_insert_replaces() {
    let mut m = iso_dungeon::pos_map::PosMap::new();
    assert!(m.is_empty());
    m.insert((1, 2), 10);
    m.insert((3, 4), 20);
    m.insert((1, 2), 30);
    assert_eq!(m.len(), 2);
    assert_eq!(m.get((1, 2)), Some(&30));
    assert_eq!(m.get((3, 4)), Some(&20));
    assert_eq!(m.get((5, 6)), None);
}

#[test]
fn stairs_reachable_from_start_on_every_floor() {
    let d = generate_dungeon(3);
    for m in &d.floors {
        let start = m.rooms[0].center();
        let stair = m.rooms.last().unwrap().center();
        let path = iso_dungeon::pathfind::bfs_path(m, &Vec::new(), start, stair).expect("the stairs can be reached");
        if start != stair {
            assert_eq!(path[0], stair);
        }
    }
}

#[test]
fn door_approachable_from_both_sides() {
    let map = generate_map();
    let start = map.rooms[0].center();
    let door = &map.doors[0];
    let inside = (door.x, door.y - 1);
    let outside = (door.x, door.y + 1);
    assert!(map.is_passable(inside.0, inside.1));
    assert!(map.is_passable(outside.0, outside.1));
    let path = iso_dungeon::pathfind::bfs_path(&map, &Vec::new(), start, outside).expect("reachable through the open door");
    assert_eq!(path[0], outside);
}

#[test]
fn generated_floor_borders_and_one_floor_tiles() {
    let map = generate_map();
    for y in 0..map.height {
        assert_eq!(map.tiles[map.idx(0, y)], TileType::Wall);
        assert_eq!(map.tiles[map.idx(map.width - 1, y)], TileType::Wall);
    }
    for x in 0..map.width {
        assert_eq!(map.tiles[map.idx(x, 0)], TileType::Wall);
    }
    let d = generate_dungeon(1);
    let m = &d.floors[0];
    assert!(m.stair_links.is_empty());
    assert!(m.tiles.iter().all(|t| *t == TileType::Wall || *t == TileType::Floor));
}
