use iso_dungeon::components::{DoorState, ItemKind, MapPosition};
use iso_dungeon::inventory::{Inventory, SelectedSlot, SLOT_COUNT};
use iso_dungeon::mapgen::generate_map;

#[test]
fn add_until_full() {
    let mut inv = Inventory::new();
    for _ in 0..SLOT_COUNT {
        assert!(inv.add(ItemKind::Key));
    }
    assert!(!inv.add(ItemKind::Key), "a full inventory refuses items");
    assert_eq!(inv.items().len(), SLOT_COUNT);
}

#[test]
fn remove_first_occurrence_only() {
    let mut inv = Inventory::new();
    inv.add(ItemKind::Key);
    inv.add(ItemKind::Key);
    assert!(inv.remove(ItemKind::Key));
    assert_eq!(inv.len(), 1);
    assert!(inv.remove(ItemKind::Key));
    assert!(!inv.remove(ItemKind::Key), "nothing left to remove");
}

#[test]
fn slot_labels() {
    let mut inv = Inventory::new();
    inv.add(ItemKind::Key);
    assert_eq!(inv.slot_label(0), "Key");
    assert_eq!(inv.slot_label(1), "");
}

#[test]
fn selecting_slots_toggles_and_take_clears() {
    let mut inv = Inventory::new();
    inv.add(ItemKind::Key);
    let mut sel = SelectedSlot(None);
    sel.click_slot(3, &inv);
    assert_eq!(sel.0, None, "empty slots cannot be selected");
    sel.click_slot(0, &inv);
    assert_eq!(sel.0, Some(0));
    sel.click_slot(0, &inv);
    assert_eq!(sel.0, None, "clicking again deselects");
    sel.click_slot(0, &inv);
    assert_eq!(sel.take_selected(&inv), Some(ItemKind::Key));
    assert_eq!(sel.0, None);
    sel.0 = Some(4);
    assert_eq!(sel.take_selected(&inv), None, "stale selections are dropped");
    sel.0 = Some(0);
    sel.cancel();
    assert_eq!(sel.0, None);
}

#[test]
fn key_unlocks_locked_door_and_is_used_up() {
    let mut inv = Inventory::new();
    inv.add(ItemKind::Key);
    let mut door = DoorState::Locked;
    inv.use_item_on_door(ItemKind::Key, &mut door);
    assert_eq!(door, DoorState::Closed);
    assert_eq!(inv.len(), 0);
    let mut open = DoorState::Open;
    inv.add(ItemKind::Key);
    inv.use_item_on_door(ItemKind::Key, &mut open);
    assert_eq!(open, DoorState::Open);
    assert_eq!(inv.len(), 1, "a key is only used up on a locked door");
}

#[test]
fn opening_the_generated_chest() {
    let map = generate_map();
    let (cx, cy) = map.rooms[0].center();
    let chest = MapPosition::new(cx + 1, cy);
    let chests = vec![(MapPosition::new(0, 0), ItemKind::Key), (chest, ItemKind::Key)];
    let mut inv = Inventory::new();
    assert_eq!(inv.open_adjacent_chest(&map, MapPosition::new(cx, cy), &chests), Some(1));
    assert_eq!(inv.len(), 1);
    assert_eq!(inv.open_adjacent_chest(&map, MapPosition::new(cx - 1, cy), &chests), None);
}

#[test]
fn add_then_remove_restores_inventory() {
    let mut inv = Inventory::new();
    assert!(inv.add(ItemKind::Key));
    assert_eq!(inv.items(), &[ItemKind::Key]);
    assert!(inv.remove(ItemKind::Key));
    assert!(inv.items().is_empty());
    assert!(!inv.remove(ItemKind::Key));
    assert!(inv.items().is_empty());
}
