use vstd::prelude::*;
use crate::components::{DoorState, ItemKind, MapPosition};
use crate::map::FloorMap;

verus! {

/// Slots in the inventory bar.
pub const SLOT_COUNT: usize = 5;

/// The player's carried items, capped at [`SLOT_COUNT`] entries.
pub struct Inventory {
    items: Vec<ItemKind>,
}

/// `a` and `b` are orthogonal neighbours.
pub open spec fn next_to(a: MapPosition, b: MapPosition) -> bool {
    (if a.x >= b.x { a.x - b.x } else { b.x - a.x }) + (if a.y >= b.y { a.y - b.y } else { b.y - a.y }) == 1
}

/// `after` is `before` without the first occurrence of `item`.
pub open spec fn removed_first(before: Seq<ItemKind>, item: ItemKind, after: Seq<ItemKind>) -> bool {
    exists|i: int|
        0 <= i < before.len() && before[i] == item && (forall|j: int| 0 <= j < i ==> before[j] != item)
            && after == before.remove(i)
}

/// Picking up an item the inventory does not hold yet and then removing that
/// item gives back the inventory as it was.
pub proof fn lemma_add_then_remove(before: Seq<ItemKind>, item: ItemKind, after: Seq<ItemKind>)
    requires
        !before.contains(item),
        removed_first(before.push(item), item, after),
    ensures
        after == before,
{
    let s = before.push(item);
    let i = choose|i: int|
        0 <= i < s.len() && s[i] == item && (forall|j: int| 0 <= j < i ==> s[j] != item) && after == s.remove(i);
    if i < before.len() {
        assert(before[i] == item);
    }
    assert(s.remove(i) =~= before);
}

impl Inventory {
    /// The carried items, in the order they were picked up.
    pub closed spec fn contents(&self) -> Seq<ItemKind> {
        self.items@
    }

    pub fn new() -> (inv: Self)
        ensures
            inv.contents() == Seq::<ItemKind>::empty(),
    {
        Inventory { items: Vec::new() }
    }

    /// Adds `item` and returns `true`, or returns `false` if the inventory is full.
    pub fn add(&mut self, item: ItemKind) -> (added: bool)
        ensures
            added == (old(self).contents().len() < SLOT_COUNT),
            added ==> final(self).contents() == old(self).contents().push(item),
            !added ==> final(self).contents() == old(self).contents(),
            old(self).contents().len() <= SLOT_COUNT ==> final(self).contents().len() <= SLOT_COUNT,
    {
        if self.items.len() < SLOT_COUNT {
            self.items.push(item);
            true
        } else {
            false
        }
    }

    pub fn items(&self) -> (s: &[ItemKind])
        ensures
            s@ == self.contents(),
    {
        self.items.as_slice()
    }

    pub fn len(&self) -> (n: usize)
        ensures
            n == self.contents().len(),
    {
        self.items.len()
    }

    /// Removes the first occurrence of `item` and returns `true`, or `false`
    /// if the item was not present.
    pub fn remove(&mut self, item: ItemKind) -> (removed: bool)
        ensures
            removed == old(self).contents().contains(item),
            removed ==> removed_first(old(self).contents(), item, final(self).contents()),
            !removed ==> final(self).contents() == old(self).contents(),
    {
        let mut i: usize = 0;
        while i < self.items.len()
            invariant
                i <= self.items@.len(),
                self.items@ == old(self).contents(),
                forall|j: int| 0 <= j < i ==> self.items@[j] != item,
            decreases self.items@.len() - i,
        {
            if self.items[i] == item {
                self.items.remove(i);
                return true;
            }
            i = i + 1;
        }
        false
    }

    /// Label of inventory slot `i`: the item's display name, or empty.
    pub fn slot_label(&self, i: usize) -> (s: &'static str)
        ensures
            i < self.contents().len() ==> s@ == self.contents()[i as int].spec_display_name(),
            i >= self.contents().len() ==> s@ == Seq::<char>::empty(),
    {
        if i < self.items.len() {
            self.items[i].display_name()
        } else {
            proof {
                reveal_strlit("");
            }
            ""
        }
    }

    /// The player at `pos` opens a chest: unless standing on a stair, the
    /// first chest in `chests` that is orthogonally adjacent and whose item
    /// fits in the inventory is opened, its item added.  Returns that
    /// chest's index.
    pub fn open_adjacent_chest(
        &mut self,
        map: &FloorMap,
        pos: MapPosition,
        chests: &Vec<(MapPosition, ItemKind)>,
    ) -> (opened: Option<usize>)
        requires
            map.wf(),
            map.in_bounds_spec(pos.x as int, pos.y as int),
        ensures
            map.tile_at(pos.x as int, pos.y as int).stair() || old(self).contents().len() >= SLOT_COUNT
                ==> opened is None && final(self).contents() == old(self).contents(),
            !map.tile_at(pos.x as int, pos.y as int).stair() && old(self).contents().len() < SLOT_COUNT
                ==> match opened {
                Some(i) => {
                    &&& i < chests@.len()
                    &&& next_to(chests@[i as int].0, pos)
                    &&& forall|j: int| 0 <= j < i ==> !next_to(#[trigger] chests@[j].0, pos)
                    &&& final(self).contents() == old(self).contents().push(chests@[i as int].1)
                },
                None => {
                    &&& forall|j: int| 0 <= j < chests@.len() ==> !next_to(#[trigger] chests@[j].0, pos)
                    &&& final(self).contents() == old(self).contents()
                },
            },
    {
        if map.tile(pos.x, pos.y).is_stair() {
            return None;
        }
        let mut i: usize = 0;
        while i < chests.len()
            invariant
                i <= chests@.len(),
                self.contents() == old(self).contents(),
                !map.tile_at(pos.x as int, pos.y as int).stair(),
                forall|j: int| 0 <= j < i ==> !next_to(#[trigger] chests@[j].0, pos)
                    || old(self).contents().len() >= SLOT_COUNT,
            decreases chests@.len() - i,
        {
            let (chest_pos, item) = chests[i];
            let dx: i64 = if chest_pos.x >= pos.x { chest_pos.x as i64 - pos.x as i64 } else { pos.x as i64 - chest_pos.x as i64 };
            let dy: i64 = if chest_pos.y >= pos.y { chest_pos.y as i64 - pos.y as i64 } else { pos.y as i64 - chest_pos.y as i64 };
            if dx + dy == 1 && self.add(item) {
                return Some(i);
            }
            i = i + 1;
        }
        None
    }

    /// Uses `item` on a door: a key unlocks a locked door, leaving it closed,
    /// and is used up; on any other door it does nothing.
    pub fn use_item_on_door(&mut self, item: ItemKind, door: &mut DoorState)
        ensures
            *old(door) == DoorState::Locked ==> {
                &&& *final(door) == DoorState::Closed
                &&& old(self).contents().contains(item) ==> removed_first(old(self).contents(), item, final(self).contents())
                &&& !old(self).contents().contains(item) ==> final(self).contents() == old(self).contents()
            },
            *old(door) != DoorState::Locked ==> *final(door) == *old(door) && final(self).contents()
                == old(self).contents(),
    {
        match item {
            ItemKind::Key => {
                if *door == DoorState::Locked {
                    *door = DoorState::Closed;
                    self.remove(item);
                }
            },
        }
    }
}

/// The player used an inventory item on a world tile.
#[derive(Clone, Copy, PartialEq, Eq, Debug)]
pub struct UseItemEvent {
    pub item: ItemKind,
    pub target: (i32, i32),
}

/// Which inventory slot (if any) the player has selected to use on the
/// next world click.
pub struct SelectedSlot(pub Option<usize>);

impl SelectedSlot {
    /// Clicking slot `i` selects it, or deselects it if it was selected;
    /// only slots that hold an item can be selected.
    pub fn click_slot(&mut self, i: usize, inventory: &Inventory)
        ensures
            i < inventory.contents().len() ==> final(self).0 == (if old(self).0 == Some(i) {
                None
            } else {
                Some(i)
            }),
            i >= inventory.contents().len() ==> final(self).0 == old(self).0,
    {
        if i < inventory.len() {
            self.0 = match self.0 {
                Some(j) => if j == i { None } else { Some(i) },
                None => Some(i),
            };
        }
    }

    /// Escape or right-click cancels the selection.
    pub fn cancel(&mut self)
        ensures
            final(self).0 is None,
    {
        if self.0.is_some() {
            self.0 = None;
        }
    }

    /// On a world click: if the selected slot still holds an item, that item
    /// is to be used on the clicked tile.  The selection is cleared either way.
    pub fn take_selected(&mut self, inventory: &Inventory) -> (item: Option<ItemKind>)
        ensures
            final(self).0 is None,
            item == (match old(self).0 {
                Some(i) => if i < inventory.contents().len() {
                    Some(inventory.contents()[i as int])
                } else {
                    None
                },
                None => None,
            }),
    {
        match self.0 {
            Some(i) => {
                self.0 = None;
                if i < inventory.len() {
                    Some(inventory.items()[i])
                } else {
                    None
                }
            },
            None => None,
        }
    }
}

} // verus!
