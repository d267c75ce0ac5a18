use vstd::prelude::*;

verus! {

/// Isometric wall-face direction, matching the asset naming convention
/// (`_N`, `_E`, `_S`, `_W` suffixes).
#[derive(Clone, Copy, PartialEq, Eq, Debug, Structural)]
pub enum CardinalDir {
    N,
    E,
    S,
    W,
}

impl CardinalDir {
    /// The asset suffix that names this direction.
    pub open spec fn name(self) -> Seq<char> {
        match self {
            CardinalDir::N => "N"@,
            CardinalDir::E => "E"@,
            CardinalDir::S => "S"@,
            CardinalDir::W => "W"@,
        }
    }

    pub fn as_str(self) -> (s: &'static str)
        ensures
            s@ == self.name(),
    {
        match self {
            CardinalDir::N => "N",
            CardinalDir::E => "E",
            CardinalDir::S => "S",
            CardinalDir::W => "W",
        }
    }
}

/// Discrete tile-grid position.
#[derive(Clone, Copy, PartialEq, Eq, Debug, Structural)]
pub struct MapPosition {
    pub x: i32,
    pub y: i32,
}

impl MapPosition {
    pub fn new(x: i32, y: i32) -> (p: Self)
        ensures
            p.x == x,
            p.y == y,
    {
        Self { x, y }
    }

    /// Isometric projection in units of the grid step:
    /// `(col - row, -(col + row))`.  Multiplying the first component by the
    /// horizontal step and the second by the vertical step gives world space.
    pub fn iso_units(self) -> (u: (i64, i64))
        ensures
            u.0 == self.x - self.y,
            u.1 == -(self.x + self.y),
    {
        (self.x as i64 - self.y as i64, -(self.x as i64 + self.y as i64))
    }
}

/// Open / closed / locked state of an interactive door.
#[derive(Clone, Copy, PartialEq, Eq, Debug, Structural)]
pub enum DoorState {
    Closed,
    Open,
    Locked,
}

/// An interactive door: its state and which face of the door sprite is shown.
#[derive(Clone, Copy, PartialEq, Eq, Debug, Structural)]
pub struct Door {
    pub state: DoorState,
    /// Which face of the door sprite is shown (matches asset suffix convention).
    pub facing: CardinalDir,
}

impl Door {
    /// A door that starts open or closed (never locked).
    pub fn new(open: bool, facing: CardinalDir) -> (d: Self)
        ensures
            d.facing == facing,
            d.state == (if open { DoorState::Open } else { DoorState::Closed }),
    {
        Door { state: if open { DoorState::Open } else { DoorState::Closed }, facing }
    }

    /// Only an open door lets the player through.
    pub fn is_passable(&self) -> (b: bool)
        ensures
            b == (self.state == DoorState::Open),
    {
        self.state == DoorState::Open
    }
}

/// Kinds of item the player can carry.
#[derive(Clone, Copy, PartialEq, Eq, Debug, Structural)]
pub enum ItemKind {
    Key,
}

impl ItemKind {
    pub open spec fn spec_display_name(self) -> Seq<char> {
        match self {
            ItemKind::Key => "Key"@,
        }
    }

    /// Label shown in the inventory HUD.
    pub fn display_name(self) -> (s: &'static str)
        ensures
            s@ == self.spec_display_name(),
    {
        match self {
            ItemKind::Key => "Key",
        }
    }
}

/// Which character sprite set drives the player animation.
#[derive(Clone, Copy, PartialEq, Eq, Debug, Structural)]
pub enum CharacterKind {
    Male,
    Female,
}

/// What a closed chest holds, and the facing of its open-chest sprite.
#[derive(Clone, Copy, PartialEq, Eq, Debug, Structural)]
pub struct ChestContents {
    pub item: ItemKind,
    pub facing: CardinalDir,
}

} // verus!
