//! Data carried by the drag-and-drop placement front end: ship kinds with
//! their identifiers, an orientation, and the per-ship placement state.
use vstd::prelude::*;

verus! {

/// The five ship kinds as the placement front end refers to them.
#[derive(Clone, Copy, PartialEq, Eq, Hash, Structural, Debug)]
pub enum ShipType {
    PatrolBoat,
    Submarine,
    Destroyer,
    Battleship,
    Carrier,
}

impl ShipType {
    /// A distinct small identifier for each ship kind.
    pub open spec fn spec_id(self) -> u8 {
        match self {
            Self::PatrolBoat => 1,
            Self::Submarine => 2,
            Self::Destroyer => 3,
            Self::Battleship => 4,
            Self::Carrier => 5,
        }
    }

    #[verifier::when_used_as_spec(spec_id)]
    pub fn id(self) -> (r: u8)
        ensures
            r == self.spec_id(),
    {
        match self {
            Self::PatrolBoat => 1,
            Self::Submarine => 2,
            Self::Destroyer => 3,
            Self::Battleship => 4,
            Self::Carrier => 5,
        }
    }

    /// The fixed length of this ship kind, in cells.
    pub open spec fn spec_len(self) -> u8 {
        match self {
            Self::PatrolBoat => 2,
            Self::Submarine | Self::Destroyer => 3,
            Self::Battleship => 4,
            Self::Carrier => 5,
        }
    }

    #[verifier::when_used_as_spec(spec_len)]
    pub fn len(self) -> (r: u8)
        ensures
            r == self.spec_len(),
    {
        match self {
            Self::PatrolBoat => 2,
            Self::Submarine | Self::Destroyer => 3,
            Self::Battleship => 4,
            Self::Carrier => 5,
        }
    }
}

/// The orientation of a ship being placed.
#[derive(Clone, Copy, PartialEq, Eq, Structural, Debug)]
pub enum Dir {
    Vertical,
    Horizontal,
}

/// One draggable ship of the placement front end: where it sits, which way
/// it points, and whether it has been dropped on the grid.
#[derive(Clone, Copy, PartialEq, Eq, Structural, Debug)]
pub struct Ship {
    pub placed: bool,
    pub x: u8,
    pub y: u8,
    pub dir: Dir,
    pub type_: ShipType,
}

/// One cell-sized highlight shown under a ship while it is dragged.
#[derive(Clone, Copy, PartialEq, Eq, Structural, Debug)]
pub struct Overlay {
    pub id: u8,
}

} // verus!
