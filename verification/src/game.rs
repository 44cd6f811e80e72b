//! Core rules: the grid of slots, ship placement, shot application and the
//! turn-resolution state machine.
use vstd::prelude::*;

verus! {

/// The five ship kinds of the fleet, each with a fixed length.
#[derive(Clone, Copy, PartialEq, Eq, Hash, Structural, Debug)]
pub enum Ship {
    PatrolBoat,
    Submarine,
    Destroyer,
    Battleship,
    Carrier,
}

impl Ship {
    /// The fixed length of this ship kind, in cells.
    pub open spec fn spec_len(self) -> usize {
        match self {
            Self::PatrolBoat => 2,
            Self::Submarine | Self::Destroyer => 3,
            Self::Battleship => 4,
            Self::Carrier => 5,
        }
    }

    #[verifier::when_used_as_spec(spec_len)]
    pub fn len(self) -> (r: usize)
        ensures
            r == self.spec_len(),
    {
        match self {
            Self::PatrolBoat => 2,
            Self::Submarine | Self::Destroyer => 3,
            Self::Battleship => 4,
            Self::Carrier => 5,
        }
    }

    /// The display symbol of this ship kind.
    pub open spec fn spec_char(self) -> char {
        match self {
            Self::PatrolBoat => 'P',
            Self::Submarine => 'S',
            Self::Destroyer => 'D',
            Self::Battleship => 'B',
            Self::Carrier => 'C',
        }
    }

    #[verifier::when_used_as_spec(spec_char)]
    pub fn char(self) -> (r: char)
        ensures
            r == self.spec_char(),
    {
        match self {
            Self::PatrolBoat => 'P',
            Self::Submarine => 'S',
            Self::Destroyer => 'D',
            Self::Battleship => 'B',
            Self::Carrier => 'C',
        }
    }

    /// Which ship kind a one-letter symbol denotes, if any.
    pub open spec fn spec_try_from(s: Seq<char>) -> Result<Ship, ()> {
        if s =~= seq!['P'] {
            Ok(Ship::PatrolBoat)
        } else if s =~= seq!['S'] {
            Ok(Ship::Submarine)
        } else if s =~= seq!['D'] {
            Ok(Ship::Destroyer)
        } else if s =~= seq!['B'] {
            Ok(Ship::Battleship)
        } else if s =~= seq!['C'] {
            Ok(Ship::Carrier)
        } else {
            Err(())
        }
    }

    /// Parses a ship kind from its one-letter symbol.
    pub fn try_from(value: &str) -> (r: Result<Ship, ()>)
        ensures
            r == Self::spec_try_from(value@),
    {
        if value.unicode_len() != 1 {
            return Err(());
        }
        let c = value.get_char(0);
        proof {
            assert(value@ =~= seq![value@[0]]);
        }
        if c == 'P' {
            Ok(Ship::PatrolBoat)
        } else if c == 'S' {
            Ok(Ship::Submarine)
        } else if c == 'D' {
            Ok(Ship::Destroyer)
        } else if c == 'B' {
            Ok(Ship::Battleship)
        } else if c == 'C' {
            Ok(Ship::Carrier)
        } else {
            Err(())
        }
    }
}

/// One grid cell: empty, empty and shot, holding a ship, or holding a hit
/// ship. A cell only ever moves from `Empty` to `EmptyShot`, from `Empty`
/// to `Ship`, and from `Ship` to `Hit`.
#[derive(Clone, Copy, PartialEq, Eq, Structural, Debug)]
pub enum Slot {
    Empty,
    EmptyShot,
    Ship(Ship),
    Hit(Ship),
}

impl Slot {
    /// The display symbol of this cell, as seen by its owner
    /// (`same_player`) or by the opponent, who must not learn where unshot
    /// ships lie.
    pub open spec fn spec_char(self, same_player: bool) -> char {
        match self {
            Self::Empty => '_',
            Self::EmptyShot => '#',
            Self::Ship(ship) => if same_player {
                ship.spec_char()
            } else {
                '_'
            },
            Self::Hit(_) => 'X',
        }
    }

    #[verifier::when_used_as_spec(spec_char)]
    pub fn char(self, same_player: bool) -> (r: char)
        ensures
            r == self.spec_char(same_player),
    {
        match (same_player, self) {
            (_, Self::Empty) | (false, Self::Ship(_)) => '_',
            (_, Self::EmptyShot) => '#',
            (true, Self::Ship(ship)) => ship.char(),
            (_, Self::Hit(_)) => 'X',
        }
    }
}

/// The game phase: placing ships, then playing. The transition is one-way.
pub enum State {
    Placing,
    Playing,
}

pub const WIDTH: usize = 21;
pub const HEIGHT: usize = 6;

pub open spec fn in_bounds(x: int, y: int) -> bool {
    0 <= x < WIDTH && 0 <= y < HEIGHT
}

/// Row-major index of the cell at column `x`, row `y`.
pub open spec fn sidx(x: int, y: int) -> int {
    y * (WIDTH as int) + x
}

pub open spec fn cell(b: Seq<Slot>, x: int, y: int) -> Slot {
    b[sidx(x, y)]
}

pub open spec fn board_wf(b: Seq<Slot>) -> bool {
    b.len() == WIDTH * HEIGHT
}

/// Whether `(x, y)` lies on the axis-aligned segment with inclusive
/// endpoints `(x1, y1)` and `(x2, y2)`, in either endpoint order.
pub open spec fn seg_contains(x1: int, y1: int, x2: int, y2: int, x: int, y: int) -> bool {
    &&& (x1 <= x <= x2 || x2 <= x <= x1)
    &&& (y1 <= y <= y2 || y2 <= y <= y1)
}

/// The distance between two coordinates on one axis.
pub open spec fn span(a: int, b: int) -> int {
    if a <= b {
        b - a
    } else {
        a - b
    }
}

/// Legal geometry for placing `ship` between the two endpoints: in
/// bounds, axis-aligned (not diagonal, not a single point), and spanning
/// exactly the ship's length.
pub open spec fn seg_ok(ship: Ship, x1: int, y1: int, x2: int, y2: int) -> bool {
    &&& in_bounds(x1, y1)
    &&& in_bounds(x2, y2)
    &&& (x1 == x2) != (y1 == y2)
    &&& span(x1, x2) + span(y1, y2) == ship.spec_len() - 1
}

/// A placement is accepted iff its geometry is legal and every footprint
/// cell is empty or already holds the same ship kind (so a ship may be
/// re-placed without colliding with itself).
pub open spec fn placement_ok(b: Seq<Slot>, ship: Ship, x1: int, y1: int, x2: int, y2: int) -> bool {
    &&& seg_ok(ship, x1, y1, x2, y2)
    &&& forall|x: int, y: int|
        in_bounds(x, y) && #[trigger] seg_contains(x1, y1, x2, y2, x, y) ==> cell(b, x, y)
            == Slot::Empty || cell(b, x, y) == Slot::Ship(ship)
}

/// The value of the cell at `(x, y)` after a successful placement: the new
/// footprint holds the ship, the ship's old cells are cleared, and every
/// other cell keeps its value.
pub open spec fn placed_cell(
    b: Seq<Slot>,
    ship: Ship,
    x1: int,
    y1: int,
    x2: int,
    y2: int,
    x: int,
    y: int,
) -> Slot {
    if seg_contains(x1, y1, x2, y2, x, y) {
        Slot::Ship(ship)
    } else if cell(b, x, y) == Slot::Ship(ship) {
        Slot::Empty
    } else {
        cell(b, x, y)
    }
}

spec fn clear_cell(s: Slot, ship: Ship) -> Slot {
    if s == Slot::Ship(ship) {
        Slot::Empty
    } else {
        s
    }
}

/// One side's grid of cells, stored row-major.
pub struct Board {
    cells: Vec<Slot>,
}

impl View for Board {
    type V = Seq<Slot>;

    closed spec fn view(&self) -> Seq<Slot> {
        self.cells@
    }
}

impl Board {
    pub open spec fn wf(self) -> bool {
        board_wf(self@)
    }

    /// A board with every cell empty.
    pub fn new() -> (b: Board)
        ensures
            b.wf(),
            forall|i: int| 0 <= i < b@.len() ==> b@[i] == Slot::Empty,
    {
        let mut cells: Vec<Slot> = Vec::new();
        let mut i: usize = 0;
        while i < WIDTH * HEIGHT
            invariant
                i <= WIDTH * HEIGHT,
                cells@.len() == i,
                forall|j: int| 0 <= j < i ==> cells@[j] == Slot::Empty,
            decreases WIDTH * HEIGHT - i,
        {
            cells.push(Slot::Empty);
            i = i + 1;
        }
        Board { cells }
    }

    /// Resets every cell to empty.
    fn clear(&mut self)
        requires
            old(self).wf(),
        ensures
            final(self).wf(),
            forall|i: int| 0 <= i < final(self)@.len() ==> final(self)@[i] == Slot::Empty,
    {
        let n = self.cells.len();
        let mut i: usize = 0;
        while i < n
            invariant
                i <= n,
                self.cells@.len() == n,
                forall|j: int| 0 <= j < i ==> self.cells@[j] == Slot::Empty,
                forall|j: int| i <= j < n ==> self.cells@[j] == old(self).cells@[j],
            decreases n - i,
        {
            self.cells[i] = Slot::Empty;
            i = i + 1;
        }
    }

    /// The cell at column `x`, row `y`.
    pub fn at(&self, x: usize, y: usize) -> (r: Slot)
        requires
            self.wf(),
            x < WIDTH,
            y < HEIGHT,
        ensures
            r == cell(self@, x as int, y as int),
    {
        self.cells[y * WIDTH + x]
    }
}

/// True iff no cell of the board still holds an unhit ship.
pub open spec fn all_hit_spec(b: Seq<Slot>) -> bool {
    forall|i: int| 0 <= i < b.len() ==> !(#[trigger] b[i] is Ship)
}

/// True iff the board still has a cell that has not been shot.
pub open spec fn has_unshot(b: Seq<Slot>) -> bool {
    exists|i: int| 0 <= i < b.len() && unshot(#[trigger] b[i])
}

/// A cell that has not been shot yet.
pub open spec fn unshot(s: Slot) -> bool {
    s is Empty || s is Ship
}

/// The cell after a shot lands on it: misses are recorded on empty cells,
/// ships become hits; already-shot cells never take a shot.
pub open spec fn shot_cell(s: Slot) -> Slot {
    match s {
        Slot::Empty => Slot::EmptyShot,
        Slot::Ship(k) => Slot::Hit(k),
        other => other,
    }
}

/// The board after a shot lands on the cell with row-major index `i`.
pub open spec fn shot_board(b: Seq<Slot>, i: int) -> Seq<Slot> {
    b.update(i, shot_cell(b[i]))
}

/// Whether every ship cell of the board has been hit, so that no unhit
/// ship part remains; a board with no ships at all counts as fully hit.
pub fn all_hit(board: &Board) -> (r: bool)
    ensures
        r == all_hit_spec(board@),
{
    let n = board.cells.len();
    let mut i: usize = 0;
    while i < n
        invariant
            i <= n,
            n == board@.len(),
            forall|j: int| 0 <= j < i ==> !(#[trigger] board@[j] is Ship),
        decreases n - i,
    {
        if matches!(board.cells[i], Slot::Ship(_)) {
            return false;
        }
        i = i + 1;
    }
    true
}

/// The cells holding `ship` are exactly one legal segment: the board holds
/// this ship once, whole, contiguous and axis-aligned.
pub open spec fn footprint_exact(
    b: Seq<Slot>,
    ship: Ship,
    x1: int,
    y1: int,
    x2: int,
    y2: int,
) -> bool {
    &&& seg_ok(ship, x1, y1, x2, y2)
    &&& forall|x: int, y: int|
        in_bounds(x, y) ==> (#[trigger] cell(b, x, y) == Slot::Ship(ship) <==> seg_contains(
            x1,
            y1,
            x2,
            y2,
            x,
            y,
        ))
}

/// The ship lies whole somewhere on the board, and nowhere else.
pub open spec fn ship_well_placed(b: Seq<Slot>, ship: Ship) -> bool {
    exists|x1: int, y1: int, x2: int, y2: int| footprint_exact(b, ship, x1, y1, x2, y2)
}

/// No cell of the board has been shot yet.
pub open spec fn no_shots(b: Seq<Slot>) -> bool {
    forall|x: int, y: int| in_bounds(x, y) ==> unshot(#[trigger] cell(b, x, y))
}

/// A successful placement leaves the placed ship's cells being exactly the
/// requested segment: the new footprint is written and no cell of the same
/// kind survives anywhere else, so re-placing a ship moves it rather than
/// duplicating it.
pub proof fn lemma_place_footprint(
    b: Seq<Slot>,
    b2: Seq<Slot>,
    ship: Ship,
    x1: int,
    y1: int,
    x2: int,
    y2: int,
)
    requires
        board_wf(b),
        board_wf(b2),
        placement_ok(b, ship, x1, y1, x2, y2),
        forall|x: int, y: int|
            in_bounds(x, y) ==> #[trigger] cell(b2, x, y) == placed_cell(
                b,
                ship,
                x1,
                y1,
                x2,
                y2,
                x,
                y,
            ),
    ensures
        footprint_exact(b2, ship, x1, y1, x2, y2),
        ship_well_placed(b2, ship),
{
    assert(footprint_exact(b2, ship, x1, y1, x2, y2));
}

/// Placing one ship never moves or removes a different ship: the other
/// kind's cells are exactly where they were.
pub proof fn lemma_place_preserves_other(
    b: Seq<Slot>,
    b2: Seq<Slot>,
    ship: Ship,
    x1: int,
    y1: int,
    x2: int,
    y2: int,
    k: Ship,
)
    requires
        board_wf(b),
        board_wf(b2),
        placement_ok(b, ship, x1, y1, x2, y2),
        forall|x: int, y: int|
            in_bounds(x, y) ==> #[trigger] cell(b2, x, y) == placed_cell(
                b,
                ship,
                x1,
                y1,
                x2,
                y2,
                x,
                y,
            ),
        k != ship,
    ensures
        forall|x: int, y: int|
            in_bounds(x, y) ==> ((#[trigger] cell(b2, x, y) == Slot::Ship(k)) <==> cell(b, x, y)
                == Slot::Ship(k)),
        ship_well_placed(b, k) ==> ship_well_placed(b2, k),
{
    assert forall|x: int, y: int| in_bounds(x, y) implies ((#[trigger] cell(b2, x, y)
        == Slot::Ship(k)) <==> cell(b, x, y) == Slot::Ship(k)) by {
        if seg_contains(x1, y1, x2, y2, x, y) {
            assert(cell(b, x, y) == Slot::Empty || cell(b, x, y) == Slot::Ship(ship));
        }
    }
    if ship_well_placed(b, k) {
        let (a1, c1, a2, c2) = choose|a1: int, c1: int, a2: int, c2: int|
            footprint_exact(b, k, a1, c1, a2, c2);
        assert(footprint_exact(b2, k, a1, c1, a2, c2));
    }
}

/// Placement writes ship cells and clears cells; it never shoots one, so a
/// board without shots stays without shots.
pub proof fn lemma_place_no_shots(
    b: Seq<Slot>,
    b2: Seq<Slot>,
    ship: Ship,
    x1: int,
    y1: int,
    x2: int,
    y2: int,
)
    requires
        board_wf(b),
        board_wf(b2),
        forall|x: int, y: int|
            in_bounds(x, y) ==> #[trigger] cell(b2, x, y) == placed_cell(
                b,
                ship,
                x1,
                y1,
                x2,
                y2,
                x,
                y,
            ),
        no_shots(b),
    ensures
        no_shots(b2),
{
}

/// The set of board positions holding `ship` unhit.
pub open spec fn ship_cells(b: Seq<Slot>, ship: Ship) -> Set<(int, int)> {
    Set::new(|p: (int, int)| in_bounds(p.0, p.1) && cell(b, p.0, p.1) == Slot::Ship(ship))
}

proof fn lemma_hseg_card(xl: int, xh: int, yy: int)
    requires
        xl <= xh,
    ensures
        Set::new(|p: (int, int)| xl <= p.0 <= xh && p.1 == yy).finite(),
        Set::new(|p: (int, int)| xl <= p.0 <= xh && p.1 == yy).len() == xh - xl + 1,
    decreases xh - xl,
{
    let s = Set::new(|p: (int, int)| xl <= p.0 <= xh && p.1 == yy);
    if xl == xh {
        assert(s =~= Set::empty().insert((xl, yy)));
    } else {
        let s0 = Set::new(|p: (int, int)| xl <= p.0 <= xh - 1 && p.1 == yy);
        lemma_hseg_card(xl, xh - 1, yy);
        assert(s =~= s0.insert((xh, yy)));
        assert(!s0.contains((xh, yy)));
    }
}

proof fn lemma_vseg_card(xx: int, yl: int, yh: int)
    requires
        yl <= yh,
    ensures
        Set::new(|p: (int, int)| p.0 == xx && yl <= p.1 <= yh).finite(),
        Set::new(|p: (int, int)| p.0 == xx && yl <= p.1 <= yh).len() == yh - yl + 1,
    decreases yh - yl,
{
    let s = Set::new(|p: (int, int)| p.0 == xx && yl <= p.1 <= yh);
    if yl == yh {
        assert(s =~= Set::empty().insert((xx, yl)));
    } else {
        let s0 = Set::new(|p: (int, int)| p.0 == xx && yl <= p.1 <= yh - 1);
        lemma_vseg_card(xx, yl, yh - 1);
        assert(s =~= s0.insert((xx, yh)));
        assert(!s0.contains((xx, yh)));
    }
}

/// On a board where a ship's cells are exactly one legal segment, the
/// number of cells holding that ship unhit equals the ship kind's fixed
/// length, and they are collinear and contiguous (they fill the segment).
pub proof fn lemma_ship_cell_count(b: Seq<Slot>, ship: Ship, x1: int, y1: int, x2: int, y2: int)
    requires
        footprint_exact(b, ship, x1, y1, x2, y2),
    ensures
        ship_cells(b, ship).finite(),
        ship_cells(b, ship).len() == ship.spec_len(),
{
    if y1 == y2 {
        let xl = if x1 <= x2 {
            x1
        } else {
            x2
        };
        let xh = if x1 <= x2 {
            x2
        } else {
            x1
        };
        lemma_hseg_card(xl, xh, y1);
        assert(ship_cells(b, ship) =~= Set::new(|p: (int, int)| xl <= p.0 <= xh && p.1 == y1));
    } else {
        let yl = if y1 <= y2 {
            y1
        } else {
            y2
        };
        let yh = if y1 <= y2 {
            y2
        } else {
            y1
        };
        lemma_vseg_card(x1, yl, yh);
        assert(ship_cells(b, ship) =~= Set::new(|p: (int, int)| p.0 == x1 && yl <= p.1 <= yh));
    }
}

/// A placement whose endpoints are out of bounds or diagonal, or whose
/// span differs from the ship's length, is never accepted, whatever the
/// board holds.
pub proof fn lemma_bad_geometry_rejected(
    b: Seq<Slot>,
    ship: Ship,
    x1: int,
    y1: int,
    x2: int,
    y2: int,
)
    requires
        !seg_ok(ship, x1, y1, x2, y2),
    ensures
        !placement_ok(b, ship, x1, y1, x2, y2),
{
}

/// Placing a ship over a cell held by a different ship always fails.
pub proof fn lemma_overlap_rejected(
    b: Seq<Slot>,
    ship: Ship,
    x1: int,
    y1: int,
    x2: int,
    y2: int,
    k: Ship,
    x: int,
    y: int,
)
    requires
        k != ship,
        in_bounds(x, y),
        seg_contains(x1, y1, x2, y2, x, y),
        cell(b, x, y) == Slot::Ship(k),
    ensures
        !placement_ok(b, ship, x1, y1, x2, y2),
{
}

/// A fleet is sunk exactly when no cell holding an unhit ship remains.
pub proof fn lemma_all_hit_iff(b: Seq<Slot>)
    ensures
        all_hit_spec(b) <==> !(exists|i: int| 0 <= i < b.len() && (#[trigger] b[i]) is Ship),
{
}

/// Two well-placed ships of different kinds never share a cell: any point
/// of the one's segment lies outside the other's.
pub proof fn lemma_ships_disjoint(
    b: Seq<Slot>,
    k1: Ship,
    a1: int,
    c1: int,
    a2: int,
    c2: int,
    k2: Ship,
    d1: int,
    e1: int,
    d2: int,
    e2: int,
    x: int,
    y: int,
)
    requires
        footprint_exact(b, k1, a1, c1, a2, c2),
        footprint_exact(b, k2, d1, e1, d2, e2),
        k1 != k2,
        in_bounds(x, y),
        seg_contains(a1, c1, a2, c2, x, y),
    ensures
        !seg_contains(d1, e1, d2, e2, x, y),
{
    assert(cell(b, x, y) == Slot::Ship(k1));
}

/// The fleet ledger: which ship kinds the hosting layer has confirmed
/// placed. It gates the move from the placing phase to the playing phase.
pub struct Ledger {
    pub patrol_boat: bool,
    pub submarine: bool,
    pub destroyer: bool,
    pub battleship: bool,
    pub carrier: bool,
}

impl Ledger {
    /// Whether this ship kind is recorded as placed.
    pub open spec fn placed(self, ship: Ship) -> bool {
        match ship {
            Ship::PatrolBoat => self.patrol_boat,
            Ship::Submarine => self.submarine,
            Ship::Destroyer => self.destroyer,
            Ship::Battleship => self.battleship,
            Ship::Carrier => self.carrier,
        }
    }

    /// A ledger with no ship placed yet.
    pub fn new() -> (l: Ledger)
        ensures
            forall|k: Ship| !l.placed(k),
    {
        Ledger {
            patrol_boat: false,
            submarine: false,
            destroyer: false,
            battleship: false,
            carrier: false,
        }
    }

    /// Records one ship kind as placed.
    pub fn mark(&mut self, ship: Ship)
        ensures
            final(self).placed(ship),
            forall|k: Ship| k != ship ==> final(self).placed(k) == old(self).placed(k),
    {
        match ship {
            Ship::PatrolBoat => self.patrol_boat = true,
            Ship::Submarine => self.submarine = true,
            Ship::Destroyer => self.destroyer = true,
            Ship::Battleship => self.battleship = true,
            Ship::Carrier => self.carrier = true,
        }
    }

    /// Whether one ship kind is recorded as placed.
    pub fn is_placed(&self, ship: Ship) -> (r: bool)
        ensures
            r == self.placed(ship),
    {
        match ship {
            Ship::PatrolBoat => self.patrol_boat,
            Ship::Submarine => self.submarine,
            Ship::Destroyer => self.destroyer,
            Ship::Battleship => self.battleship,
            Ship::Carrier => self.carrier,
        }
    }

    /// Whether the whole fleet is recorded as placed.
    pub fn all_placed(&self) -> (r: bool)
        ensures
            r == forall|k: Ship| self.placed(k),
    {
        let r = self.patrol_boat && self.submarine && self.destroyer && self.battleship
            && self.carrier;
        proof {
            if !r {
                if !self.patrol_boat {
                    assert(!self.placed(Ship::PatrolBoat));
                } else if !self.submarine {
                    assert(!self.placed(Ship::Submarine));
                } else if !self.destroyer {
                    assert(!self.placed(Ship::Destroyer));
                } else if !self.battleship {
                    assert(!self.placed(Ship::Battleship));
                } else {
                    assert(!self.placed(Ship::Carrier));
                }
            }
        }
        r
    }
}

/// A whole match: the player's board, the opponent's board, and the phase.
pub struct Game {
    player: Board,
    bot: Board,
    state: State,
}

/// The outcome of one shot request: rejected, game goes on, or one side's
/// fleet is fully sunk.
#[derive(Clone, Copy, PartialEq, Eq, Structural, Debug)]
pub enum End {
    Error,
    Continue,
    Win,
    Lose,
}

impl Game {
    pub closed spec fn wf(self) -> bool {
        self.player.wf() && self.bot.wf()
    }

    pub closed spec fn player_view(self) -> Seq<Slot> {
        self.player@
    }

    pub closed spec fn bot_view(self) -> Seq<Slot> {
        self.bot@
    }

    pub closed spec fn placing(self) -> bool {
        self.state is Placing
    }

    /// A fresh match: both boards empty with the fixed grid dimensions,
    /// in the placing phase.
    pub fn new() -> (g: Game)
        ensures
            g.wf(),
            g.placing(),
            g.player_view().len() == WIDTH * HEIGHT,
            g.bot_view().len() == WIDTH * HEIGHT,
            forall|i: int| 0 <= i < g.player_view().len() ==> g.player_view()[i] == Slot::Empty,
            forall|i: int| 0 <= i < g.bot_view().len() ==> g.bot_view()[i] == Slot::Empty,
    {
        Game { player: Board::new(), bot: Board::new(), state: State::Placing }
    }

    /// A well-formed game's two boards always have the fixed grid
    /// dimensions; this lets callers outside this module reason about
    /// cells of the views.
    pub proof fn lemma_wf_board_dims(g: Game)
        requires
            g.wf(),
        ensures
            board_wf(g.player_view()),
            board_wf(g.bot_view()),
    {
    }

    /// Places `ship` on the player's board with inclusive endpoints
    /// `(x1, y1)` and `(x2, y2)`; rejected placements leave the board
    /// untouched.
    pub fn place(&mut self, ship: Ship, x1: usize, y1: usize, x2: usize, y2: usize) -> (r: Option<
        (),
    >)
        requires
            old(self).wf(),
        ensures
            final(self).wf(),
            final(self).bot_view() == old(self).bot_view(),
            final(self).placing() == old(self).placing(),
            (r is Some) <==> placement_ok(
                old(self).player_view(),
                ship,
                x1 as int,
                y1 as int,
                x2 as int,
                y2 as int,
            ),
            r is None ==> final(self).player_view() == old(self).player_view(),
            r is Some ==> forall|x: int, y: int|
                in_bounds(x, y) ==> #[trigger] cell(final(self).player_view(), x, y) == placed_cell(
                    old(self).player_view(),
                    ship,
                    x1 as int,
                    y1 as int,
                    x2 as int,
                    y2 as int,
                    x,
                    y,
                ),
    {
        Game::place_in(&mut self.player, ship, x1, y1, x2, y2)
    }

    /// Places `ship` on `board` with inclusive endpoints `(x1, y1)` and
    /// `(x2, y2)`. Succeeds exactly on legal placements: endpoints in
    /// bounds, axis-aligned, span equal to the ship's length, and no cell
    /// of the footprint held by a different ship. On success the ship's
    /// previous cells are cleared and the new footprint is written; on
    /// failure nothing changes.
    pub fn place_in(board: &mut Board, ship: Ship, x1: usize, y1: usize, x2: usize, y2: usize) -> (r:
        Option<()>)
        requires
            old(board).wf(),
        ensures
            final(board).wf(),
            (r is Some) <==> placement_ok(
                old(board)@,
                ship,
                x1 as int,
                y1 as int,
                x2 as int,
                y2 as int,
            ),
            r is None ==> final(board)@ == old(board)@,
            r is Some ==> forall|x: int, y: int|
                in_bounds(x, y) ==> #[trigger] cell(final(board)@, x, y) == placed_cell(
                    old(board)@,
                    ship,
                    x1 as int,
                    y1 as int,
                    x2 as int,
                    y2 as int,
                    x,
                    y,
                ),
    {
        if x1 >= WIDTH || x2 >= WIDTH || y1 >= HEIGHT || y2 >= HEIGHT {
            return None;
        }
        let (xl, xh) = if x1 < x2 {
            (x1, x2)
        } else {
            (x2, x1)
        };
        let (yl, yh) = if y1 < y2 {
            (y1, y2)
        } else {
            (y2, y1)
        };
        let dx = xh - xl;
        let dy = yh - yl;
        if (dx > 0) == (dy > 0) {
            return None;
        }
        let len = if dx > 0 {
            dx
        } else {
            dy
        };
        if len != ship.len() - 1 {
            return None;
        }
        let ghost b0 = board@;
        if !Game::footprint_free(board, ship, xl, xh, yl, yh) {
            proof {
                let (wx, wy) = choose|x: int, y: int|
                    xl <= x <= xh && yl <= y <= yh && !(#[trigger] cell(b0, x, y) == Slot::Empty
                        || cell(b0, x, y) == Slot::Ship(ship));
                assert(seg_contains(x1 as int, y1 as int, x2 as int, y2 as int, wx, wy));
            }
            return None;
        }
        Game::clear_ship(board, ship);
        let ghost b1 = board@;
        Game::write_footprint(board, ship, xl, xh, yl, yh);
        proof {
            assert forall|x: int, y: int| in_bounds(x, y) implies #[trigger] cell(board@, x, y)
                == placed_cell(b0, ship, x1 as int, y1 as int, x2 as int, y2 as int, x, y) by {
                assert(0 <= sidx(x, y) < b0.len());
                assert(cell(b1, x, y) == clear_cell(cell(b0, x, y), ship));
            }
        }
        Some(())
    }

    /// Whether every cell of the (degenerate) rectangle from `(xl, yl)` to
    /// `(xh, yh)` is empty or already holds `ship`.
    fn footprint_free(board: &Board, ship: Ship, xl: usize, xh: usize, yl: usize, yh: usize) -> (r:
        bool)
        requires
            board.wf(),
            xl <= xh < WIDTH,
            yl <= yh < HEIGHT,
        ensures
            r == forall|x: int, y: int|
                xl <= x <= xh && yl <= y <= yh ==> (#[trigger] cell(board@, x, y) == Slot::Empty
                    || cell(board@, x, y) == Slot::Ship(ship)),
    {
        let mut yy = yl;
        while yy <= yh
            invariant
                yl <= yy <= yh + 1,
                forall|x: int, y: int|
                    xl <= x <= xh && yl <= y < yy ==> (#[trigger] cell(board@, x, y) == Slot::Empty
                        || cell(board@, x, y) == Slot::Ship(ship)),
            decreases yh + 1 - yy,
        {
            let mut xx = xl;
            while xx <= xh
                invariant
                    yl <= yy <= yh,
                    xl <= xx <= xh + 1,
                    forall|x: int, y: int|
                        xl <= x <= xh && yl <= y < yy ==> (#[trigger] cell(board@, x, y)
                            == Slot::Empty || cell(board@, x, y) == Slot::Ship(ship)),
                    forall|x: int|
                        xl <= x < xx ==> (#[trigger] cell(board@, x, yy as int) == Slot::Empty
                            || cell(board@, x, yy as int) == Slot::Ship(ship)),
                decreases xh + 1 - xx,
            {
                let c = board.cells[yy * WIDTH + xx];
                let free = match c {
                    Slot::Empty => true,
                    Slot::Ship(s) => s == ship,
                    _ => false,
                };
                if !free {
                    proof {
                        assert(cell(board@, xx as int, yy as int) == c);
                    }
                    return false;
                }
                xx = xx + 1;
            }
            yy = yy + 1;
        }
        true
    }

    /// Clears every cell that holds `ship`, leaving all others as they are.
    fn clear_ship(board: &mut Board, ship: Ship)
        requires
            old(board).wf(),
        ensures
            final(board).wf(),
            forall|j: int|
                0 <= j < final(board)@.len() ==> final(board)@[j] == clear_cell(
                    old(board)@[j],
                    ship,
                ),
    {
        let n = board.cells.len();
        let mut i: usize = 0;
        while i < n
            invariant
                i <= n,
                board.cells@.len() == n,
                forall|j: int| 0 <= j < i ==> board.cells@[j] == clear_cell(old(board)@[j], ship),
                forall|j: int| i <= j < n ==> board.cells@[j] == old(board)@[j],
            decreases n - i,
        {
            let keep = match board.cells[i] {
                Slot::Ship(s) => s != ship,
                _ => true,
            };
            if !keep {
                board.cells[i] = Slot::Empty;
            }
            i = i + 1;
        }
    }

    /// Writes `ship` into every cell of the (degenerate) rectangle from
    /// `(xl, yl)` to `(xh, yh)`, leaving all other cells as they are.
    fn write_footprint(board: &mut Board, ship: Ship, xl: usize, xh: usize, yl: usize, yh: usize)
        requires
            old(board).wf(),
            xl <= xh < WIDTH,
            yl <= yh < HEIGHT,
        ensures
            final(board).wf(),
            forall|x: int, y: int|
                in_bounds(x, y) ==> #[trigger] cell(final(board)@, x, y) == (
                if xl <= x <= xh && yl <= y <= yh {
                    Slot::Ship(ship)
                } else {
                    cell(old(board)@, x, y)
                }),
    {
        let mut yy = yl;
        while yy <= yh
            invariant
                yl <= yy <= yh + 1,
                board.wf(),
                forall|x: int, y: int|
                    in_bounds(x, y) ==> #[trigger] cell(board@, x, y) == (
                    if xl <= x <= xh && yl <= y < yy {
                        Slot::Ship(ship)
                    } else {
                        cell(old(board)@, x, y)
                    }),
            decreases yh + 1 - yy,
        {
            let mut xx = xl;
            while xx <= xh
                invariant
                    yl <= yy <= yh,
                    xl <= xx <= xh + 1,
                    board.wf(),
                    forall|x: int, y: int|
                        in_bounds(x, y) ==> #[trigger] cell(board@, x, y) == (
                        if (xl <= x <= xh && yl <= y < yy) || (y == yy && xl <= x < xx) {
                            Slot::Ship(ship)
                        } else {
                            cell(old(board)@, x, y)
                        }),
                decreases xh + 1 - xx,
            {
                let ghost prev = board@;
                board.cells[yy * WIDTH + xx] = Slot::Ship(ship);
                proof {
                    assert(board@ == prev.update(sidx(xx as int, yy as int), Slot::Ship(ship)));
                    assert forall|x: int, y: int| in_bounds(x, y) implies #[trigger] cell(
                        board@,
                        x,
                        y,
                    ) == (if (xl <= x <= xh && yl <= y < yy) || (y == yy && xl <= x < xx + 1) {
                        Slot::Ship(ship)
                    } else {
                        cell(old(board)@, x, y)
                    }) by {
                        assert(0 <= sidx(x, y) < board@.len());
                        if x == xx && y == yy {
                            assert(cell(board@, x, y) == Slot::Ship(ship));
                        } else {
                            assert(sidx(x, y) != sidx(xx as int, yy as int));
                            assert(cell(board@, x, y) == cell(prev, x, y));
                        }
                    }
                }
                xx = xx + 1;
            }
            yy = yy + 1;
        }
    }
}

/// Relies on rand::Rng::gen_range on the range `0..n`: the result is a
/// uniformly random value below `n`; the call panics only on an empty
/// range, which `n > 0` rules out.
#[verifier::external_body]
fn random_below(n: usize) -> (r: usize)
    requires
        n > 0,
    ensures
        r < n,
{
    rand::Rng::gen_range(&mut rand::thread_rng(), 0..n)
}

/// Relies on rand::random for bool: a fair coin flip; nothing can be
/// promised of the value.
#[verifier::external_body]
fn random_coin() -> bool {
    rand::random::<bool>()
}

/// An unshot cell of the board, picked at random; after too many collisions
/// with already-shot cells the scan falls back to the first unshot cell.
fn pick_unshot_index(board: &Board) -> (i: usize)
    requires
        board.wf(),
        has_unshot(board@),
    ensures
        i < board@.len(),
        unshot(board@[i as int]),
{
    let n = board.cells.len();
    let mut t: usize = 0;
    while t < 100
        invariant
            t <= 100,
        decreases 100 - t,
    {
        let i = random_below(n);
        if matches!(board.cells[i], Slot::Empty | Slot::Ship(_)) {
            return i;
        }
        t = t + 1;
    }
    let mut i: usize = 0;
    while i < n
        invariant
            i <= n,
            forall|j: int| 0 <= j < i ==> !unshot(#[trigger] board@[j]),
        decreases n - i,
    {
        if matches!(board.cells[i], Slot::Empty | Slot::Ship(_)) {
            return i;
        }
        i = i + 1;
    }
    proof {
        assert(false);
    }
    0
}

impl Game {
    /// Resolves one shot by the caller at `(x, y)` on the opponent's
    /// board. An out-of-bounds or already-shot target is an `Error` and
    /// changes nothing. A valid shot that sinks the last opponent ship
    /// cell wins, and no counter-shot fires. Otherwise one random unshot
    /// cell of the player's board takes the counter-shot, and the game is
    /// lost if that leaves no player ship cell unhit, or goes on.
    pub fn hit(&mut self, x: usize, y: usize) -> (r: End)
        requires
            old(self).wf(),
            in_bounds(x as int, y as int) && unshot(cell(old(self).bot_view(), x as int, y as int))
                && !all_hit_spec(shot_board(old(self).bot_view(), sidx(x as int, y as int)))
                ==> has_unshot(old(self).player_view()),
        ensures
            final(self).wf(),
            final(self).placing() == old(self).placing(),
            (r is Error) <==> !(in_bounds(x as int, y as int) && unshot(
                cell(old(self).bot_view(), x as int, y as int),
            )),
            r is Error ==> final(self).bot_view() == old(self).bot_view()
                && final(self).player_view() == old(self).player_view(),
            !(r is Error) ==> final(self).bot_view() == shot_board(
                old(self).bot_view(),
                sidx(x as int, y as int),
            ),
            (r is Win) <==> !(r is Error) && all_hit_spec(
                shot_board(old(self).bot_view(), sidx(x as int, y as int)),
            ),
            r is Win ==> final(self).player_view() == old(self).player_view(),
            (r is Continue || r is Lose) ==> exists|i: int|
                0 <= i < old(self).player_view().len() && unshot(
                    #[trigger] old(self).player_view()[i],
                ) && final(self).player_view() == shot_board(old(self).player_view(), i),
            (r is Lose) <==> !(r is Error) && !all_hit_spec(
                shot_board(old(self).bot_view(), sidx(x as int, y as int)),
            ) && all_hit_spec(final(self).player_view()),
            (r is Continue) <==> !(r is Error) && !all_hit_spec(
                shot_board(old(self).bot_view(), sidx(x as int, y as int)),
            ) && !all_hit_spec(final(self).player_view()),
    {
        if x >= WIDTH || y >= HEIGHT {
            return End::Error;
        }
        let idx = y * WIDTH + x;
        let c = self.bot.cells[idx];
        match c {
            Slot::EmptyShot | Slot::Hit(_) => {
                return End::Error;
            },
            Slot::Empty => {
                self.bot.cells[idx] = Slot::EmptyShot;
            },
            Slot::Ship(k) => {
                self.bot.cells[idx] = Slot::Hit(k);
            },
        }
        if all_hit(&self.bot) {
            return End::Win;
        }
        let j = pick_unshot_index(&self.player);
        match self.player.cells[j] {
            Slot::Empty => {
                self.player.cells[j] = Slot::EmptyShot;
            },
            Slot::Ship(k) => {
                self.player.cells[j] = Slot::Hit(k);
            },
            _ => {
                proof {
                    assert(false);
                }
            },
        }
        if all_hit(&self.player) {
            End::Lose
        } else {
            End::Continue
        }
    }

    /// Clears the player's board, then places the whole fleet at random
    /// and records every ship kind as placed in the caller's ledger. The
    /// board afterwards holds each of the five ships exactly once, whole
    /// and without overlap, and no shot marks.
    pub fn random(&mut self, ships: &mut Ledger)
        requires
            old(self).wf(),
        ensures
            final(self).wf(),
            final(self).placing() == old(self).placing(),
            final(self).bot_view() == old(self).bot_view(),
            forall|k: Ship| ship_well_placed(final(self).player_view(), k),
            no_shots(final(self).player_view()),
            forall|k: Ship| final(ships).placed(k),
    {
        self.player.clear();
        Game::place_fleet(&mut self.player);
        *ships = Ledger {
            patrol_boat: true,
            submarine: true,
            destroyer: true,
            battleship: true,
            carrier: true,
        };
    }

    /// Enters the play phase: the opponent's board is cleared and its
    /// fleet is placed at random, whole and without overlap.
    pub fn play(&mut self)
        requires
            old(self).wf(),
        ensures
            final(self).wf(),
            !final(self).placing(),
            final(self).player_view() == old(self).player_view(),
            forall|k: Ship| ship_well_placed(final(self).bot_view(), k),
            no_shots(final(self).bot_view()),
    {
        self.bot.clear();
        Game::place_fleet(&mut self.bot);
        self.state = State::Playing;
    }

    /// Places all five ships on an empty board: first a deterministic
    /// arrangement that is always legal, then each ship is re-placed at a
    /// random spot, keeping its fallback position when the random attempts
    /// keep colliding.
    fn place_fleet(board: &mut Board)
        requires
            old(board).wf(),
            forall|i: int| 0 <= i < old(board)@.len() ==> old(board)@[i] == Slot::Empty,
        ensures
            final(board).wf(),
            forall|k: Ship| ship_well_placed(final(board)@, k),
            no_shots(final(board)@),
    {
        proof {
            assert forall|x: int, y: int| in_bounds(x, y) implies #[trigger] cell(board@, x, y)
                == Slot::Empty by {
                assert(0 <= sidx(x, y) < board@.len());
            }
        }
        Game::place_baseline(board, Ship::PatrolBoat, 0);
        Game::place_baseline(board, Ship::Submarine, 1);
        Game::place_baseline(board, Ship::Destroyer, 2);
        Game::place_baseline(board, Ship::Battleship, 3);
        Game::place_baseline(board, Ship::Carrier, 4);
        proof {
            assert(ship_well_placed(board@, Ship::PatrolBoat));
            assert(ship_well_placed(board@, Ship::Submarine));
            assert(ship_well_placed(board@, Ship::Destroyer));
            assert(ship_well_placed(board@, Ship::Battleship));
            assert(ship_well_placed(board@, Ship::Carrier));
        }
        Game::randomize_ship(board, Ship::PatrolBoat);
        Game::randomize_ship(board, Ship::Submarine);
        Game::randomize_ship(board, Ship::Destroyer);
        Game::randomize_ship(board, Ship::Battleship);
        Game::randomize_ship(board, Ship::Carrier);
    }

    /// Places `ship` horizontally at the start of `row`; every cell from
    /// that row down must still be empty, so the placement always
    /// succeeds. Ships already placed on earlier rows stay where they are.
    fn place_baseline(board: &mut Board, ship: Ship, row: usize)
        requires
            old(board).wf(),
            row < HEIGHT,
            forall|x: int, y: int|
                in_bounds(x, y) && y >= row ==> #[trigger] cell(old(board)@, x, y) == Slot::Empty,
            no_shots(old(board)@),
        ensures
            final(board).wf(),
            forall|x: int, y: int|
                in_bounds(x, y) && y > row ==> #[trigger] cell(final(board)@, x, y) == Slot::Empty,
            ship_well_placed(final(board)@, ship),
            forall|k: Ship|
                k != ship && ship_well_placed(old(board)@, k) ==> ship_well_placed(
                    final(board)@,
                    k,
                ),
            no_shots(final(board)@),
    {
        let l = ship.len();
        assert(2 <= l <= 5);
        let ghost b0 = board@;
        proof {
            assert forall|x: int, y: int|
                in_bounds(x, y) && #[trigger] seg_contains(
                    0,
                    row as int,
                    (l - 1) as int,
                    row as int,
                    x,
                    y,
                ) implies cell(b0, x, y) == Slot::Empty || cell(b0, x, y) == Slot::Ship(ship) by {
                assert(cell(b0, x, y) == Slot::Empty);
            }
            assert(placement_ok(b0, ship, 0, row as int, (l - 1) as int, row as int));
        }
        let r = Game::place_in(board, ship, 0, row, l - 1, row);
        proof {
            assert(r is Some);
            lemma_place_footprint(b0, board@, ship, 0, row as int, (l - 1) as int, row as int);
            assert forall|k: Ship|
                k != ship && ship_well_placed(b0, k) implies ship_well_placed(board@, k) by {
                lemma_place_preserves_other(
                    b0,
                    board@,
                    ship,
                    0,
                    row as int,
                    (l - 1) as int,
                    row as int,
                    k,
                );
            }
            lemma_place_no_shots(b0, board@, ship, 0, row as int, (l - 1) as int, row as int);
        }
    }

    /// Tries a bounded number of random placements for `ship`; the first
    /// legal one replaces the ship's previous footprint, and the ship
    /// keeps its previous spot when every attempt collides. All other
    /// ships stay where they are.
    fn randomize_ship(board: &mut Board, ship: Ship)
        requires
            old(board).wf(),
            forall|k: Ship| ship_well_placed(old(board)@, k),
            no_shots(old(board)@),
        ensures
            final(board).wf(),
            forall|k: Ship| ship_well_placed(final(board)@, k),
            no_shots(final(board)@),
    {
        let len = ship.len();
        assert(2 <= len <= 5);
        let mut t: usize = 0;
        while t < 64
            invariant
                t <= 64,
                board.wf(),
                forall|k: Ship| ship_well_placed(board@, k),
                no_shots(board@),
                len == ship.spec_len(),
            decreases 64 - t,
        {
            let dir = random_coin();
            let (x1, y1) = if dir {
                (random_below(WIDTH - (len - 1)), random_below(HEIGHT))
            } else {
                (random_below(WIDTH), random_below(HEIGHT - (len - 1)))
            };
            let o = random_below(2 * len - 1);
            let mut x2 = x1;
            let mut y2 = y1;
            let mut feasible = true;
            if dir {
                if x1 + o >= len - 1 {
                    x2 = x1 + o - (len - 1);
                } else {
                    feasible = false;
                }
            } else {
                if y1 + o >= len - 1 {
                    y2 = y1 + o - (len - 1);
                } else {
                    feasible = false;
                }
            }
            if feasible {
                let ghost b0 = board@;
                let r = Game::place_in(board, ship, x1, y1, x2, y2);
                if r.is_some() {
                    proof {
                        lemma_place_footprint(
                            b0,
                            board@,
                            ship,
                            x1 as int,
                            y1 as int,
                            x2 as int,
                            y2 as int,
                        );
                        assert forall|k: Ship| ship_well_placed(board@, k) by {
                            if k != ship {
                                lemma_place_preserves_other(
                                    b0,
                                    board@,
                                    ship,
                                    x1 as int,
                                    y1 as int,
                                    x2 as int,
                                    y2 as int,
                                    k,
                                );
                            }
                        }
                        lemma_place_no_shots(
                            b0,
                            board@,
                            ship,
                            x1 as int,
                            y1 as int,
                            x2 as int,
                            y2 as int,
                        );
                    }
                    return;
                }
            }
            t = t + 1;
        }
    }

    /// Whether the match is still in the placement phase.
    pub fn is_placing(&self) -> (r: bool)
        ensures
            r == self.placing(),
    {
        matches!(self.state, State::Placing)
    }

    /// Whether the match has entered the play phase.
    pub fn is_playing(&self) -> (r: bool)
        ensures
            r == !self.placing(),
    {
        matches!(self.state, State::Playing)
    }

    /// The player's own view of one of their cells.
    pub fn player_at(&self, x: usize, y: usize) -> (r: Slot)
        requires
            self.wf(),
            x < WIDTH,
            y < HEIGHT,
        ensures
            r == cell(self.player_view(), x as int, y as int),
    {
        self.player.at(x, y)
    }

    /// The cell of the opponent's board at `(x, y)`; presentation layers
    /// must render it with `Slot::char(false)` so that unshot ships stay
    /// hidden.
    pub fn bot_at(&self, x: usize, y: usize) -> (r: Slot)
        requires
            self.wf(),
            x < WIDTH,
            y < HEIGHT,
        ensures
            r == cell(self.bot_view(), x as int, y as int),
    {
        self.bot.at(x, y)
    }
}

} // verus!
