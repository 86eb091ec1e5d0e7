//! Stones, positions and the board grid.

use vstd::prelude::*;

verus! {

/// The colour of a placed stone.
#[derive(Clone, Copy, Debug, PartialEq, Eq, Structural)]
pub enum Stone {
    Black,
    White,
}

/// An ordered pair `(x, y)`: a board cell or a raw pixel coordinate,
/// depending on context.
#[derive(Clone, Copy, Debug, PartialEq, Eq, Structural)]
pub struct Position<T>(pub T, pub T);

impl<T: Copy> Position<T> {
    /// The horizontal component.
    pub fn x(&self) -> (r: T)
        ensures
            r == self.0,
    {
        self.0
    }

    /// The vertical component.
    pub fn y(&self) -> (r: T)
        ensures
            r == self.1,
    {
        self.1
    }
}

/// The mathematical model of a board: rows of cells, each empty or holding
/// a stone.
pub type Grid = Seq<Seq<Option<Stone>>>;

/// Whether `g` is a square grid.
pub open spec fn grid_is_square(g: Grid) -> bool {
    forall|y: int| 0 <= y < g.len() ==> (#[trigger] g[y]).len() == g.len()
}

/// The grid `g` with the cell in column `x` of row `y` replaced by `cell`.
pub open spec fn grid_with(g: Grid, x: int, y: int, cell: Option<Stone>) -> Grid {
    g.update(y, g[y].update(x, cell))
}

/// The grid that a vector of rows stands for.
pub open spec fn grid_of(rows: Seq<Vec<Option<Stone>>>) -> Grid {
    Seq::new(rows.len(), |y: int| rows[y]@)
}

/// A grid of cells, stored row by row: `stones[y][x]`.
#[derive(Clone, Debug, PartialEq, Eq)]
pub struct Board {
    pub stones: Vec<Vec<Option<Stone>>>,
}

impl View for Board {
    type V = Grid;

    open spec fn view(&self) -> Grid {
        grid_of(self.stones@)
    }
}

impl Board {
    /// A board is well formed when it is square.
    pub open spec fn well_formed(&self) -> bool {
        grid_is_square(self@)
    }

    /// The side length.
    pub fn side(&self) -> (n: usize)
        ensures
            n == self@.len(),
    {
        self.stones.len()
    }

    /// Sets one cell. Nothing is checked against the rules of the game: the
    /// caller applies only what the authority has ruled.
    pub fn place(&mut self, position: Position<u8>, stone: Option<Stone>)
        requires
            old(self).well_formed(),
            position.0 < old(self)@.len(),
            position.1 < old(self)@.len(),
        ensures
            final(self)@ == grid_with(old(self)@, position.0 as int, position.1 as int, stone),
            final(self).well_formed(),
    {
        let x: usize = position.0 as usize;
        let y: usize = position.1 as usize;
        assert(self@[y as int].len() == self@.len());
        self.stones[y][x] = stone;
        assert(self@ =~= grid_with(old(self)@, position.0 as int, position.1 as int, stone));
    }
}

/// A stone set on, or lifted from, one cell.
pub type Placement = (Position<u8>, Option<Stone>);

/// The authority's ruling on one placement attempt: the cell to change, if
/// any, and the player the ruling is about, if it names one. A ruling with
/// no cell that names a player marks that player's attempt as turned down.
#[derive(Clone, Debug, PartialEq, Eq)]
pub struct Move(pub Option<Placement>, pub Option<String>);

/// The model of a [`Move`].
pub struct MoveView {
    pub placement: Option<Placement>,
    pub player: Option<Seq<char>>,
}

impl View for Move {
    type V = MoveView;

    open spec fn view(&self) -> MoveView {
        MoveView {
            placement: self.0,
            player: match self.1 {
                Some(name) => Some(name@),
                None => None,
            },
        }
    }
}

/// The authority's refusal of a placement attempt, naming the player who
/// made it.
#[derive(Clone, Debug, PartialEq, Eq)]
pub struct InvalidMove(pub String);

impl View for InvalidMove {
    type V = Seq<char>;

    open spec fn view(&self) -> Seq<char> {
        self.0@
    }
}

/// Whether `placement` names a cell of a grid with `side` lines.
pub open spec fn placement_on_grid(placement: Placement, side: int) -> bool {
    placement.0.0 < side && placement.0.1 < side
}

/// The grid `g` after `placement`: one cell replaced, every other cell as
/// before.
pub open spec fn grid_after(g: Grid, placement: Placement) -> Grid {
    grid_with(g, placement.0.0 as int, placement.0.1 as int, placement.1)
}

/// A placement on the grid changes the named cell and no other.
pub proof fn lemma_placement_sets_one_cell(g: Grid, placement: Placement, x: int, y: int)
    requires
        grid_is_square(g),
        placement_on_grid(placement, g.len() as int),
        0 <= x < g.len(),
        0 <= y < g.len(),
    ensures
        grid_after(g, placement).len() == g.len(),
        grid_is_square(grid_after(g, placement)),
        grid_after(g, placement)[y][x] == if x == placement.0.0 && y == placement.0.1 {
            placement.1
        } else {
            g[y][x]
        },
{
    let after = grid_after(g, placement);
    assert(g[placement.0.1 as int].len() == g.len());
    assert forall|row: int| 0 <= row < after.len() implies (#[trigger] after[row]).len()
        == after.len() by {
        assert(g[row].len() == g.len());
    }
    assert(g[y].len() == g.len());
}

} // verus!
