use rand::Rng;
use vstd::prelude::*;

use crate::mining::{
    drawn, left_after, lemma_candidates_upto, lemma_draw_step, lemma_first_click_clear,
    lemma_proposals_all_placed, lemma_with_proposals_shape, valid_draws,
};
use crate::spread::{
    empty_count, lemma_empty_count_decreases, lemma_empty_count_le, lemma_reveal_single,
    lemma_revealed_from_props, lemma_spread_done, lemma_spread_start, lemma_spread_step,
};

verus! {

/// type representing a Cell in the Field.
/// Can be Empty, contain a Bomb, carry a Flag (over a bomb or not),
/// or be Uncovered with an amount of surrounding bombs.
#[derive(Debug, Clone, Copy, PartialEq, Eq, Structural)]
pub enum Cell {
    Empty,
    Bomb,
    Flagged { is_bomb: bool },
    Uncovered { num_bombs: u8 },
}

impl Cell {
    /// Whether a bomb lies under this cell (flagged or not).
    pub open spec fn holds_bomb(self) -> bool {
        match self {
            Cell::Bomb => true,
            Cell::Flagged { is_bomb } => is_bomb,
            _ => false,
        }
    }

    /// What placing (or removing) a flag makes of this cell.
    pub open spec fn flag_toggled(self) -> Cell {
        match self {
            Cell::Bomb => Cell::Flagged { is_bomb: true },
            Cell::Empty => Cell::Flagged { is_bomb: false },
            Cell::Flagged { is_bomb } => if is_bomb {
                Cell::Bomb
            } else {
                Cell::Empty
            },
            Cell::Uncovered { .. } => self,
        }
    }

    /// Change cell to Uncovered with number of bombs.
    pub fn uncover(&mut self, num_bombs: u8)
        ensures
            *final(self) == (Cell::Uncovered { num_bombs }),
    {
        *self = Cell::Uncovered { num_bombs };
    }

    /// place a bomb in Cell
    pub fn place_bomb(&mut self)
        ensures
            *final(self) == Cell::Bomb,
    {
        *self = Cell::Bomb;
    }

    /// Toggle the flag on a covered cell; an uncovered cell is left alone.
    /// Returns whether the cell was covered.
    pub fn place_flag(&mut self) -> (changed: bool)
        ensures
            changed == !(*old(self) is Uncovered),
            *final(self) == old(self).flag_toggled(),
    {
        let is_bomb = match self {
            Cell::Bomb => true,
            Cell::Empty => false,
            Cell::Uncovered { .. } => return false,
            Cell::Flagged { is_bomb } => {
                *self = if *is_bomb {
                    Cell::Bomb
                } else {
                    Cell::Empty
                };
                return true;
            },
        };

        *self = Cell::Flagged { is_bomb };
        true
    }

    /// Whether a bomb lies under this cell.
    pub fn is_bomb(&self) -> (b: bool)
        ensures
            b == self.holds_bomb(),
    {
        match self {
            Cell::Bomb => true,
            Cell::Flagged { is_bomb } => *is_bomb,
            _ => false,
        }
    }
}

/// Type representing Game Mode
pub enum Mode {
    EASY,
    MEDIUM,
    HARD,
}

impl Mode {
    /// Width of the field in this mode.
    pub open spec fn width_of(self) -> nat {
        match self {
            Mode::EASY => 9,
            Mode::MEDIUM => 16,
            Mode::HARD => 24,
        }
    }

    /// Height of the field in this mode.
    pub open spec fn height_of(self) -> nat {
        self.width_of()
    }

    /// Number of bombs hidden in the field in this mode.
    pub open spec fn bombs_of(self) -> nat {
        match self {
            Mode::EASY => 10,
            Mode::MEDIUM => 40,
            Mode::HARD => 99,
        }
    }

    pub fn x_size(&self) -> (n: usize)
        ensures
            n == self.width_of(),
    {
        match self {
            Mode::EASY => 9,
            Mode::MEDIUM => 16,
            Mode::HARD => 24,
        }
    }

    pub fn y_size(&self) -> (n: usize)
        ensures
            n == self.height_of(),
    {
        match self {
            Mode::EASY => 9,
            Mode::MEDIUM => 16,
            Mode::HARD => 24,
        }
    }

    pub fn bombs(&self) -> (n: usize)
        ensures
            n == self.bombs_of(),
    {
        match self {
            Mode::EASY => 10,
            Mode::MEDIUM => 40,
            Mode::HARD => 99,
        }
    }
}

/// The largest width or height a field can have.
pub const MAX_SIDE: usize = 4096;

/// The eight directions to the neighbours of a cell.
pub open spec fn offset(d: int) -> (int, int) {
    if d == 0 {
        (-1, -1)
    } else if d == 1 {
        (-1, 0)
    } else if d == 2 {
        (-1, 1)
    } else if d == 3 {
        (0, -1)
    } else if d == 4 {
        (0, 1)
    } else if d == 5 {
        (1, -1)
    } else if d == 6 {
        (1, 0)
    } else {
        (1, 1)
    }
}

/// Whether `q` is one of the eight neighbours of `p`.
pub open spec fn adjacent(p: (int, int), q: (int, int)) -> bool {
    &&& p != q
    &&& -1 <= q.0 - p.0 <= 1
    &&& -1 <= q.1 - p.1 <= 1
}

/// The abstract state of a [`Field`]: its cells in row-major order and its dimensions.
pub struct FieldState {
    pub cells: Seq<Cell>,
    pub width: nat,
    pub height: nat,
    pub num_mines: nat,
    pub initialized: bool,
}

impl FieldState {
    /// The field is between 1 and `MAX_SIDE` cells wide and high and has a cell for
    /// every position.
    pub open spec fn wf(self) -> bool {
        &&& 0 < self.width <= MAX_SIDE
        &&& 0 < self.height <= MAX_SIDE
        &&& self.cells.len() == self.width * self.height
    }

    /// Whether `(x, y)` is a position of the field.
    pub open spec fn in_bounds(self, x: int, y: int) -> bool {
        0 <= x < self.width && 0 <= y < self.height
    }

    /// The cell at column `x`, row `y`.
    pub open spec fn at(self, x: int, y: int) -> Cell {
        self.cells[x + y * self.width]
    }

    /// Whether `(x, y)` lies in the field and holds a bomb.
    pub open spec fn bomb_at(self, x: int, y: int) -> bool {
        self.in_bounds(x, y) && self.at(x, y).holds_bomb()
    }

    /// The number of bombs among the first `d` neighbours of `(x, y)`.
    pub open spec fn bombs_among(self, x: int, y: int, d: nat) -> nat
        decreases d,
    {
        if d == 0 {
            0
        } else {
            self.bombs_among(x, y, (d - 1) as nat) + if self.bomb_at(
                x + offset(d - 1).0,
                y + offset(d - 1).1,
            ) {
                1nat
            } else {
                0nat
            }
        }
    }

    /// The number of bombs around `(x, y)`.
    pub open spec fn bomb_count(self, x: int, y: int) -> nat {
        self.bombs_among(x, y, 8)
    }

    /// This state with the cell at `(x, y)` replaced by `c`.
    pub open spec fn set_at(self, x: int, y: int, c: Cell) -> FieldState {
        FieldState { cells: self.cells.update(x + y * self.width, c), ..self }
    }

    /// Every cell that holds no bomb is uncovered.
    pub open spec fn all_safe_uncovered(self) -> bool {
        forall|a: int, b: int|
            self.in_bounds(a, b) ==> #[trigger] self.at(a, b).holds_bomb() || self.at(a, b) is Uncovered
    }

    /// No bomb lies anywhere in the field.
    pub open spec fn no_bombs(self) -> bool {
        forall|a: int, b: int| !#[trigger] self.bomb_at(a, b)
    }

    /// Both states have the same dimensions and number of mines.
    pub open spec fn same_shape(self, other: FieldState) -> bool {
        &&& self.cells.len() == other.cells.len()
        &&& self.width == other.width
        &&& self.height == other.height
        &&& self.num_mines == other.num_mines
    }

    /// Both states hide their bombs in the same places.
    pub open spec fn same_bombs(self, other: FieldState) -> bool {
        forall|x: int, y: int| #[trigger] self.bomb_at(x, y) == other.bomb_at(x, y)
    }
}

/// What revealing the whole field makes of a cell with `n` bombs around it:
/// bombs are flagged, every other cell is uncovered.
pub open spec fn revealed_cell(c: Cell, n: nat) -> Cell {
    match c {
        Cell::Empty => Cell::Uncovered { num_bombs: n as u8 },
        Cell::Bomb => Cell::Flagged { is_bomb: true },
        Cell::Flagged { is_bomb } => if is_bomb {
            c
        } else {
            Cell::Uncovered { num_bombs: n as u8 }
        },
        Cell::Uncovered { .. } => c,
    }
}

/// The message of a flag on an uncovered cell.
pub open spec fn flag_uncovered_msg() -> Seq<char> {
    "This Field is already uncovered."@
}

/// The message of a click on an uncovered cell.
pub open spec fn uncovered_msg() -> Seq<char> {
    "This Cell is already uncovered."@
}

/// The message of a click on a flagged cell.
pub open spec fn flagged_msg() -> Seq<char> {
    "This Cell is flagged, and cannot be clicked."@
}

impl FieldState {
    /// The outcome of a click at `(x, y)` on this (initialized) field: `r` is what the
    /// click returns and `post` the field afterwards.
    /// Outside the field, on an uncovered or a flagged cell the click fails with a
    /// message and changes nothing; on a bomb it returns `false` and changes nothing;
    /// on a plain covered cell it returns `true` and spreads as [`FieldState::revealed_from`] says.
    pub open spec fn click_outcome(self, x: int, y: int, r: Result<bool, String>, post: FieldState) -> bool {
        if !self.in_bounds(x, y) {
            post == self && (r matches Err(e) && e@ == out_of_bounds_msg())
        } else {
            match self.at(x, y) {
                Cell::Empty => r == Ok::<bool, String>(true) && self.revealed_from(x, y, post),
                Cell::Bomb => r == Ok::<bool, String>(false) && post == self,
                Cell::Uncovered { .. } => post == self && (r matches Err(e) && e@ == uncovered_msg()),
                Cell::Flagged { .. } => post == self && (r matches Err(e) && e@ == flagged_msg()),
            }
        }
    }
}

impl FieldState {
    /// The field is well formed, and before the first click it hides no bomb.
    pub open spec fn playable(self) -> bool {
        &&& self.wf()
        &&& !self.initialized ==> self.no_bombs()
    }

    /// `r` and `post` are what a click at `(x, y)` on this field may give:
    /// - the first click lays the bombs ([`FieldState::mined_into`]) and then acts as any other;
    /// - a click acts as [`FieldState::click_outcome`] says;
    /// - the first click on a plain covered cell of the field always succeeds and opens a cell
    ///   without bombs around;
    /// - after any click the field is initialized, no cell became plain and covered again, and
    ///   no click after the first moves a bomb.
    pub open spec fn clicked(self, x: int, y: int, r: Result<bool, String>, post: FieldState) -> bool {
        &&& post.playable()
        &&& post.initialized
        &&& post.empties_within(self)
        &&& self.initialized ==> self.click_outcome(x, y, r, post) && post.same_bombs(self)
        &&& !self.initialized ==> exists|mined: FieldState|
            self.mined_into(x, y, mined) && mined.click_outcome(x, y, r, post)
        &&& !self.initialized && self.in_bounds(x, y) && self.at(x, y) is Empty ==> r == Ok::<
            bool,
            String,
        >(true) && post.at(x, y) == Cell::Uncovered { num_bombs: 0 }
    }

    /// `r` and `post` are what toggling the flag at `(x, y)` gives: on a covered cell of
    /// the field the flag is placed or removed and the toggle succeeds; on an uncovered
    /// cell or outside the field it fails with a message and changes nothing.
    /// Either way every bomb stays where it was.
    pub open spec fn flag_toggle(self, x: int, y: int, r: Result<(), String>, post: FieldState) -> bool {
        &&& post.same_bombs(self)
        &&& match r {
            Ok(()) => {
                &&& self.in_bounds(x, y)
                &&& !(self.at(x, y) is Uncovered)
                &&& post == self.set_at(x, y, self.at(x, y).flag_toggled())
            },
            Err(e) => {
                &&& post == self
                &&& if self.in_bounds(x, y) {
                    self.at(x, y) is Uncovered && e@ == flag_uncovered_msg()
                } else {
                    e@ == out_of_bounds_msg()
                }
            },
        }
    }

    /// `post` is this field with everything revealed: every bomb flagged, every other cell
    /// uncovered with its number of surrounding bombs; so every cell without a bomb is uncovered.
    pub open spec fn uncovered_all(self, post: FieldState) -> bool {
        &&& post.same_shape(self)
        &&& post.initialized == self.initialized
        &&& post.same_bombs(self)
        &&& post.all_safe_uncovered()
        &&& forall|a: int, b: int|
            self.in_bounds(a, b) ==> #[trigger] post.at(a, b) == revealed_cell(
                self.at(a, b),
                self.bomb_count(a, b),
            )
    }
}

/// struct representing Playing Field.
/// contains a vector of cells with size width * height, and a certain number of bombs..
pub struct Field {
    cells: Vec<Cell>,
    width: usize,
    height: usize,
    num_mines: usize,
    initialized: bool,
}

impl View for Field {
    type V = FieldState;

    closed spec fn view(&self) -> FieldState {
        FieldState {
            cells: self.cells@,
            width: self.width as nat,
            height: self.height as nat,
            num_mines: self.num_mines as nat,
            initialized: self.initialized,
        }
    }
}

/// The message of a click or flag outside the field.
pub open spec fn out_of_bounds_msg() -> Seq<char> {
    "Access out of Bounds"@
}

/// The row-major index of a position of a `w` by `h` field lies within its cells.
pub proof fn lemma_index_in_range(x: int, y: int, w: int, h: int)
    requires
        0 <= x < w,
        0 <= y < h,
    ensures
        0 <= y * w <= x + y * w < w * h,
{
    assert(0 <= y * w) by (nonlinear_arith)
        requires
            0 <= y,
            0 <= w,
    ;
    assert(y * w + w <= w * h) by (nonlinear_arith)
        requires
            0 <= y < h,
            0 <= w,
    ;
}

/// Distinct positions have distinct row-major indices.
pub proof fn lemma_index_injective(x1: int, y1: int, x2: int, y2: int, w: int)
    requires
        0 <= x1 < w,
        0 <= x2 < w,
        0 <= y1,
        0 <= y2,
        x1 + y1 * w == x2 + y2 * w,
    ensures
        x1 == x2,
        y1 == y2,
{
    if y1 < y2 {
        assert(y1 * w + w <= y2 * w) by (nonlinear_arith)
            requires
                y1 < y2,
                0 <= w,
        ;
    } else if y2 < y1 {
        assert(y2 * w + w <= y1 * w) by (nonlinear_arith)
            requires
                y2 < y1,
                0 <= w,
        ;
    }
}

/// Whether `(x, y)` lies within distance `tol` of `(a, b)` in both directions.
pub open spec fn is_near(x: int, y: int, a: int, b: int, tol: int) -> bool {
    x + tol >= a && x <= a + tol && y + tol >= b && y <= b + tol
}

/// test if (x, y) is near (a, b)
fn near(x: usize, y: usize, a: usize, b: usize, tol: usize) -> (r: bool)
    ensures
        r == is_near(x as int, y as int, a as int, b as int, tol as int),
{
    (x >= a || a - x <= tol) && (x <= a || x - a <= tol) && (y >= b || b - y <= tol) && (y <= b
        || y - b <= tol)
}

/// Replacing one cell leaves every other position as it was.
pub proof fn lemma_set_at(st: FieldState, x: int, y: int, c: Cell)
    requires
        st.wf(),
        st.in_bounds(x, y),
    ensures
        st.set_at(x, y, c).wf(),
        st.set_at(x, y, c).same_shape(st),
        forall|a: int, b: int|
            st.in_bounds(a, b) ==> #[trigger] st.set_at(x, y, c).at(a, b) == if a == x && b == y {
                c
            } else {
                st.at(a, b)
            },
{
    lemma_index_in_range(x, y, st.width as int, st.height as int);
    assert forall|a: int, b: int| st.in_bounds(a, b) implies #[trigger] st.set_at(x, y, c).at(a, b)
        == if a == x && b == y {
        c
    } else {
        st.at(a, b)
    } by {
        lemma_index_in_range(a, b, st.width as int, st.height as int);
        if a != x || b != y {
            if a + b * st.width == x + y * st.width {
                lemma_index_injective(a, b, x, y, st.width as int);
            }
        }
    }
}

/// The bomb count of a position depends only on where the bombs are.
pub proof fn lemma_bombs_among_same(s1: FieldState, s2: FieldState, x: int, y: int, d: nat)
    requires
        s1.same_bombs(s2),
    ensures
        s1.bombs_among(x, y, d) == s2.bombs_among(x, y, d),
    decreases d,
{
    if d > 0 {
        lemma_bombs_among_same(s1, s2, x, y, (d - 1) as nat);
        assert(s1.bomb_at(x + offset(d - 1).0, y + offset(d - 1).1) == s2.bomb_at(
            x + offset(d - 1).0,
            y + offset(d - 1).1,
        ));
    }
}

/// A random number below `bound`, drawn with `rand::Rng::gen_range(0..bound)`
/// on the thread-local generator `rand::thread_rng()`.
/// Only the range of the result is stated: it rests on chance.
#[verifier::external_body]
fn random_below(bound: usize) -> (r: usize)
    requires
        bound > 0,
    ensures
        r < bound,
{
    rand::thread_rng().gen_range(0..bound)
}

impl Field {
    /// The field is well formed, and before the first click it hides no bomb.
    pub open spec fn wf(&self) -> bool {
        self@.playable()
    }

    /// The number of columns.
    pub fn width(&self) -> (w: usize)
        ensures
            w == self@.width,
    {
        self.width
    }

    /// The number of rows.
    pub fn height(&self) -> (h: usize)
        ensures
            h == self@.height,
    {
        self.height
    }

    /// The number of bombs the field hides.
    pub fn num_mines(&self) -> (n: usize)
        ensures
            n == self@.num_mines,
    {
        self.num_mines
    }

    /// Create a new Field with the preferred Game Mode
    pub fn new(mode: Mode) -> (f: Field)
        ensures
            f.wf(),
            f@.width == mode.width_of(),
            f@.height == mode.height_of(),
            f@.num_mines == mode.bombs_of(),
            !f@.initialized,
            forall|a: int, b: int| f@.in_bounds(a, b) ==> #[trigger] f@.at(a, b) == Cell::Empty,
    {
        let width = mode.x_size();
        let height = mode.y_size();
        let num_mines = mode.bombs();

        let total = width * height;
        let mut cells: Vec<Cell> = Vec::new();
        while cells.len() < total
            invariant
                cells.len() <= total,
                forall|i: int| 0 <= i < cells.len() ==> cells@[i] == Cell::Empty,
            decreases total - cells.len(),
        {
            cells.push(Cell::Empty);
        }

        let f = Field { cells, width, height, num_mines, initialized: false };
        proof {
            assert forall|a: int, b: int| f@.in_bounds(a, b) implies #[trigger] f@.at(a, b)
                == Cell::Empty by {
                lemma_index_in_range(a, b, width as int, height as int);
            }
        }
        f
    }

    /// Toggle a Flag.
    /// If Cell wasn't uncovered and doesn't contain a Flag yet, a Flag is placed.
    /// If Cell already contains a Flag, the Flag is removed.
    /// If Cell is Uncovered, an Error messages is returned.
    pub fn toggle_flag(&mut self, x: usize, y: usize) -> (r: Result<(), String>)
        requires
            old(self).wf(),
        ensures
            final(self).wf(),
            old(self)@.flag_toggle(x as int, y as int, r, final(self)@),
    {
        let cell = match self.get_mut(x, y) {
            Ok(cell) => cell,
            Err(e) => return Err(e),
        };

        let changed = cell.place_flag();
        proof {
            lemma_set_at(old(self)@, x as int, y as int, old(self)@.at(x as int, y as int).flag_toggled());
            assert forall|a: int, b: int| #[trigger] self@.bomb_at(a, b) == old(self)@.bomb_at(a, b) by {}
        }
        if !changed {
            proof {
                lemma_index_in_range(x as int, y as int, self@.width as int, self@.height as int);
                assert(self@.cells =~= old(self)@.cells);
            }
            Err("This Field is already uncovered.".to_owned())
        } else {
            Ok(())
        }
    }

    /// Check if the game is won, i.e. all cells not containing bombs have been uncovered.
    pub fn won(&self) -> (b: bool)
        requires
            self.wf(),
        ensures
            b == self@.all_safe_uncovered(),
    {
        let width = self.width;
        let height = self.height;
        for y in 0..height
            invariant
                self.wf(),
                width == self@.width,
                height == self@.height,
                forall|a: int, b: int|
                    self@.in_bounds(a, b) && b < y ==> #[trigger] self@.at(a, b).holds_bomb()
                        || self@.at(a, b) is Uncovered,
        {
            for x in 0..width
                invariant
                    self.wf(),
                    width == self@.width,
                    height == self@.height,
                    y < height,
                    forall|a: int, b: int|
                        self@.in_bounds(a, b) && (b < y || (b == y && a < x))
                            ==> #[trigger] self@.at(a, b).holds_bomb() || self@.at(a, b) is Uncovered,
            {
                let c = self.get(x, y).unwrap();
                if !c.is_bomb() && !matches!(c, Cell::Uncovered { .. }) {
                    return false;
                }
            }
        }
        true
    }

    /// Uncover the whole field: every bomb is flagged, every other cell is uncovered
    /// with its number of surrounding bombs.
    pub fn uncover(&mut self)
        requires
            old(self).wf(),
        ensures
            final(self).wf(),
            old(self)@.uncovered_all(final(self)@),
    {
        let ghost start = self@;
        let width = self.width;
        let height = self.height;
        for x in 0..width
            invariant
                width == self@.width,
                height == self@.height,
                self.wf(),
                self@.same_shape(start),
                self@.initialized == start.initialized,
                !start.initialized ==> start.no_bombs(),
                self@.same_bombs(start),
                forall|a: int, b: int|
                    start.in_bounds(a, b) ==> #[trigger] self@.at(a, b) == if a < x {
                        revealed_cell(start.at(a, b), start.bomb_count(a, b))
                    } else {
                        start.at(a, b)
                    },
        {
            for y in 0..height
                invariant
                    width == self@.width,
                    height == self@.height,
                    x < self.width,
                    self.wf(),
                    self@.same_shape(start),
                    self@.initialized == start.initialized,
                    !start.initialized ==> start.no_bombs(),
                    self@.same_bombs(start),
                    forall|a: int, b: int|
                        start.in_bounds(a, b) ==> #[trigger] self@.at(a, b) == if a < x || (a == x
                            && b < y) {
                            revealed_cell(start.at(a, b), start.bomb_count(a, b))
                        } else {
                            start.at(a, b)
                        },
            {
                let bombs = self.count_bombs(x, y);
                proof {
                    lemma_bombs_among_same(self@, start, x as int, y as int, 8);
                }
                let ghost before = self@;
                let cell = self.get_mut(x, y).unwrap();
                let ghost c0 = *cell;
                match cell {
                    Cell::Empty => cell.uncover(bombs),
                    Cell::Bomb => {
                        cell.place_flag();
                    },
                    Cell::Flagged { is_bomb } => {
                        if !*is_bomb {
                            cell.uncover(bombs);
                        }
                    },
                    Cell::Uncovered { .. } => {},
                }
                proof {
                    let nc = revealed_cell(c0, start.bomb_count(x as int, y as int));
                    assert(self@ == before.set_at(x as int, y as int, nc));
                    lemma_set_at(before, x as int, y as int, nc);
                    assert forall|a: int, b: int| #[trigger] self@.bomb_at(a, b) == start.bomb_at(a, b) by {
                        assert(before.bomb_at(a, b) == start.bomb_at(a, b));
                    }
                }
            }
        }
    }

    /// The positions that may receive a bomb when the first click is at
    /// `(initial_x, initial_y)`, row by row.
    fn mine_candidates(&self, initial_x: usize, initial_y: usize) -> (v: Vec<(usize, usize)>)
        requires
            self.wf(),
        ensures
            v@ == self@.mine_candidates(initial_x as int, initial_y as int),
    {
        let ghost ix = initial_x as int;
        let ghost iy = initial_y as int;
        let mut v: Vec<(usize, usize)> = Vec::new();
        let width = self.width;
        let height = self.height;
        for y in 0..height
            invariant
                self.wf(),
                ix == initial_x,
                iy == initial_y,
                width == self@.width,
                height == self@.height,
                v@ == self@.candidates_upto(y as nat, ix, iy),
        {
            let ghost before = v@;
            for x in 0..width
                invariant
                    self.wf(),
                    ix == initial_x,
                    iy == initial_y,
                    width == self@.width,
                    height == self@.height,
                    y < height,
                    v@ == before + self@.row_candidates(y as nat, x as nat, ix, iy),
            {
                let c = self.get(x, y).unwrap();
                let ghost cand = self@.is_candidate(x as int, y as int, ix, iy);
                let ghost prev = v@;
                assert(self@.row_candidates(y as nat, (x + 1) as nat, ix, iy) == self@.row_candidates(
                    y as nat,
                    x as nat,
                    ix,
                    iy,
                ) + if cand {
                    seq![(x, y)]
                } else {
                    Seq::empty()
                });
                if matches!(c, Cell::Empty) && !near(x, y, initial_x, initial_y, 1) {
                    v.push((x, y));
                    assert(cand);
                } else {
                    assert(!cand);
                }
                assert(v@ =~= before + self@.row_candidates(y as nat, (x + 1) as nat, ix, iy));
            }
            assert(v@ =~= self@.candidates_upto((y + 1) as nat, ix, iy));
        }
        v
    }

    /// Lay bombs on the proposed positions, in order, marking the field as initialized.
    /// A proposal is taken while fewer than the mode's number of bombs are laid and
    /// it is a plain covered cell of the field that is neither `(initial_x, initial_y)`
    /// nor one of its neighbours; any other proposal is skipped.
    pub fn place_mines(&mut self, initial_x: usize, initial_y: usize, proposals: &Vec<(usize, usize)>)
        requires
            old(self).wf(),
        ensures
            final(self)@ == (FieldState { initialized: true, ..old(self)@ }).with_proposals(
                initial_x as int,
                initial_y as int,
                0,
                proposals@,
            ),
            final(self).wf(),
    {
        self.initialized = true;
        let ghost ix = initial_x as int;
        let ghost iy = initial_y as int;
        let ghost start = self@;
        let mut mines: usize = 0;
        let n = proposals.len();
        assert(proposals@.skip(0) =~= proposals@);
        for k in 0..n
            invariant
                self.wf(),
                self@.initialized,
                ix == initial_x,
                iy == initial_y,
                n == proposals@.len(),
                mines <= self@.num_mines,
                self@.num_mines == start.num_mines,
                start.wf(),
                start.with_proposals(ix, iy, 0, proposals@) == self@.with_proposals(
                    ix,
                    iy,
                    mines as nat,
                    proposals@.skip(k as int),
                ),
        {
            let (x, y) = proposals[k];
            let ghost rest = proposals@.skip(k as int);
            assert(rest[0] == (x, y));
            assert(rest.drop_first() =~= proposals@.skip(k + 1));
            if mines < self.num_mines && x < self.width && y < self.height && !near(
                x,
                y,
                initial_x,
                initial_y,
                1,
            ) {
                let ghost before = self@;
                let cell = self.get_mut(x, y).unwrap();
                let ghost c0 = *cell;
                if matches!(cell, Cell::Empty) {
                    cell.place_bomb();
                    mines += 1;
                    proof {
                        lemma_set_at(before, x as int, y as int, Cell::Bomb);
                    }
                } else {
                    proof {
                        lemma_set_at(before, x as int, y as int, c0);
                        lemma_index_in_range(x as int, y as int, before.width as int, before.height as int);
                        assert(self@.cells =~= before.cells);
                    }
                }
            }
        }
        proof {
            lemma_with_proposals_shape(self@, ix, iy, mines as nat, proposals@.skip(n as int));
        }
    }

    // initialize Field from initial position, by placing `num_mines` bombs on random positions,
    // which requires room for them all (else it would search for a free cell forever).
    // The initial position and all neighboring cells are guaranteed to not contain bombs.
    fn initialize(&mut self, initial_x: usize, initial_y: usize)
        requires
            old(self).wf(),
            old(self)@.num_mines <= old(self)@.mine_candidates(initial_x as int, initial_y as int).len(),
        ensures
            final(self).wf(),
            final(self)@.empties_within(old(self)@),
            old(self)@.mined_into(initial_x as int, initial_y as int, final(self)@),
    {
        let ghost ix = initial_x as int;
        let ghost iy = initial_y as int;
        let ghost st = self@;
        let mut pool = self.mine_candidates(initial_x, initial_y);
        let ghost cands = pool@;
        proof {
            lemma_candidates_upto(st, st.height, ix, iy);
        }
        let mut picks: Vec<(usize, usize)> = Vec::new();
        let ghost mut draws: Seq<usize> = Seq::empty();
        while picks.len() < self.num_mines
            invariant
                st.num_mines <= cands.len(),
                valid_draws(cands.len(), draws),
                draws.len() == picks.len(),
                pool@ == left_after(cands, draws),
                picks@ == drawn(cands, draws),
                self@ == st,
                st.wf(),
                cands == st.mine_candidates(ix, iy),
                cands.no_duplicates(),
                pool@.no_duplicates(),
                picks@.no_duplicates(),
                picks.len() + pool.len() == cands.len(),
                picks.len() <= st.num_mines,
                forall|k: int| 0 <= k < pool.len() ==> cands.contains(#[trigger] pool@[k]),
                forall|k: int| 0 <= k < picks.len() ==> cands.contains(#[trigger] picks@[k]),
                forall|k: int| 0 <= k < picks.len() ==> !pool@.contains(#[trigger] picks@[k]),
            decreases st.num_mines - picks.len(),
        {
            let ghost old_pool = pool@;
            let ghost old_picks = picks@;
            let k = random_below(pool.len());
            let p = pool.remove(k);
            picks.push(p);
            proof {
                lemma_draw_step(cands, draws, k);
                draws = draws.push(k);
                assert forall|i: int| 0 <= i < pool.len() implies cands.contains(#[trigger] pool@[i]) by {
                    if i < k {
                        assert(pool@[i] == old_pool[i]);
                    } else {
                        assert(pool@[i] == old_pool[i + 1]);
                    }
                }
                assert(pool@.no_duplicates()) by {
                    assert forall|i: int, j: int|
                        0 <= i < pool.len() && 0 <= j < pool.len() && i != j implies pool@[i]
                        != pool@[j] by {
                        let oi = if i < k { i } else { i + 1 };
                        let oj = if j < k { j } else { j + 1 };
                        assert(pool@[i] == old_pool[oi]);
                        assert(pool@[j] == old_pool[oj]);
                    }
                }
                assert forall|i: int| 0 <= i < picks.len() implies !pool@.contains(#[trigger] picks@[i]) by {
                    if pool@.contains(picks@[i]) {
                        let j = choose|j: int| 0 <= j < pool.len() && pool@[j] == picks@[i];
                        let oj = if j < k { j } else { j + 1 };
                        assert(pool@[j] == old_pool[oj]);
                        if i < old_picks.len() {
                            assert(picks@[i] == old_picks[i]);
                            assert(old_pool.contains(old_picks[i]));
                        } else {
                            assert(picks@[i] == old_pool[k as int]);
                        }
                    }
                }
                assert(picks@.no_duplicates()) by {
                    assert forall|i: int, j: int|
                        0 <= i < picks.len() && 0 <= j < picks.len() && i != j implies picks@[i]
                        != picks@[j] by {
                        if i < old_picks.len() && j < old_picks.len() {
                            assert(picks@[i] == old_picks[i]);
                            assert(picks@[j] == old_picks[j]);
                        } else if i < old_picks.len() {
                            assert(picks@[i] == old_picks[i]);
                            assert(!old_pool.contains(old_picks[i]));
                        } else {
                            assert(picks@[j] == old_picks[j]);
                            assert(!old_pool.contains(old_picks[j]));
                        }
                    }
                }
            }
        }
        proof {
            let mid = FieldState { initialized: true, ..st };
            assert forall|k: int| 0 <= k < picks@.len() implies mid.is_candidate(
                (#[trigger] picks@[k]).0 as int,
                picks@[k].1 as int,
                ix,
                iy,
            ) by {
                assert(cands.contains(picks@[k]));
            }
            lemma_proposals_all_placed(mid, ix, iy, 0, picks@);
            lemma_with_proposals_shape(mid, ix, iy, 0, picks@);
        }
        self.place_mines(initial_x, initial_y, &picks);
        proof {
            let placed = picks@;
            assert forall|a: int, b: int| st.in_bounds(a, b) implies #[trigger] self@.at(a, b)
                == if placed.contains((a as usize, b as usize)) {
                Cell::Bomb
            } else {
                st.at(a, b)
            } by {
                assert((FieldState { initialized: true, ..st }).in_bounds(a, b));
            }
            assert(st.mined_into(ix, iy, self@));
        }
    }

    /// Whether a click at `(x, y)` finds room for every bomb: the bombs are already laid,
    /// or at least as many cells may receive one as the mode asks for.
    pub fn room_for_mines(&self, x: usize, y: usize) -> (b: bool)
        requires
            self.wf(),
        ensures
            b == self@.room_for_mines(x as int, y as int),
    {
        self.initialized || self.num_mines <= self.mine_candidates(x, y).len()
    }

    /// Click cell at position `(x, y)`.
    /// The first click lays the bombs, none of them on `(x, y)` or its neighbours.
    /// Will return true, and uncover the cell, if the cell was empty, and false if cell contained a bomb.
    /// If cell was empty, and had 0 surrounding bombs, click will recurse and click all
    /// surrounding cells.
    /// If position is invalid or was already clicked, an error message is returned.
    pub fn click(&mut self, x: usize, y: usize) -> (r: Result<bool, String>)
        requires
            old(self).wf(),
            old(self)@.room_for_mines(x as int, y as int),
        ensures
            final(self).wf(),
            old(self)@.clicked(x as int, y as int, r, final(self)@),
        decreases empty_count(old(self)@.cells),
    {
        if !self.initialized {
            self.initialize(x, y);
        }
        let ghost st = self@;
        assert(st.initialized);
        proof {
            if !old(self)@.initialized && old(self)@.in_bounds(x as int, y as int) {
                lemma_first_click_clear(old(self)@, x as int, y as int, st);
            }
        }

        let cell = match self.get(x, y) {
            Ok(cell) => cell,
            Err(e) => return Err(e),
        };
        let num_bombs = match cell {
            Cell::Empty => self.count_bombs(x, y),
            Cell::Bomb => return Ok(false),
            Cell::Uncovered { .. } => return Err("This Cell is already uncovered.".to_owned()),
            Cell::Flagged { .. } => {
                return Err("This Cell is flagged, and cannot be clicked.".to_owned())
            },
        };

        self.get_mut(x, y).unwrap().uncover(num_bombs);
        proof {
            lemma_set_at(st, x as int, y as int, Cell::Uncovered { num_bombs });
            lemma_index_in_range(x as int, y as int, st.width as int, st.height as int);
            lemma_empty_count_decreases(
                old(self)@.cells,
                self@.cells,
                x + y * st.width,
            );
        }

        // recurse through all neighboring cells
        let dx: [isize; 8] = [-1, -1, -1, 0, 0, 1, 1, 1];
        let dy: [isize; 8] = [-1, 0, 1, -1, 1, -1, 0, 1];
        assert(forall|k: int| 0 <= k < 8 ==> dx@[k] == offset(k).0 && dy@[k] == offset(k).1);
        if num_bombs == 0 {
            proof {
                lemma_spread_start(st, x as int, y as int);
            }
            for d in 0..8
                invariant
                    self.wf(),
                    st.wf(),
                    st.in_bounds(x as int, y as int),
                    st.initialized,
                    forall|k: int| 0 <= k < 8 ==> dx@[k] == offset(k).0 && dy@[k] == offset(k).1,
                    st.spread_progress(x as int, y as int, self@, d as int),
                    self@.empties_within(old(self)@),
                    empty_count(self@.cells) < empty_count(old(self)@.cells),
            {
                let new_x = x as isize + dx[d]; // has to be isize to account for negative values
                let new_y = y as isize + dy[d];
                let ghost before = self@;

                if self.valid_pos(new_x, new_y) {
                    let _ = self.click(new_x as usize, new_y as usize);
                }
                proof {
                    lemma_empty_count_le(before.cells, self@.cells);
                    lemma_spread_step(st, x as int, y as int, before, self@, d as int);
                }
            }
            proof {
                lemma_spread_done(st, x as int, y as int, self@);
            }
        } else {
            proof {
                lemma_reveal_single(st, x as int, y as int, num_bombs);
            }
        }
        proof {
            lemma_revealed_from_props(st, x as int, y as int, self@);
        }

        Ok(true)
    }

    /// Returns an immutable reference to the cell at position `(x, y)`.
    /// if position is out of bounds, an Error message is returned.
    pub fn get(&self, x: usize, y: usize) -> (r: Result<&Cell, String>)
        requires
            self.wf(),
        ensures
            match r {
                Ok(c) => self@.in_bounds(x as int, y as int) && *c == self@.at(x as int, y as int),
                Err(e) => !self@.in_bounds(x as int, y as int) && e@ == out_of_bounds_msg(),
            },
    {
        if x >= self.width || y >= self.height {
            return Err("Access out of Bounds".to_owned());
        }
        proof {
            lemma_index_in_range(x as int, y as int, self.width as int, self.height as int);
            assert(self.width * self.height <= MAX_SIDE * MAX_SIDE) by (nonlinear_arith)
                requires
                    self.width <= MAX_SIDE,
                    self.height <= MAX_SIDE,
            ;
        }
        Ok(&self.cells[x + y * self.width])
    }

    /// Returns a mutable reference to the cell at position `(x, y)`.
    /// if position is out of bounds, an Error message is returned.
    fn get_mut(&mut self, x: usize, y: usize) -> (r: Result<&mut Cell, String>)
        requires
            old(self).wf(),
        ensures
            match r {
                Ok(c) => {
                    &&& old(self)@.in_bounds(x as int, y as int)
                    &&& *c == old(self)@.at(x as int, y as int)
                    &&& final(self)@ == old(self)@.set_at(x as int, y as int, *final(c))
                },
                Err(e) => {
                    &&& !old(self)@.in_bounds(x as int, y as int)
                    &&& e@ == out_of_bounds_msg()
                    &&& final(self)@ == old(self)@
                },
            },
    {
        if x >= self.width || y >= self.height {
            return Err("Access out of Bounds".to_owned());
        }
        proof {
            lemma_index_in_range(x as int, y as int, self.width as int, self.height as int);
            assert(self.width * self.height <= MAX_SIDE * MAX_SIDE) by (nonlinear_arith)
                requires
                    self.width <= MAX_SIDE,
                    self.height <= MAX_SIDE,
            ;
        }
        Ok(&mut self.cells[x + y * self.width])
    }

    /// test if `(x, y)` is a valid position
    fn valid_pos(&self, x: isize, y: isize) -> (b: bool)
        ensures
            b == self@.in_bounds(x as int, y as int),
    {
        x >= 0 && (x as usize) < self.width && y >= 0 && (y as usize) < self.height
    }

    /// Counts the number of neighboring bombs at position `(x, y)`.
    /// Only intended for internal use, on valid positions.
    fn count_bombs(&self, x: usize, y: usize) -> (count: u8)
        requires
            self.wf(),
            self@.in_bounds(x as int, y as int),
        ensures
            count == self@.bomb_count(x as int, y as int),
    {
        let mut count: u8 = 0;

        let dx: [isize; 8] = [-1, -1, -1, 0, 0, 1, 1, 1];
        let dy: [isize; 8] = [-1, 0, 1, -1, 1, -1, 0, 1];
        assert(forall|k: int| 0 <= k < 8 ==> dx@[k] == offset(k).0 && dy@[k] == offset(k).1);
        for d in 0..8
            invariant
                self.wf(),
                self@.in_bounds(x as int, y as int),
                forall|k: int| 0 <= k < 8 ==> dx@[k] == offset(k).0 && dy@[k] == offset(k).1,
                count == self@.bombs_among(x as int, y as int, d as nat),
                count <= d,
        {
            let new_x = x as isize + dx[d];
            let new_y = y as isize + dy[d];
            assert(new_x == x + offset(d as int).0 && new_y == y + offset(d as int).1);

            if self.valid_pos(new_x, new_y) && self.get(new_x as usize, new_y as usize).unwrap().is_bomb() {
                count += 1;
            }
        }

        count
    }
}

} // verus!
