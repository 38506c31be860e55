//! The playing field, the active piece, and the rules of play: moving,
//! rotating, locking, clearing rows and the speed of gravity.

use crate::random::{draw_below, thread_source};
use crate::shape::{
    box_height, box_width, cells_view, lemma_shape_cells_wf, shape_cells, Shape, KINDS,
    ORIENTATIONS,
};
use rand::rngs::ThreadRng;
use vstd::prelude::*;

verus! {

/// Number of columns of the playing field.
pub const BOARD_WIDTH: u8 = 10;

/// Number of rows of the playing field.
pub const BOARD_HEIGHT: u8 = 20;

/// Ticks that one level lasts.
pub const LEVEL_TICK_INCREASE: u64 = 6000;

/// Length of the cycle of ticks in which gravity acts.
pub const FRAMES_PER_DROP: u64 = 30;

/// A row of the field with every cell empty.
pub open spec fn empty_row() -> Seq<u8> {
    Seq::new(BOARD_WIDTH as nat, |x: int| 0u8)
}

/// A field with every cell empty.
pub open spec fn empty_grid() -> Seq<Seq<u8>> {
    Seq::new(BOARD_HEIGHT as nat, |y: int| empty_row())
}

/// Every cell of the row is occupied.
pub open spec fn row_filled(row: Seq<u8>) -> bool {
    forall|x: int| 0 <= x < BOARD_WIDTH ==> row[x] != 0
}

/// The field after row `row` is removed: every row above it moves one down
/// and the top row becomes empty.
pub open spec fn collapse(g: Seq<Seq<u8>>, row: int) -> Seq<Seq<u8>> {
    Seq::new(
        BOARD_HEIGHT as nat,
        |y: int|
            if y == 0 {
                empty_row()
            } else if y <= row {
                g[y - 1]
            } else {
                g[y]
            },
    )
}

/// The grid of the field: `BOARD_HEIGHT` rows of `BOARD_WIDTH` cells, each 0
/// when empty and otherwise one more than the kind of the piece that left it.
pub struct Board {
    board: [[u8; 10]; 20],
}

impl View for Board {
    type V = Seq<Seq<u8>>;

    closed spec fn view(&self) -> Seq<Seq<u8>> {
        self.board@.map_values(|row: [u8; 10]| row@)
    }
}

/// A grid of the field's size.
pub open spec fn grid_shape(g: Seq<Seq<u8>>) -> bool {
    &&& g.len() == BOARD_HEIGHT
    &&& forall|y: int| 0 <= y < BOARD_HEIGHT ==> #[trigger] g[y].len() == BOARD_WIDTH
}

impl Board {
    /// The grid always has the field's size.
    pub proof fn lemma_grid_shape(&self)
        ensures
            grid_shape(self@),
    {
        assert forall|y: int| 0 <= y < BOARD_HEIGHT implies #[trigger] self@[y].len()
            == BOARD_WIDTH by {
            assert(self@[y] == self.board@[y]@);
        }
    }

    /// Writes `v` into the cell in column `x` of row `y`.
    pub fn set(&mut self, x: u8, y: u8, v: u8)
        requires
            x < BOARD_WIDTH,
            y < BOARD_HEIGHT,
            v <= KINDS,
        ensures
            final(self)@ == old(self)@.update(y as int, old(self)@[y as int].update(x as int, v)),
    {
        let mut row = self.board[y as usize];
        row[x as usize] = v;
        self.board[y as usize] = row;
        assert(self@ =~~= old(self)@.update(y as int, old(self)@[y as int].update(x as int, v)));
    }

    /// The cell in column `x` of row `y`.
    pub fn get(&self, x: u8, y: u8) -> (v: u8)
        requires
            x < BOARD_WIDTH,
            y < BOARD_HEIGHT,
        ensures
            v == self@[y as int][x as int],
    {
        self.board[y as usize][x as usize]
    }

    /// Whether every cell of row `row` is occupied.
    pub fn is_filled(&self, row: u8) -> (full: bool)
        requires
            row < BOARD_HEIGHT,
        ensures
            full == row_filled(self@[row as int]),
    {
        let cells = self.board[row as usize];
        let mut x: usize = 0;
        while x < 10
            invariant
                x <= 10,
                cells@ == self@[row as int],
                forall|i: int| 0 <= i < x ==> cells@[i] != 0,
            decreases 10 - x,
        {
            if cells[x] == 0 {
                return false;
            }
            x += 1;
        }
        true
    }

    /// Removes row `row`: each row above it moves one row down, and the top
    /// row becomes empty.
    pub fn wipe(&mut self, row: u8)
        requires
            row < BOARD_HEIGHT,
        ensures
            final(self)@ == collapse(old(self)@, row as int),
            final(self)@[0] == empty_row(),
            row > 0 ==> final(self)@[row as int] == old(self)@[row - 1],
    {
        let ghost g = old(self)@;
        let ghost rows = old(self).board@;
        let mut i: u8 = row;
        while i > 0
            invariant
                i <= row < BOARD_HEIGHT,
                rows.len() == BOARD_HEIGHT,
                self.board@.len() == BOARD_HEIGHT,
                forall|y: int| 0 <= y <= i ==> #[trigger] self.board@[y] == rows[y],
                forall|y: int| i < y <= row ==> #[trigger] self.board@[y] == rows[y - 1],
                forall|y: int| row < y < BOARD_HEIGHT ==> #[trigger] self.board@[y] == rows[y],
            decreases i,
        {
            let above = self.board[(i - 1) as usize];
            self.board[i as usize] = above;
            i -= 1;
        }
        self.board[0] = [0u8; 10];
        assert(self@ =~~= collapse(g, row as int));
    }
}

impl Default for Board {
    fn default() -> (b: Board)
        ensures
            b@ == empty_grid(),
    {
        let b = Board { board: [[0u8; 10]; 20] };
        assert(b@ =~~= empty_grid());
        b
    }
}

/// The cells of piece `kind` in orientation `r` with the corner of its box at
/// column `x`, row `y`.
pub open spec fn placed(kind: int, r: int, x: int, y: int) -> Seq<(int, int)> {
    shape_cells(kind, r).map_values(|c: (int, int)| (c.0 + x, c.1 + y))
}

/// The grid `g` with every cell of `cells` set to `v`.
#[verifier::opaque]
pub open spec fn painted(g: Seq<Seq<u8>>, cells: Seq<(int, int)>, v: u8) -> Seq<Seq<u8>> {
    Seq::new(
        BOARD_HEIGHT as nat,
        |y: int|
            Seq::new(
                BOARD_WIDTH as nat,
                |x: int|
                    if cells.contains((x, y)) {
                        v
                    } else {
                        g[y][x]
                    },
            ),
    )
}

/// Painting one more cell of a list is writing that cell.
proof fn lemma_paint_one_more(g: Seq<Seq<u8>>, cells: Seq<(int, int)>, i: int, v: u8)
    requires
        grid_shape(g),
        0 <= i < cells.len(),
        0 <= cells[i].0 < BOARD_WIDTH,
        0 <= cells[i].1 < BOARD_HEIGHT,
    ensures
        grid_shape(painted(g, cells.subrange(0, i), v)),
        painted(g, cells.subrange(0, i + 1), v) == painted(g, cells.subrange(0, i), v).update(
            cells[i].1,
            painted(g, cells.subrange(0, i), v)[cells[i].1].update(cells[i].0, v),
        ),
{
    let s0 = cells.subrange(0, i);
    let s1 = cells.subrange(0, i + 1);
    assert forall|q: (int, int)| s1.contains(q) <==> (s0.contains(q) || q == cells[i]) by {
        if s1.contains(q) {
            let j = choose|j: int| 0 <= j < s1.len() && s1[j] == q;
            if j < i {
                assert(s0[j] == q);
            }
        }
        if s0.contains(q) {
            let j = choose|j: int| 0 <= j < s0.len() && s0[j] == q;
            assert(s1[j] == q);
        }
        if q == cells[i] {
            assert(s1[i] == q);
        }
    }
    reveal(painted);
    let p0 = painted(g, s0, v);
    let p1 = painted(g, s1, v);
    assert(p1 =~~= p0.update(cells[i].1, p0[cells[i].1].update(cells[i].0, v)));
}

/// A move that a player or gravity asks of the active piece.
#[derive(Clone, Copy, Debug, PartialEq, Eq)]
pub enum Move {
    Left,
    Right,
    Down,
    Rotate,
}

/// The active piece: a shape in one of its orientations, with the corner of
/// its bounding box at column `x`, row `y` of the field.
pub struct Tetromino {
    pub x: u8,
    pub y: u8,
    pub orientation: u8,
    pub shape: Shape,
}

impl Tetromino {
    /// The piece's cells relative to the corner of its box.
    pub open spec fn cells(&self) -> Seq<(int, int)> {
        shape_cells(self.shape@ as int, self.orientation as int)
    }

    pub open spec fn width(&self) -> int {
        box_width(self.cells())
    }

    pub open spec fn height(&self) -> int {
        box_height(self.cells())
    }

    /// The field cells that the piece covers.
    pub open spec fn footprint(&self) -> Seq<(int, int)> {
        placed(self.shape@ as int, self.orientation as int, self.x as int, self.y as int)
    }

    /// The value that the piece leaves in the cells it covers.
    pub open spec fn paint(&self) -> u8 {
        (self.shape@ + 1) as u8
    }

    /// The piece has a valid kind and orientation and lies inside the field.
    pub open spec fn wf(&self) -> bool {
        &&& self.shape@ < KINDS
        &&& self.orientation < ORIENTATIONS
        &&& self.x + self.width() <= BOARD_WIDTH
        &&& self.y + self.height() <= BOARD_HEIGHT
    }

    /// The cells of a well-formed piece are inside the field.
    pub proof fn lemma_on_field(&self)
        requires
            self.wf(),
        ensures
            self.footprint().len() == 4,
            1 <= self.width() <= 4,
            1 <= self.height() <= 4,
            forall|i: int|
                0 <= i < 4 ==> 0 <= #[trigger] self.footprint()[i].0 < BOARD_WIDTH && 0
                    <= self.footprint()[i].1 < BOARD_HEIGHT,
    {
        lemma_shape_cells_wf(self.shape@ as int, self.orientation as int);
        assert forall|i: int| 0 <= i < 4 implies 0 <= #[trigger] self.footprint()[i].0
            < BOARD_WIDTH && 0 <= self.footprint()[i].1 < BOARD_HEIGHT by {
            assert(self.footprint()[i] == (self.cells()[i].0 + self.x, self.cells()[i].1 + self.y));
        }
    }

    /// How many columns a new piece of `shape` in orientation `orientation`
    /// can start in: those where its box fits inside the field.
    pub fn spawn_columns(shape: &Shape, orientation: u8) -> (n: u8)
        requires
            orientation < ORIENTATIONS,
        ensures
            n as int == BOARD_WIDTH - box_width(shape_cells(shape@ as int, orientation as int)) + 1,
    {
        let (width, _) = shape.dim(orientation);
        BOARD_WIDTH - width + 1
    }

    /// A new piece of kind `kind` in orientation `orientation`, at the top of
    /// the field with the corner of its box in column `column`.
    pub fn spawn(kind: u8, orientation: u8, column: u8) -> (t: Self)
        requires
            kind < KINDS,
            orientation < ORIENTATIONS,
            column + box_width(shape_cells(kind as int, orientation as int)) <= BOARD_WIDTH,
        ensures
            t.shape@ == kind,
            t.orientation == orientation,
            t.x == column,
            t.y == 0,
            t.wf(),
    {
        proof {
            lemma_shape_cells_wf(kind as int, orientation as int);
        }
        Tetromino { shape: Shape::new(kind), orientation, x: column, y: 0 }
    }

    /// A new piece at the top of the field: orientation, kind and column are
    /// drawn from `rng`, the column among those where the piece fits.
    pub fn new(rng: &mut ThreadRng) -> (t: Self)
        ensures
            t.wf(),
            t.y == 0,
    {
        let orientation = draw_below(rng, ORIENTATIONS);
        let shape = Shape::random(rng);
        let columns = Self::spawn_columns(&shape, orientation);
        proof {
            lemma_shape_cells_wf(shape@ as int, orientation as int);
        }
        let column = draw_below(rng, columns);
        Self::spawn(shape.kind(), orientation, column)
    }
}

/// Where a move would take piece `t`, before any look at the field: `None`
/// when it would leave the field at once (a step left from column 0, a step
/// right at the right wall, or a box that would reach below the bottom row).
/// A rotation that pushes the box past the right wall shifts it left to fit.
pub open spec fn target(t: Tetromino, m: Move) -> Option<Tetromino> {
    let n = match m {
        Move::Left => if t.x == 0 {
            None
        } else {
            Some(Tetromino { x: (t.x - 1) as u8, ..t })
        },
        Move::Right => if t.x + t.width() >= BOARD_WIDTH {
            None
        } else {
            Some(Tetromino { x: (t.x + 1) as u8, ..t })
        },
        Move::Down => Some(Tetromino { y: (t.y + 1) as u8, ..t }),
        Move::Rotate => {
            let r = ((t.orientation + 1) % 4) as u8;
            let w = box_width(shape_cells(t.shape@ as int, r as int));
            let x = if t.x + w > BOARD_WIDTH {
                (BOARD_WIDTH - w) as u8
            } else {
                t.x
            };
            Some(Tetromino { x, orientation: r, ..t })
        },
    };
    match n {
        Some(n) => if n.y + n.height() > BOARD_HEIGHT {
            None
        } else {
            Some(n)
        },
        None => None,
    }
}

/// Cell `p` is inside the field and either empty or covered by `cells`.
pub open spec fn free_for(g: Seq<Seq<u8>>, cells: Seq<(int, int)>, p: (int, int)) -> bool {
    &&& 0 <= p.0 < BOARD_WIDTH
    &&& 0 <= p.1 < BOARD_HEIGHT
    &&& (g[p.1][p.0] == 0 || cells.contains(p))
}

/// Piece `n` fits on grid `g` once piece `t` is lifted off it.
pub open spec fn fits(g: Seq<Seq<u8>>, t: Tetromino, n: Tetromino) -> bool {
    forall|i: int| 0 <= i < 4 ==> #[trigger] free_for(g, t.footprint(), n.footprint()[i])
}

/// The outcome of move `m` of piece `t` on grid `g`: the new grid and piece,
/// or `None` when the move is refused.
pub open spec fn step(g: Seq<Seq<u8>>, t: Tetromino, m: Move) -> Option<(Seq<Seq<u8>>, Tetromino)> {
    match target(t, m) {
        Some(n) => if fits(g, t, n) {
            Some((painted(painted(g, t.footprint(), 0), n.footprint(), t.paint()), n))
        } else {
            None
        },
        None => None,
    }
}

/// The level reached after `tick` ticks.
pub open spec fn level_of(tick: int) -> int {
    1 + tick / (LEVEL_TICK_INCREASE as int)
}

/// Gravity acts on tick `tick`: within each cycle of `FRAMES_PER_DROP` ticks
/// it acts on as many ticks as the level, up to every tick.
pub open spec fn drops_at(tick: int) -> bool {
    tick % (FRAMES_PER_DROP as int) <= tick / (LEVEL_TICK_INCREASE as int)
}

/// The tick counter after one more tick; it wraps to 0 at `u64::MAX`.
pub open spec fn next_tick(tick: int) -> int {
    (tick + 1) % (u64::MAX as int)
}

/// The level reached after `tick` ticks.
pub fn level_at(tick: u64) -> (l: u64)
    ensures
        l == level_of(tick as int),
{
    1 + tick / LEVEL_TICK_INCREASE
}

/// Whether gravity acts on tick `tick`.
pub fn gravity_due(tick: u64) -> (due: bool)
    ensures
        due == drops_at(tick as int),
{
    tick % FRAMES_PER_DROP <= tick / LEVEL_TICK_INCREASE
}

/// The level never goes down as ticks pass.
pub proof fn lemma_level_monotone(t1: int, t2: int)
    requires
        0 <= t1 <= t2,
    ensures
        level_of(t1) <= level_of(t2),
{
    vstd::arithmetic::div_mod::lemma_div_is_ordered(t1, t2, LEVEL_TICK_INCREASE as int);
}

/// Gravity acts at least as often later: a tick at the same place in the
/// drop cycle, but later, is a drop tick whenever the earlier one is.
pub proof fn lemma_gravity_more_often(t1: int, t2: int)
    requires
        0 <= t1 <= t2,
        t1 % (FRAMES_PER_DROP as int) == t2 % (FRAMES_PER_DROP as int),
    ensures
        drops_at(t1) ==> drops_at(t2),
{
    vstd::arithmetic::div_mod::lemma_div_is_ordered(t1, t2, LEVEL_TICK_INCREASE as int);
}

/// In the cycle of `FRAMES_PER_DROP` ticks that starts at tick
/// `FRAMES_PER_DROP * c`, gravity acts on exactly the first `level` ticks,
/// where `level` is the level at the start of the cycle, and so on every
/// tick from level `FRAMES_PER_DROP` on.
pub proof fn lemma_gravity_cycle(c: int, o: int)
    requires
        0 <= c,
        0 <= o < FRAMES_PER_DROP,
    ensures
        drops_at(FRAMES_PER_DROP * c + o) <==> o < level_of(FRAMES_PER_DROP * c),
{
    let t = 30 * c + o;
    let q = c / 200;
    let k = c % 200;
    assert(c == 200 * q + k && 0 <= k < 200);
    assert(30 * c == 6000 * q + 30 * k);
    assert(t == 6000 * q + (30 * k + o));
    assert(0 <= 30 * k + o < 6000);
    vstd::arithmetic::div_mod::lemma_fundamental_div_mod_converse(t, 6000, q, 30 * k + o);
    vstd::arithmetic::div_mod::lemma_fundamental_div_mod_converse(30 * c, 6000, q, 30 * k);
    vstd::arithmetic::div_mod::lemma_fundamental_div_mod_converse(t, 30, c, o);
}

/// From the tick where the level passes `FRAMES_PER_DROP - 1` on, gravity
/// acts on every tick.
pub proof fn lemma_gravity_every_tick(t: int)
    requires
        0 <= t,
        t / (LEVEL_TICK_INCREASE as int) >= FRAMES_PER_DROP - 1,
    ensures
        drops_at(t),
{
}

/// Rows `row` up to `end` (excluded) checked from the top down: each full
/// one is removed as it is reached. The new grid, and how many rows went.
pub open spec fn sweep(g: Seq<Seq<u8>>, row: int, end: int) -> (Seq<Seq<u8>>, nat)
    decreases end - row,
{
    if row >= end {
        (g, 0)
    } else {
        let full = row_filled(g[row]);
        let rest = sweep(
            if full {
                collapse(g, row)
            } else {
                g
            },
            row + 1,
            end,
        );
        (rest.0, rest.1 + if full {
            1nat
        } else {
            0nat
        })
    }
}

/// The rows of `rows` that are not full, in their order.
pub open spec fn open_rows(rows: Seq<Seq<u8>>) -> Seq<Seq<u8>>
    decreases rows.len(),
{
    if rows.len() == 0 {
        rows
    } else {
        let rest = open_rows(rows.drop_first());
        if row_filled(rows[0]) {
            rest
        } else {
            seq![rows[0]] + rest
        }
    }
}

/// `n` empty rows.
pub open spec fn empty_rows(n: nat) -> Seq<Seq<u8>> {
    Seq::new(n, |i: int| empty_row())
}

/// Removing a row keeps the field's size.
proof fn lemma_collapse_shape(g: Seq<Seq<u8>>, row: int)
    requires
        grid_shape(g),
        0 <= row < BOARD_HEIGHT,
    ensures
        grid_shape(collapse(g, row)),
{
    assert forall|y: int| 0 <= y < BOARD_HEIGHT implies #[trigger] collapse(g, row)[y].len()
        == BOARD_WIDTH by {
        if y > 0 && y <= row {
            assert(g[y - 1].len() == BOARD_WIDTH);
        }
    }
}

/// Clearing rows `lo` up to `end` removes exactly the rows among them that
/// were full beforehand, whichever order they are checked in: the rows above
/// `lo` and the open rows of the range keep their order and move down, as
/// many empty rows as were removed fill the top, and the rows from `end` on
/// stay where they are.
pub proof fn lemma_sweep_removes_full_rows(g: Seq<Seq<u8>>, lo: int, end: int)
    requires
        grid_shape(g),
        0 <= lo <= end <= BOARD_HEIGHT,
    ensures
        ({
            let kept = open_rows(g.subrange(lo, end));
            let r = sweep(g, lo, end);
            &&& r.1 == (end - lo) - kept.len()
            &&& r.0 == empty_rows(r.1) + g.subrange(0, lo) + kept + g.subrange(
                end,
                BOARD_HEIGHT as int,
            )
        }),
    decreases end - lo,
{
    let s = g.subrange(lo, end);
    if lo == end {
        assert(s.len() == 0);
        assert(g =~= empty_rows(0) + g.subrange(0, lo) + open_rows(s) + g.subrange(
            end,
            BOARD_HEIGHT as int,
        ));
    } else {
        assert(s.drop_first() =~= g.subrange(lo + 1, end));
        assert(s[0] == g[lo]);
        let kept1 = open_rows(g.subrange(lo + 1, end));
        if row_filled(g[lo]) {
            let g1 = collapse(g, lo);
            lemma_collapse_shape(g, lo);
            lemma_sweep_removes_full_rows(g1, lo + 1, end);
            assert(g1.subrange(lo + 1, end) =~= g.subrange(lo + 1, end));
            assert(g1.subrange(end, BOARD_HEIGHT as int) =~= g.subrange(end, BOARD_HEIGHT as int));
            assert(g1.subrange(0, lo + 1) =~= seq![empty_row()] + g.subrange(0, lo));
            let c1 = sweep(g1, lo + 1, end).1;
            assert(empty_rows(c1 + 1) =~= empty_rows(c1) + seq![empty_row()]);
            assert(sweep(g, lo, end).0 =~= empty_rows(c1 + 1) + g.subrange(0, lo) + kept1
                + g.subrange(end, BOARD_HEIGHT as int));
        } else {
            lemma_sweep_removes_full_rows(g, lo + 1, end);
            assert(g.subrange(0, lo + 1) + kept1 =~= g.subrange(0, lo) + (seq![g[lo]] + kept1));
            let c1 = sweep(g, lo + 1, end).1;
            assert(sweep(g, lo, end).0 =~= empty_rows(c1) + g.subrange(0, lo) + (seq![g[lo]]
                + kept1) + g.subrange(end, BOARD_HEIGHT as int));
        }
    }
}

/// Clearing a range of rows none of which is full changes nothing.
proof fn lemma_sweep_none_full(g: Seq<Seq<u8>>, row: int, end: int)
    requires
        grid_shape(g),
        0 <= row <= end <= BOARD_HEIGHT,
        forall|y: int| row <= y < end ==> !row_filled(#[trigger] g[y]),
    ensures
        sweep(g, row, end) == (g, 0nat),
    decreases end - row,
{
    if row < end {
        lemma_sweep_none_full(g, row + 1, end);
    }
}

/// When exactly one row `r` of the range `lo` up to `end` is full (the row
/// that a locked piece completed), clearing the range removes that row once,
/// moves every row above it one down, empties the top row, and counts one.
pub proof fn lemma_sweep_one_full_row(g: Seq<Seq<u8>>, lo: int, r: int, end: int)
    requires
        grid_shape(g),
        0 <= lo <= r < end <= BOARD_HEIGHT,
        row_filled(g[r]),
        forall|y: int| lo <= y < end && y != r ==> !row_filled(#[trigger] g[y]),
    ensures
        sweep(g, lo, end) == (collapse(g, r), 1nat),
    decreases r - lo,
{
    if lo < r {
        lemma_sweep_one_full_row(g, lo + 1, r, end);
    } else {
        lemma_collapse_shape(g, r);
        let g1 = collapse(g, r);
        assert forall|y: int| r + 1 <= y < end implies !row_filled(#[trigger] g1[y]) by {
            assert(g1[y] == g[y]);
        }
        lemma_sweep_none_full(g1, r + 1, end);
    }
}

/// A piece that has a cell on the bottom row, or a cell right above an
/// occupied cell that the piece does not cover itself, cannot move down.
pub proof fn lemma_blocked_below(g: Seq<Seq<u8>>, t: Tetromino, i: int)
    requires
        t.wf(),
        grid_shape(g),
        0 <= i < 4,
        ({
            let p = (t.footprint()[i].0, t.footprint()[i].1 + 1);
            p.1 >= BOARD_HEIGHT || (g[p.1][p.0] != 0 && !t.footprint().contains(p))
        }),
    ensures
        step(g, t, Move::Down) is None,
{
    t.lemma_on_field();
    if let Some(n) = target(t, Move::Down) {
        let p = (t.footprint()[i].0, t.footprint()[i].1 + 1);
        assert(n.footprint()[i] == p);
        assert(!free_for(g, t.footprint(), n.footprint()[i]));
    }
}

/// Where piece `t` comes to rest on grid `g` when it falls as far as it can,
/// and the grid with it painted there.
pub open spec fn landing(g: Seq<Seq<u8>>, t: Tetromino) -> (Seq<Seq<u8>>, Tetromino)
    decreases BOARD_HEIGHT - t.y,
{
    match step(g, t, Move::Down) {
        Some(p) => if t.y < p.1.y <= BOARD_HEIGHT {
            landing(p.0, p.1)
        } else {
            p
        },
        None => (g, t),
    }
}

/// What the player asks of the game; quitting is left to the caller.
#[derive(Clone, Copy, Debug, PartialEq, Eq)]
pub enum Intent {
    MoveLeft,
    MoveRight,
    MoveDown,
    Rotate,
    HardDrop,
    TogglePause,
}

/// The state of play: the field, the active piece, the ticks elapsed, the
/// rows cleared so far and whether play is paused.
pub struct Game {
    pub tetromino: Tetromino,
    pub tick: u64,
    pub score: u32,
    pub board: Board,
    pub paused: bool,
    pub rng: ThreadRng,
}

impl Default for Game {
    /// An empty field with a new piece at the top.
    fn default() -> (g: Game)
        ensures
            g.wf(),
            g.board@ == empty_grid(),
            g.tetromino.y == 0,
            g.score == 0,
            g.tick == 0,
            !g.paused,
    {
        let mut rng = thread_source();
        let tetromino = Tetromino::new(&mut rng);
        Game { tetromino, tick: 0, score: 0, board: Board::default(), paused: false, rng }
    }
}

impl Game {
    pub open spec fn wf(&self) -> bool {
        self.tetromino.wf()
    }

    /// The level of play, which rises every `LEVEL_TICK_INCREASE` ticks.
    pub fn level(&self) -> (l: u64)
        ensures
            l == level_of(self.tick as int),
    {
        level_at(self.tick)
    }

    /// Removes each full row among those that the active piece spans, from the
    /// top down, adding one to the score for each, and brings in a new piece.
    pub fn wipe_filled_rows(&mut self)
        requires
            old(self).wf(),
            old(self).score + 4 <= u32::MAX,
        ensures
            final(self).wf(),
            final(self).tetromino.y == 0,
            ({
                let t = old(self).tetromino;
                let r = sweep(old(self).board@, t.y as int, t.y + t.height());
                &&& final(self).board@ == r.0
                &&& final(self).score == old(self).score + r.1
            }),
            final(self).tick == old(self).tick,
            final(self).paused == old(self).paused,
    {
        let ghost t = self.tetromino;
        let ghost total = sweep(self.board@, t.y as int, t.y + t.height());
        proof {
            t.lemma_on_field();
        }
        let (_, height) = self.tetromino.shape.dim(self.tetromino.orientation);
        let top = self.tetromino.y;
        let end = top + height;
        let mut row = top;
        let ghost mut cleared: nat = 0;
        while row < end
            invariant
                top <= row <= end <= BOARD_HEIGHT,
                end - top <= 4,
                sweep(self.board@, row as int, end as int).0 == total.0,
                cleared + sweep(self.board@, row as int, end as int).1 == total.1,
                cleared <= row - top,
                self.score == old(self).score + cleared,
                old(self).score + 4 <= u32::MAX,
                self.tick == old(self).tick,
                self.paused == old(self).paused,
            decreases end - row,
        {
            if self.board.is_filled(row) {
                self.board.wipe(row);
                self.score += 1;
                proof {
                    cleared = cleared + 1;
                }
            }
            row += 1;
        }
        self.tetromino = Tetromino::new(&mut self.rng);
    }

    /// Advances play by one tick. Does nothing while paused. Otherwise counts
    /// the tick and, on a tick where gravity acts, moves the piece one row
    /// down; a piece that cannot fall locks in place, full rows under it go,
    /// and a new piece comes, unless the piece could not leave the top row:
    /// then play is over and the result is `false`.
    pub fn do_tick(&mut self) -> (alive: bool)
        requires
            old(self).wf(),
            !old(self).paused ==> old(self).score + 4 <= u32::MAX,
        ensures
            final(self).wf(),
            final(self).paused == old(self).paused,
            old(self).paused ==> alive && *final(self) == *old(self),
            !old(self).paused ==> final(self).tick == next_tick(old(self).tick as int),
            !old(self).paused && !drops_at(next_tick(old(self).tick as int)) ==> {
                &&& alive
                &&& final(self).board@ == old(self).board@
                &&& final(self).tetromino == old(self).tetromino
                &&& final(self).score == old(self).score
            },
            !old(self).paused && drops_at(next_tick(old(self).tick as int)) ==> match step(
                old(self).board@,
                old(self).tetromino,
                Move::Down,
            ) {
                Some((g, n)) => {
                    &&& alive
                    &&& final(self).board@ == g
                    &&& final(self).tetromino == n
                    &&& final(self).score == old(self).score
                },
                None => if old(self).tetromino.y == 0 {
                    &&& !alive
                    &&& final(self).board@ == old(self).board@
                    &&& final(self).tetromino == old(self).tetromino
                    &&& final(self).score == old(self).score
                } else {
                    let t = old(self).tetromino;
                    let r = sweep(old(self).board@, t.y as int, t.y + t.height());
                    &&& alive
                    &&& final(self).board@ == r.0
                    &&& final(self).score == old(self).score + r.1
                    &&& final(self).tetromino.y == 0
                },
            },
    {
        if self.paused {
            return true;
        }
        self.tick = ((self.tick as u128 + 1) % (u64::MAX as u128)) as u64;
        if gravity_due(self.tick) {
            if !self.try_move(Move::Down) {
                if self.tetromino.y == 0 {
                    return false;
                }
                self.wipe_filled_rows();
            }
        }
        true
    }

    /// Lets the piece fall as far as it can, locks it there, removes the full
    /// rows that it spans and brings in a new piece.
    pub fn hard_drop(&mut self)
        requires
            old(self).wf(),
            old(self).score + 4 <= u32::MAX,
        ensures
            final(self).wf(),
            final(self).tetromino.y == 0,
            ({
                let (g, t) = landing(old(self).board@, old(self).tetromino);
                let r = sweep(g, t.y as int, t.y + t.height());
                &&& final(self).board@ == r.0
                &&& final(self).score == old(self).score + r.1
            }),
            final(self).tick == old(self).tick,
            final(self).paused == old(self).paused,
    {
        let ghost rest = landing(self.board@, self.tetromino);
        let mut falling = true;
        while falling
            invariant
                self.wf(),
                self.score == old(self).score,
                self.tick == old(self).tick,
                self.paused == old(self).paused,
                old(self).score + 4 <= u32::MAX,
                landing(self.board@, self.tetromino) == rest,
                !falling ==> step(self.board@, self.tetromino, Move::Down) is None,
            decreases 2 * (BOARD_HEIGHT - self.tetromino.y) + if falling {
                1int
            } else {
                0int
            },
        {
            proof {
                self.tetromino.lemma_on_field();
            }
            falling = self.try_move(Move::Down);
        }
        self.wipe_filled_rows();
    }

    /// Carries out what the player asked for.
    pub fn apply(&mut self, intent: Intent)
        requires
            old(self).wf(),
            intent == Intent::HardDrop ==> old(self).score + 4 <= u32::MAX,
        ensures
            final(self).wf(),
            final(self).tick == old(self).tick,
            intent != Intent::TogglePause ==> final(self).paused == old(self).paused,
            intent == Intent::TogglePause ==> {
                &&& final(self).paused == !old(self).paused
                &&& final(self).board@ == old(self).board@
                &&& final(self).tetromino == old(self).tetromino
                &&& final(self).score == old(self).score
            },
            intent == Intent::HardDrop ==> {
                let (g, t) = landing(old(self).board@, old(self).tetromino);
                let r = sweep(g, t.y as int, t.y + t.height());
                &&& final(self).board@ == r.0
                &&& final(self).score == old(self).score + r.1
                &&& final(self).tetromino.y == 0
            },
            intent != Intent::TogglePause && intent != Intent::HardDrop ==> {
                let m = match intent {
                    Intent::MoveLeft => Move::Left,
                    Intent::MoveRight => Move::Right,
                    Intent::MoveDown => Move::Down,
                    _ => Move::Rotate,
                };
                &&& final(self).score == old(self).score
                &&& match step(old(self).board@, old(self).tetromino, m) {
                    Some((g, n)) => final(self).board@ == g && final(self).tetromino == n,
                    None => final(self).board@ == old(self).board@ && final(self).tetromino
                        == old(self).tetromino,
                }
            },
    {
        match intent {
            Intent::MoveLeft => {
                self.try_move(Move::Left);
            },
            Intent::MoveRight => {
                self.try_move(Move::Right);
            },
            Intent::MoveDown => {
                self.try_move(Move::Down);
            },
            Intent::Rotate => {
                self.try_move(Move::Rotate);
            },
            Intent::HardDrop => self.hard_drop(),
            Intent::TogglePause => self.paused = !self.paused,
        }
    }

    /// Writes `v` into every cell of the active piece.
    fn draw_tetromino(&mut self, v: u8)
        requires
            old(self).tetromino.wf(),
            v <= KINDS,
        ensures
            final(self).board@ == painted(old(self).board@, old(self).tetromino.footprint(), v),
            final(self).tetromino == old(self).tetromino,
            final(self).score == old(self).score,
            final(self).tick == old(self).tick,
            final(self).paused == old(self).paused,
    {
        let cells = self.tetromino.shape.coor(self.tetromino.orientation);
        let ghost t = self.tetromino;
        let ghost fp = t.footprint();
        let ghost g0 = self.board@;
        proof {
            t.lemma_on_field();
            self.board.lemma_grid_shape();
            reveal(painted);
            assert(painted(g0, fp.subrange(0, 0), v) =~~= g0);
            assert forall|j: int| 0 <= j < 4 implies #[trigger] fp[j] == (
            cells[j].0 + t.x, cells[j].1 + t.y) by {
                assert(cells_view(cells)[j] == t.cells()[j]);
            }
        }
        let mut i: usize = 0;
        while i < 4
            invariant
                i <= 4,
                self.tetromino == t,
                self.score == old(self).score,
                self.tick == old(self).tick,
                self.paused == old(self).paused,
                t.wf(),
                fp == t.footprint(),
                fp.len() == 4,
                forall|j: int| 0 <= j < 4 ==> #[trigger] fp[j] == (cells[j].0 + t.x, cells[j].1 + t.y),
                forall|j: int|
                    0 <= j < 4 ==> 0 <= #[trigger] fp[j].0 < BOARD_WIDTH && 0 <= fp[j].1 < BOARD_HEIGHT,
                grid_shape(g0),
                v <= KINDS,
                self.board@ == painted(g0, fp.subrange(0, i as int), v),
            decreases 4 - i,
        {
            let (cx, cy) = cells[i];
            proof {
                lemma_paint_one_more(g0, fp, i as int, v);
            }
            self.board.set(cx + self.tetromino.x, cy + self.tetromino.y, v);
            i += 1;
        }
        assert(fp.subrange(0, 4) =~= fp);
    }

    /// Paints the active piece onto the field.
    fn set_tetromino(&mut self)
        requires
            old(self).tetromino.wf(),
        ensures
            final(self).board@ == painted(
                old(self).board@,
                old(self).tetromino.footprint(),
                old(self).tetromino.paint(),
            ),
            final(self).tetromino == old(self).tetromino,
            final(self).score == old(self).score,
            final(self).tick == old(self).tick,
            final(self).paused == old(self).paused,
    {
        let kind = self.tetromino.shape.kind();
        self.draw_tetromino(kind + 1);
    }

    /// Erases the active piece from the field.
    fn clear_tetromino(&mut self)
        requires
            old(self).tetromino.wf(),
        ensures
            final(self).board@ == painted(old(self).board@, old(self).tetromino.footprint(), 0),
            final(self).tetromino == old(self).tetromino,
            final(self).score == old(self).score,
            final(self).tick == old(self).tick,
            final(self).paused == old(self).paused,
    {
        self.draw_tetromino(0);
    }

    /// Whether the active piece covers the cell in column `px` of row `py`.
    fn covers(&self, px: u8, py: u8) -> (c: bool)
        requires
            self.tetromino.wf(),
        ensures
            c == self.tetromino.footprint().contains((px as int, py as int)),
    {
        let cells = self.tetromino.shape.coor(self.tetromino.orientation);
        let ghost t = self.tetromino;
        let ghost fp = t.footprint();
        proof {
            t.lemma_on_field();
            lemma_shape_cells_wf(t.shape@ as int, t.orientation as int);
            assert forall|j: int| 0 <= j < 4 implies #[trigger] fp[j] == (
            cells[j].0 + t.x, cells[j].1 + t.y) && cells[j].0 < 4 && cells[j].1 < 4 by {
                assert(cells_view(cells)[j] == t.cells()[j]);
            }
        }
        let mut i: usize = 0;
        while i < 4
            invariant
                i <= 4,
                forall|j: int| 0 <= j < 4 ==> #[trigger] cells[j].0 < 4 && cells[j].1 < 4,
                fp == self.tetromino.footprint(),
                fp.len() == 4,
                forall|j: int| 0 <= j < 4 ==> #[trigger] fp[j] == (cells[j].0 + t.x, cells[j].1 + t.y),
                forall|j: int| 0 <= j < i ==> fp[j] != (px as int, py as int),
                t == self.tetromino,
                t.x < BOARD_WIDTH,
                t.y < BOARD_HEIGHT,
                t.wf(),
            decreases 4 - i,
        {
            let (cx, cy) = cells[i];
            if cx + self.tetromino.x == px && cy + self.tetromino.y == py {
                assert(fp[i as int] == (px as int, py as int));
                return true;
            }
            i += 1;
        }
        false
    }

    /// Whether the active piece, moved to column `x`, row `y` and orientation
    /// `r`, would leave the field or meet a cell that it does not cover now.
    fn hits(&self, x: u8, y: u8, r: u8) -> (hit: bool)
        requires
            self.tetromino.wf(),
            x <= BOARD_WIDTH,
            y <= BOARD_HEIGHT,
            r < ORIENTATIONS,
        ensures
            !hit == forall|i: int|
                0 <= i < 4 ==> #[trigger] free_for(
                    self.board@,
                    self.tetromino.footprint(),
                    placed(self.tetromino.shape@ as int, r as int, x as int, y as int)[i],
                ),
    {
        let cells = self.tetromino.shape.coor(r);
        let ghost fp = placed(self.tetromino.shape@ as int, r as int, x as int, y as int);
        proof {
            self.board.lemma_grid_shape();
            lemma_shape_cells_wf(self.tetromino.shape@ as int, r as int);
            assert forall|j: int| 0 <= j < 4 implies #[trigger] fp[j] == (
            cells[j].0 + x, cells[j].1 + y) && cells[j].0 < 4 && cells[j].1 < 4 by {
                assert(cells_view(cells)[j] == shape_cells(
                    self.tetromino.shape@ as int,
                    r as int,
                )[j]);
            }
        }
        let mut i: usize = 0;
        while i < 4
            invariant
                i <= 4,
                x <= BOARD_WIDTH,
                y <= BOARD_HEIGHT,
                self.tetromino.wf(),
                forall|j: int| 0 <= j < 4 ==> #[trigger] cells[j].0 < 4 && cells[j].1 < 4,
                fp == placed(self.tetromino.shape@ as int, r as int, x as int, y as int),
                fp.len() == 4,
                forall|j: int|
                    0 <= j < 4 ==> #[trigger] fp[j] == (cells[j].0 + x, cells[j].1 + y) && cells[j].0
                        < 4 && cells[j].1 < 4,
                forall|j: int|
                    0 <= j < i ==> #[trigger] free_for(self.board@, self.tetromino.footprint(), fp[j]),
                grid_shape(self.board@),
            decreases 4 - i,
        {
            let (cx, cy) = cells[i];
            let px = x + cx;
            let py = y + cy;
            if py >= BOARD_HEIGHT || px >= BOARD_WIDTH || (self.board.get(px, py) != 0
                && !self.covers(px, py)) {
                assert(!free_for(self.board@, self.tetromino.footprint(), fp[i as int]));
                return true;
            }
            i += 1;
        }
        false
    }

    /// Applies move `m` to the active piece when the piece, lifted off the
    /// field, fits in its new place; otherwise changes nothing. Says whether
    /// the move was made.
    pub fn try_move(&mut self, m: Move) -> (moved: bool)
        requires
            old(self).wf(),
        ensures
            final(self).wf(),
            final(self).score == old(self).score,
            final(self).tick == old(self).tick,
            final(self).paused == old(self).paused,
            match step(old(self).board@, old(self).tetromino, m) {
                Some((g, n)) => moved && final(self).board@ == g && final(self).tetromino == n,
                None => !moved && final(self).board@ == old(self).board@ && final(self).tetromino
                    == old(self).tetromino,
            },
            moved ==> forall|i: int|
                0 <= i < 4 ==> {
                    let p = #[trigger] final(self).tetromino.footprint()[i];
                    &&& free_for(old(self).board@, old(self).tetromino.footprint(), p)
                    &&& final(self).board@[p.1][p.0] == old(self).tetromino.paint()
                },
            moved && m == Move::Right ==> final(self).tetromino.x == old(self).tetromino.x + 1
                && final(self).tetromino.x + final(self).tetromino.width() <= BOARD_WIDTH,
            moved && m == Move::Left ==> old(self).tetromino.x > 0 && final(self).tetromino.x
                == old(self).tetromino.x - 1,
    {
        let ghost t = self.tetromino;
        let ghost g0 = self.board@;
        proof {
            t.lemma_on_field();
            self.board.lemma_grid_shape();
        }
        let kind = self.tetromino.shape.kind();
        let tx = self.tetromino.x;
        let ty = self.tetromino.y;
        let to = self.tetromino.orientation;
        let (x, y, r) = match m {
            Move::Left => {
                if tx > 0 {
                    (tx - 1, ty, to)
                } else {
                    return false;
                }
            },
            Move::Right => {
                let (width, _) = self.tetromino.shape.dim(to);
                if tx + width < BOARD_WIDTH {
                    (tx + 1, ty, to)
                } else {
                    return false;
                }
            },
            Move::Down => (tx, ty + 1, to),
            Move::Rotate => {
                let new_r = (to + 1) % 4;
                let (width, _) = self.tetromino.shape.dim(new_r);
                proof {
                    lemma_shape_cells_wf(kind as int, new_r as int);
                }
                let new_x = if tx + width > BOARD_WIDTH {
                    BOARD_WIDTH - width
                } else {
                    tx
                };
                (new_x, ty, new_r)
            },
        };
        let (_, height) = self.tetromino.shape.dim(r);
        proof {
            lemma_shape_cells_wf(kind as int, r as int);
        }
        if y + height > BOARD_HEIGHT {
            return false;
        }
        let ghost n = Tetromino { x, y, orientation: r, ..t };
        assert(target(t, m) == Some(n));
        if self.hits(x, y, r) {
            return false;
        }
        assert(fits(g0, t, n));
        self.clear_tetromino();
        self.tetromino.x = x;
        self.tetromino.y = y;
        self.tetromino.orientation = r;
        assert(self.tetromino == n);
        self.set_tetromino();
        proof {
            n.lemma_on_field();
            assert forall|i: int| 0 <= i < 4 implies {
                let p = #[trigger] n.footprint()[i];
                &&& free_for(g0, t.footprint(), p)
                &&& self.board@[p.1][p.0] == t.paint()
            } by {
                reveal(painted);
                assert(free_for(g0, t.footprint(), n.footprint()[i]));
                assert(n.footprint().contains(n.footprint()[i]));
            }
        }
        true
    }
}

} // verus!
