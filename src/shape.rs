//! The seven piece shapes and their four rotations.
//!
//! Every shape is four cells inside a 4x4 block. A rotation turns the block by
//! a multiple of 90 degrees and then shifts the cells so that the smallest x
//! and the smallest y among them are both 0.

use crate::random::draw_below;
use rand::rngs::ThreadRng;
use vstd::prelude::*;

verus! {

/// Side of the square block that holds every shape in every rotation.
pub const BLOCK_SIDE: u8 = 4;

/// Number of piece kinds.
pub const KINDS: u8 = 7;

/// Number of orientations of a piece.
pub const ORIENTATIONS: u8 = 4;

/// Cell `i` (of 0..4) of piece `kind` before any rotation.
pub open spec fn base_cell(kind: int, i: int) -> (int, int) {
    if kind == 0 {
        if i == 0 { (1, 0) } else if i == 1 { (1, 1) } else if i == 2 { (0, 1) } else { (0, 2) }
    } else if kind == 1 {
        if i == 0 { (0, 0) } else if i == 1 { (0, 1) } else if i == 2 { (1, 1) } else { (1, 2) }
    } else if kind == 2 {
        if i == 0 { (0, 0) } else if i == 1 { (1, 0) } else if i == 2 { (0, 1) } else { (1, 1) }
    } else if kind == 3 {
        if i == 0 { (0, 0) } else if i == 1 { (1, 0) } else if i == 2 { (2, 0) } else { (2, 1) }
    } else if kind == 4 {
        if i == 0 { (1, 0) } else if i == 1 { (1, 1) } else if i == 2 { (1, 2) } else { (0, 1) }
    } else if kind == 5 {
        if i == 0 { (0, 0) } else if i == 1 { (0, 1) } else if i == 2 { (0, 2) } else { (0, 3) }
    } else {
        if i == 0 { (0, 1) } else if i == 1 { (1, 1) } else if i == 2 { (2, 1) } else { (2, 0) }
    }
}

/// The four cells of piece `kind` before any rotation.
pub open spec fn base_cells(kind: int) -> Seq<(int, int)> {
    Seq::new(4, |i: int| base_cell(kind, i))
}

/// Where cell `c` of the 4x4 block lands when the block is turned `r`
/// quarter turns.
pub open spec fn turn_cell(c: (int, int), r: int) -> (int, int) {
    if r == 0 {
        c
    } else if r == 1 {
        (3 - c.1, c.0)
    } else if r == 2 {
        (3 - c.0, 3 - c.1)
    } else {
        (c.1, 3 - c.0)
    }
}

pub open spec fn min2(a: int, b: int) -> int {
    if a <= b { a } else { b }
}

pub open spec fn max2(a: int, b: int) -> int {
    if a >= b { a } else { b }
}

/// Smallest x among four cells.
pub open spec fn least_x(s: Seq<(int, int)>) -> int {
    min2(min2(s[0].0, s[1].0), min2(s[2].0, s[3].0))
}

/// Smallest y among four cells.
pub open spec fn least_y(s: Seq<(int, int)>) -> int {
    min2(min2(s[0].1, s[1].1), min2(s[2].1, s[3].1))
}

/// Largest x among four cells.
pub open spec fn greatest_x(s: Seq<(int, int)>) -> int {
    max2(max2(s[0].0, s[1].0), max2(s[2].0, s[3].0))
}

/// Largest y among four cells.
pub open spec fn greatest_y(s: Seq<(int, int)>) -> int {
    max2(max2(s[0].1, s[1].1), max2(s[2].1, s[3].1))
}

/// Four cells shifted so that their smallest x and smallest y are 0.
pub open spec fn normalize(s: Seq<(int, int)>) -> Seq<(int, int)> {
    s.map_values(|c: (int, int)| (c.0 - least_x(s), c.1 - least_y(s)))
}

/// The cells of piece `kind` with its block turned `r` quarter turns.
pub open spec fn turned_cells(kind: int, r: int) -> Seq<(int, int)> {
    base_cells(kind).map_values(|c: (int, int)| turn_cell(c, r))
}

/// The four cells of piece `kind` in orientation `r`.
#[verifier::opaque]
pub open spec fn shape_cells(kind: int, r: int) -> Seq<(int, int)> {
    normalize(turned_cells(kind, r))
}

/// Width of the bounding box of four cells that touch the origin.
pub open spec fn box_width(s: Seq<(int, int)>) -> int {
    greatest_x(s) + 1
}

/// Height of the bounding box of four cells that touch the origin.
pub open spec fn box_height(s: Seq<(int, int)>) -> int {
    greatest_y(s) + 1
}

/// Cells held in an array, read as integer pairs.
pub open spec fn cells_view(a: [(u8, u8); 4]) -> Seq<(int, int)> {
    a@.map_values(|c: (u8, u8)| (c.0 as int, c.1 as int))
}

/// The unrotated cells of each kind are four distinct cells of the 4x4 block.
proof fn lemma_base_cells(kind: int)
    requires
        0 <= kind < KINDS,
    ensures
        forall|i: int|
            0 <= i < 4 ==> 0 <= #[trigger] base_cells(kind)[i].0 < 4 && 0 <= base_cells(kind)[i].1
                < 4,
        forall|i: int, j: int|
            0 <= i < 4 && 0 <= j < 4 && i != j ==> #[trigger] base_cells(kind)[i]
                != #[trigger] base_cells(kind)[j],
{
    let b = base_cells(kind);
    assert forall|i: int, j: int| 0 <= i < 4 && 0 <= j < 4 && i != j implies #[trigger] b[i]
        != #[trigger] b[j] by {
        assert(b[i] == base_cell(kind, i) && b[j] == base_cell(kind, j));
        if kind == 0 {
        } else if kind == 1 {
        } else if kind == 2 {
        } else if kind == 3 {
        } else if kind == 4 {
        } else if kind == 5 {
        } else {
        }
    }
}

/// Turning the block keeps four distinct cells of the block distinct and
/// inside it.
proof fn lemma_turned_cells(kind: int, r: int)
    requires
        0 <= kind < KINDS,
        0 <= r < ORIENTATIONS,
    ensures
        turned_cells(kind, r).len() == 4,
        forall|i: int|
            0 <= i < 4 ==> 0 <= #[trigger] turned_cells(kind, r)[i].0 < 4 && 0 <= turned_cells(
                kind,
                r,
            )[i].1 < 4,
        forall|i: int, j: int|
            0 <= i < 4 && 0 <= j < 4 && i != j ==> #[trigger] turned_cells(kind, r)[i]
                != #[trigger] turned_cells(kind, r)[j],
{
    let b = base_cells(kind);
    let t = turned_cells(kind, r);
    lemma_base_cells(kind);
    assert forall|i: int| 0 <= i < 4 implies 0 <= #[trigger] t[i].0 < 4 && 0 <= t[i].1 < 4 by {
        assert(t[i] == turn_cell(b[i], r));
    }
    assert forall|i: int, j: int| 0 <= i < 4 && 0 <= j < 4 && i != j implies #[trigger] t[i]
        != #[trigger] t[j] by {
        assert(t[i] == turn_cell(b[i], r));
        assert(t[j] == turn_cell(b[j], r));
        assert(b[i] != b[j]);
    }
}

/// Shifting four distinct cells of the block to touch the origin keeps them
/// distinct and inside the block, with smallest x and y equal to 0.
proof fn lemma_normalize(t: Seq<(int, int)>)
    requires
        t.len() == 4,
        forall|i: int| 0 <= i < 4 ==> 0 <= #[trigger] t[i].0 < 4 && 0 <= t[i].1 < 4,
        forall|i: int, j: int| 0 <= i < 4 && 0 <= j < 4 && i != j ==> #[trigger] t[i] != #[trigger] t[j],
    ensures
        normalize(t).len() == 4,
        forall|i: int|
            0 <= i < 4 ==> 0 <= #[trigger] normalize(t)[i].0 < BLOCK_SIDE && 0 <= normalize(t)[i].1
                < BLOCK_SIDE,
        forall|i: int, j: int|
            0 <= i < 4 && 0 <= j < 4 && i != j ==> #[trigger] normalize(t)[i]
                != #[trigger] normalize(t)[j],
        least_x(normalize(t)) == 0,
        least_y(normalize(t)) == 0,
        1 <= box_width(normalize(t)) <= BLOCK_SIDE,
        1 <= box_height(normalize(t)) <= BLOCK_SIDE,
        forall|i: int|
            0 <= i < 4 ==> #[trigger] normalize(t)[i].0 < box_width(normalize(t)) && normalize(t)[i].1
                < box_height(normalize(t)),
{
    let s = normalize(t);
    let mx = least_x(t);
    let my = least_y(t);
    assert(0 <= mx && 0 <= my);
    assert forall|i: int| 0 <= i < 4 implies #[trigger] s[i] == (t[i].0 - mx, t[i].1 - my) && 0
        <= s[i].0 < 4 && 0 <= s[i].1 < 4 && mx <= t[i].0 && my <= t[i].1 by {}
    assert(least_x(s) == 0 && least_y(s) == 0);
    assert forall|i: int, j: int| 0 <= i < 4 && 0 <= j < 4 && i != j implies #[trigger] s[i]
        != #[trigger] s[j] by {
        assert(t[i] != t[j]);
    }
    assert(0 <= greatest_x(s) < 4 && 0 <= greatest_y(s) < 4);
}

/// Every shape in every orientation is four distinct cells inside the 4x4
/// block, and the smallest x and the smallest y among them are both 0.
pub proof fn lemma_shape_cells_wf(kind: int, r: int)
    requires
        0 <= kind < KINDS,
        0 <= r < ORIENTATIONS,
    ensures
        shape_cells(kind, r).len() == 4,
        forall|i: int|
            0 <= i < 4 ==> 0 <= #[trigger] shape_cells(kind, r)[i].0 < BLOCK_SIDE && 0
                <= shape_cells(kind, r)[i].1 < BLOCK_SIDE,
        forall|i: int, j: int|
            0 <= i < 4 && 0 <= j < 4 && i != j ==> #[trigger] shape_cells(kind, r)[i]
                != #[trigger] shape_cells(kind, r)[j],
        least_x(shape_cells(kind, r)) == 0,
        least_y(shape_cells(kind, r)) == 0,
        1 <= box_width(shape_cells(kind, r)) <= BLOCK_SIDE,
        1 <= box_height(shape_cells(kind, r)) <= BLOCK_SIDE,
        forall|i: int|
            0 <= i < 4 ==> #[trigger] shape_cells(kind, r)[i].0 < box_width(shape_cells(kind, r))
                && shape_cells(kind, r)[i].1 < box_height(shape_cells(kind, r)),
{
    reveal(shape_cells);
    lemma_turned_cells(kind, r);
    lemma_normalize(turned_cells(kind, r));
}

/// Turning the block `a` quarter turns and then `b` more is turning it
/// `(a + b) % 4` quarter turns; in particular four single quarter turns bring
/// every cell back where it was.
pub proof fn lemma_turns_compose(c: (int, int), a: int, b: int)
    requires
        0 <= a < ORIENTATIONS,
        0 <= b < ORIENTATIONS,
    ensures
        turn_cell(turn_cell(c, a), b) == turn_cell(c, (a + b) % 4),
        turn_cell(turn_cell(turn_cell(turn_cell(c, 1), 1), 1), 1) == c,
{
}

/// Four cells turned a quarter turn inside the 4x4 block, then shifted back to
/// touch the origin.
#[verifier::opaque]
pub open spec fn quarter_turn(s: Seq<(int, int)>) -> Seq<(int, int)> {
    normalize(s.map_values(|c: (int, int)| turn_cell(c, 1)))
}

/// Shifting four cells by a fixed offset does not change where they land
/// once they are moved to touch the origin.
proof fn lemma_normalize_shift(s: Seq<(int, int)>, v: Seq<(int, int)>, dx: int, dy: int)
    requires
        s.len() == 4,
        v.len() == 4,
        forall|i: int| 0 <= i < 4 ==> #[trigger] v[i] == (s[i].0 + dx, s[i].1 + dy),
    ensures
        normalize(v) == normalize(s),
{
    assert(least_x(v) == least_x(s) + dx);
    assert(least_y(v) == least_y(s) + dy);
    assert(normalize(v) =~= normalize(s));
}

/// A quarter turn takes a shape in orientation `r` to the same shape in the
/// next orientation.
pub proof fn lemma_quarter_turn_step(kind: int, r: int)
    requires
        0 <= kind < KINDS,
        0 <= r < ORIENTATIONS,
    ensures
        quarter_turn(shape_cells(kind, r)) == shape_cells(kind, (r + 1) % 4),
{
    let t = turned_cells(kind, r);
    let n = shape_cells(kind, r);
    let u = turned_cells(kind, (r + 1) % 4);
    let w = n.map_values(|c: (int, int)| turn_cell(c, 1));
    reveal(quarter_turn);
    reveal(shape_cells);
    assert forall|i: int| 0 <= i < 4 implies #[trigger] u[i] == turn_cell(t[i], 1) by {
        assert(u[i] == turn_cell(base_cells(kind)[i], (r + 1) % 4));
        assert(t[i] == turn_cell(base_cells(kind)[i], r));
    }
    assert forall|i: int| 0 <= i < 4 implies #[trigger] w[i] == (u[i].0 + least_y(t), u[i].1
        - least_x(t)) by {
        assert(n[i] == (t[i].0 - least_x(t), t[i].1 - least_y(t)));
    }
    lemma_normalize_shift(u, w, least_y(t), -least_x(t));
}

/// Four quarter turns bring every shape in every orientation back to the
/// same cells.
pub proof fn lemma_four_quarter_turns(kind: int, r: int)
    requires
        0 <= kind < KINDS,
        0 <= r < ORIENTATIONS,
    ensures
        quarter_turn(quarter_turn(quarter_turn(quarter_turn(shape_cells(kind, r)))))
            == shape_cells(kind, r),
{
    let r1 = if r == 3 { 0 } else { r + 1 };
    let r2 = if r1 == 3 { 0 } else { r1 + 1 };
    let r3 = if r2 == 3 { 0 } else { r2 + 1 };
    lemma_quarter_turn_step(kind, r);
    lemma_quarter_turn_step(kind, r1);
    lemma_quarter_turn_step(kind, r2);
    lemma_quarter_turn_step(kind, r3);
    assert((r + 1) % 4 == r1 && (r1 + 1) % 4 == r2 && (r2 + 1) % 4 == r3 && (r3 + 1) % 4 == r);
}

/// A piece kind, one of seven.
pub struct Shape(u8);

impl View for Shape {
    type V = nat;

    closed spec fn view(&self) -> nat {
        self.0 as nat
    }
}

impl Shape {
    #[verifier::type_invariant]
    spec fn inv(self) -> bool {
        self.0 < KINDS
    }

    pub fn new(kind: u8) -> (s: Self)
        requires
            kind < KINDS,
        ensures
            s@ == kind,
    {
        Shape(kind)
    }

    pub fn kind(&self) -> (k: u8)
        ensures
            k == self@,
            k < KINDS,
    {
        proof {
            use_type_invariant(self);
        }
        self.0
    }

    /// A shape of a kind drawn uniformly from `rng`.
    pub fn random(rng: &mut ThreadRng) -> (s: Self)
        ensures
            s@ < KINDS,
    {
        Shape::new(draw_below(rng, KINDS))
    }

    /// The cells of each kind before any rotation.
    fn base(kind: u8) -> (a: [(u8, u8); 4])
        requires
            kind < KINDS,
        ensures
            forall|i: int| 0 <= i < 4 ==> (a[i].0 as int, a[i].1 as int) == base_cell(kind as int, i),
            forall|i: int| 0 <= i < 4 ==> a[i].0 < BLOCK_SIDE && a[i].1 < BLOCK_SIDE,
    {
        match kind {
            0 => [(1, 0), (1, 1), (0, 1), (0, 2)],
            1 => [(0, 0), (0, 1), (1, 1), (1, 2)],
            2 => [(0, 0), (1, 0), (0, 1), (1, 1)],
            3 => [(0, 0), (1, 0), (2, 0), (2, 1)],
            4 => [(1, 0), (1, 1), (1, 2), (0, 1)],
            5 => [(0, 0), (0, 1), (0, 2), (0, 3)],
            _ => [(0, 1), (1, 1), (2, 1), (2, 0)],
        }
    }

    /// Turns cell `(x, y)` of the 4x4 block by `r` quarter turns.
    fn rotate(x: u8, y: u8, r: u8) -> (p: (u8, u8))
        requires
            x < BLOCK_SIDE,
            y < BLOCK_SIDE,
            r < ORIENTATIONS,
        ensures
            (p.0 as int, p.1 as int) == turn_cell((x as int, y as int), r as int),
            p.0 < BLOCK_SIDE,
            p.1 < BLOCK_SIDE,
    {
        match r {
            0 => (x, y),
            1 => (BLOCK_SIDE - 1 - y, x),
            2 => (BLOCK_SIDE - 1 - x, BLOCK_SIDE - 1 - y),
            _ => (y, BLOCK_SIDE - 1 - x),
        }
    }

    /// The four cells of this shape in orientation `r`, shifted to touch the
    /// origin.
    pub fn coor(&self, r: u8) -> (a: [(u8, u8); 4])
        requires
            r < ORIENTATIONS,
        ensures
            cells_view(a) == shape_cells(self@ as int, r as int),
    {
        proof {
            use_type_invariant(self);
        }
        let block = Self::base(self.0);
        let ghost turned = turned_cells(self@ as int, r as int);
        let mut a: [(u8, u8); 4] = [(0, 0); 4];
        let mut min_x: u8 = u8::MAX;
        let mut min_y: u8 = u8::MAX;
        let ghost mut at_min_x: int = 0;
        let ghost mut at_min_y: int = 0;
        let mut i: usize = 0;
        while i < 4
            invariant
                i <= 4,
                turned == turned_cells(self@ as int, r as int),
                turned.len() == 4,
                r < ORIENTATIONS,
                forall|j: int| 0 <= j < 4 ==> (block[j].0 as int, block[j].1 as int) == base_cell(self@ as int, j),
                forall|j: int| 0 <= j < 4 ==> block[j].0 < BLOCK_SIDE && block[j].1 < BLOCK_SIDE,
                forall|j: int| 0 <= j < i ==> (a[j].0 as int, a[j].1 as int) == turned[j],
                forall|j: int| 0 <= j < i ==> min_x <= a[j].0 && min_y <= a[j].1,
                i == 0 ==> min_x == u8::MAX && min_y == u8::MAX,
                i > 0 ==> 0 <= at_min_x < i && min_x == a[at_min_x].0,
                i > 0 ==> 0 <= at_min_y < i && min_y == a[at_min_y].1,
            decreases 4 - i,
        {
            let (bx, by) = block[i];
            let p = Self::rotate(bx, by, r);
            a[i] = p;
            if p.0 < min_x {
                min_x = p.0;
                proof { at_min_x = i as int; }
            }
            if p.1 < min_y {
                min_y = p.1;
                proof { at_min_y = i as int; }
            }
            i += 1;
        }
        assert(min_x as int == least_x(turned) && min_y as int == least_y(turned));
        let ghost rotated = a;
        i = 0;
        while i < 4
            invariant
                i <= 4,
                turned.len() == 4,
                min_x as int == least_x(turned),
                min_y as int == least_y(turned),
                forall|j: int| 0 <= j < 4 ==> (rotated[j].0 as int, rotated[j].1 as int) == turned[j],
                forall|j: int| 0 <= j < 4 ==> min_x <= rotated[j].0 && min_y <= rotated[j].1,
                forall|j: int| 0 <= j < i ==> a[j] == (
                    (rotated[j].0 - min_x) as u8,
                    (rotated[j].1 - min_y) as u8,
                ),
                forall|j: int| i <= j < 4 ==> a[j] == rotated[j],
            decreases 4 - i,
        {
            let (x, y) = a[i];
            a[i] = (x - min_x, y - min_y);
            i += 1;
        }
        reveal(shape_cells);
        assert(cells_view(a) =~= shape_cells(self@ as int, r as int));
        a
    }

    /// The 4x4 block of this shape in orientation `r`, row by row: `true`
    /// where the shape has a cell.
    pub fn occupancy(&self, r: u8) -> (g: [[bool; 4]; 4])
        requires
            r < ORIENTATIONS,
        ensures
            forall|x: int, y: int|
                0 <= x < 4 && 0 <= y < 4 ==> #[trigger] g[y][x] == shape_cells(
                    self@ as int,
                    r as int,
                ).contains((x, y)),
    {
        let a = self.coor(r);
        let ghost cells = shape_cells(self@ as int, r as int);
        proof {
            use_type_invariant(self);
            lemma_shape_cells_wf(self@ as int, r as int);
            assert forall|j: int| 0 <= j < 4 implies #[trigger] cells[j] == (
            a[j].0 as int, a[j].1 as int) && a[j].0 < 4 && a[j].1 < 4 by {
                assert(cells_view(a)[j] == cells[j]);
            }
        }
        let mut g = [[false; 4]; 4];
        let mut i: usize = 0;
        while i < 4
            invariant
                i <= 4,
                cells.len() == 4,
                forall|j: int| 0 <= j < 4 ==> #[trigger] cells[j] == (a[j].0 as int, a[j].1 as int),
                forall|j: int| 0 <= j < 4 ==> #[trigger] a[j].0 < 4 && a[j].1 < 4,
                forall|x: int, y: int|
                    0 <= x < 4 && 0 <= y < 4 ==> #[trigger] g[y][x] == cells.subrange(
                        0,
                        i as int,
                    ).contains((x, y)),
            decreases 4 - i,
        {
            let (cx, cy) = a[i];
            let mut row = g[cy as usize];
            row[cx as usize] = true;
            g[cy as usize] = row;
            proof {
                let s0 = cells.subrange(0, i as int);
                let s1 = cells.subrange(0, i + 1);
                assert forall|x: int, y: int| 0 <= x < 4 && 0 <= y < 4 implies #[trigger] g[y][x]
                    == s1.contains((x, y)) by {
                    if s1.contains((x, y)) {
                        let j = choose|j: int| 0 <= j < s1.len() && s1[j] == (x, y);
                        if j < i {
                            assert(s0[j] == (x, y));
                        }
                    }
                    if s0.contains((x, y)) {
                        let j = choose|j: int| 0 <= j < s0.len() && s0[j] == (x, y);
                        assert(s1[j] == (x, y));
                    }
                    if (x, y) == cells[i as int] {
                        assert(s1[i as int] == (x, y));
                    }
                }
            }
            i += 1;
        }
        assert(cells.subrange(0, 4) =~= cells);
        g
    }

    /// Width and height of the bounding box of this shape in orientation `r`.
    pub fn dim(&self, r: u8) -> (wh: (u8, u8))
        requires
            r < ORIENTATIONS,
        ensures
            wh.0 as int == box_width(shape_cells(self@ as int, r as int)),
            wh.1 as int == box_height(shape_cells(self@ as int, r as int)),
            1 <= wh.0 <= BLOCK_SIDE,
            1 <= wh.1 <= BLOCK_SIDE,
    {
        let a = self.coor(r);
        let ghost cells = cells_view(a);
        proof {
            use_type_invariant(self);
            lemma_shape_cells_wf(self@ as int, r as int);
        }
        assert(forall|j: int| 0 <= j < 4 ==> a[j].0 < BLOCK_SIDE && a[j].1 < BLOCK_SIDE && (
        a[j].0 as int, a[j].1 as int) == cells[j]);
        let mut max_x: u8 = u8::MIN;
        let mut max_y: u8 = u8::MIN;
        let ghost mut at_max_x: int = 0;
        let ghost mut at_max_y: int = 0;
        let mut i: usize = 0;
        while i < 4
            invariant
                i <= 4,
                cells == cells_view(a),
                cells.len() == 4,
                forall|j: int| 0 <= j < 4 ==> #[trigger] a[j].0 < BLOCK_SIDE && a[j].1 < BLOCK_SIDE && (
                a[j].0 as int, a[j].1 as int) == cells[j],
                forall|j: int| 0 <= j < i ==> max_x >= a[j].0 && max_y >= a[j].1,
                max_x < BLOCK_SIDE,
                max_y < BLOCK_SIDE,
                i > 0 ==> 0 <= at_max_x < i && max_x == a[at_max_x].0,
                i > 0 ==> 0 <= at_max_y < i && max_y == a[at_max_y].1,
            decreases 4 - i,
        {
            if i == 0 || a[i].0 > max_x {
                max_x = a[i].0;
                proof { at_max_x = i as int; }
            }
            if i == 0 || a[i].1 > max_y {
                max_y = a[i].1;
                proof { at_max_y = i as int; }
            }
            i += 1;
        }
        (max_x + 1, max_y + 1)
    }
}

} // verus!
