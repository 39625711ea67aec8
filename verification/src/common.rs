//! Board geometry: positions, headings, cells and wrapping at the edges.

use vstd::prelude::*;
use vstd::arithmetic::div_mod::{lemma_mod_multiples_vanish, lemma_fundamental_div_mod, lemma_mod_pos_bound};

verus! {

/// Number of cells along each side of the board.
pub const GRID_SIZE: i64 = 20;

/// Side of one cell, in render units.
pub const CELL_SIZE: i64 = 32;

/// Side of the whole board, in render units.
pub const SCREEN_SIZE: i64 = 640;

/// A point of the board, in render units.
#[derive(Clone, Copy, Debug, PartialEq, Eq, Structural)]
pub struct Position {
    pub x: i64,
    pub y: i64,
}

/// One of the four headings. The vertical axis grows downwards.
#[derive(Clone, Copy, Debug, PartialEq, Eq, Structural)]
pub enum Direction {
    Up,
    Down,
    Left,
    Right,
}

/// An axis-aligned rectangle, in render units.
#[derive(Clone, Copy, Debug, PartialEq, Eq, Structural)]
pub struct Rect {
    pub x: i64,
    pub y: i64,
    pub w: i64,
    pub h: i64,
}

/// Absolute value of an integer.
pub open spec fn abs(v: int) -> int {
    if v < 0 { -v } else { v }
}

impl Direction {
    /// Horizontal component of the unit vector.
    pub open spec fn dx(self) -> int {
        match self {
            Direction::Left => -1,
            Direction::Right => 1,
            _ => 0,
        }
    }

    /// Vertical component of the unit vector.
    pub open spec fn dy(self) -> int {
        match self {
            Direction::Up => -1,
            Direction::Down => 1,
            _ => 0,
        }
    }

    /// A turn from `self` to `other` is refused when the two unit vectors
    /// agree in the absolute value of each component.
    pub open spec fn reverses(self, other: Direction) -> bool {
        abs(self.dx()) == abs(other.dx()) && abs(self.dy()) == abs(other.dy())
    }

    /// The two headings are at a right angle.
    pub open spec fn perpendicular_to(self, other: Direction) -> bool {
        self.dx() * other.dx() + self.dy() * other.dy() == 0
    }

    /// The heading a quarter turn away, clockwise on the screen.
    pub open spec fn spec_perpendicular(self) -> Direction {
        match self {
            Direction::Up => Direction::Right,
            Direction::Right => Direction::Down,
            Direction::Down => Direction::Left,
            Direction::Left => Direction::Up,
        }
    }

    /// Horizontal component of the unit vector.
    pub fn x(self) -> (r: i64)
        ensures
            r == self.dx(),
    {
        match self {
            Direction::Left => -1,
            Direction::Right => 1,
            _ => 0,
        }
    }

    /// Vertical component of the unit vector.
    pub fn y(self) -> (r: i64)
        ensures
            r == self.dy(),
    {
        match self {
            Direction::Up => -1,
            Direction::Down => 1,
            _ => 0,
        }
    }

    /// Whether a turn from `self` to `other` is refused.
    pub fn is_reversal(self, other: Direction) -> (r: bool)
        ensures
            r == self.reverses(other),
    {
        let horizontal: bool = self.x() != 0;
        let other_horizontal: bool = other.x() != 0;
        horizontal == other_horizontal
    }

    /// The heading a quarter turn away, clockwise on the screen.
    pub fn perpendicular(self) -> (r: Direction)
        ensures
            r == self.spec_perpendicular(),
            self.perpendicular_to(r),
    {
        match self {
            Direction::Up => Direction::Right,
            Direction::Right => Direction::Down,
            Direction::Down => Direction::Left,
            Direction::Left => Direction::Up,
        }
    }
}

/// A turn onto the heading already held is refused, and a turn onto any
/// heading at a right angle is not: the turns refused are those along the
/// axis of the heading.
pub proof fn lemma_reversal_rule(d: Direction, e: Direction)
    ensures
        d.reverses(d),
        d.perpendicular_to(e) ==> !d.reverses(e),
        !d.reverses(d.spec_perpendicular()),
        d.reverses(e) <==> !d.perpendicular_to(e),
{
    match d {
        Direction::Up | Direction::Down => {
            assert(d.dx() * e.dx() == 0);
            assert(d.dy() * e.dy() == if d == Direction::Up { -e.dy() } else { e.dy() });
        },
        Direction::Left | Direction::Right => {
            assert(d.dy() * e.dy() == 0);
            assert(d.dx() * e.dx() == if d == Direction::Left { -e.dx() } else { e.dx() });
        },
    }
}

/// A coordinate reduced into `[0, SCREEN_SIZE)`.
pub open spec fn wrap_coord(c: int) -> int {
    c % (SCREEN_SIZE as int)
}

impl Position {
    /// The position with both coordinates reduced into the board.
    pub open spec fn wrapped(self) -> Position {
        Position { x: wrap_coord(self.x as int) as i64, y: wrap_coord(self.y as int) as i64 }
    }

    /// Both coordinates lie on the board.
    pub open spec fn in_bounds(self) -> bool {
        0 <= self.x < SCREEN_SIZE && 0 <= self.y < SCREEN_SIZE
    }

    /// Both coordinates are whole multiples of the cell size.
    pub open spec fn aligned(self) -> bool {
        self.x as int % (CELL_SIZE as int) == 0 && self.y as int % (CELL_SIZE as int) == 0
    }

    /// The corner of a cell of the board.
    pub open spec fn on_grid(self) -> bool {
        self.in_bounds() && self.aligned()
    }
}

/// The square of one cell whose corner is `v`.
pub fn vec2_to_rect(v: Position) -> (r: Rect)
    ensures
        r == (Rect { x: v.x, y: v.y, w: CELL_SIZE, h: CELL_SIZE }),
{
    Rect { x: v.x, y: v.y, w: CELL_SIZE, h: CELL_SIZE }
}

fn wrap_one(c: i64) -> (r: i64)
    ensures
        r == wrap_coord(c as int),
        0 <= r < SCREEN_SIZE,
{
    proof {
        lemma_wrap_range(c as int);
    }
    if c >= 0 {
        c % SCREEN_SIZE
    } else {
        let below: i64 = -(c + 1);
        let m: i64 = below % SCREEN_SIZE;
        proof {
            let s = SCREEN_SIZE as int;
            lemma_fundamental_div_mod(below as int, s);
            lemma_mod_pos_bound(below as int, s);
            // c == -1 - below == -1 - (s * q + m) == s * (-q - 1) + (s - 1 - m)
            let q = (below as int) / s;
            assert(s * (-q - 1) == -(s * q) - s) by (nonlinear_arith);
            assert(c as int == s * (-q - 1) + (s - 1 - m));
            lemma_mod_multiples_vanish(-q - 1, s - 1 - m, s);
            vstd::arithmetic::div_mod::lemma_small_mod((s - 1 - m) as nat, s as nat);
        }
        SCREEN_SIZE - 1 - m
    }
}

/// Folds a position back onto the board: each coordinate is reduced modulo
/// the side of the board, with a result that is never negative.
pub fn wrap_around(v: Position) -> (r: Position)
    ensures
        r == v.wrapped(),
        r.in_bounds(),
{
    Position { x: wrap_one(v.x), y: wrap_one(v.y) }
}

/// A reduced coordinate lies on the board.
pub proof fn lemma_wrap_range(c: int)
    ensures
        0 <= wrap_coord(c) < SCREEN_SIZE,
{
    assert(0 <= c % 640 < 640);
}

/// Shifting a coordinate by any whole number of board sides does not change
/// what it is reduced to.
pub proof fn lemma_wrap_periodic(c: int, k: int)
    ensures
        wrap_coord(c + k * SCREEN_SIZE) == wrap_coord(c),
{
    let s = SCREEN_SIZE as int;
    assert(c + k * s == s * k + c) by (nonlinear_arith);
    lemma_mod_multiples_vanish(k, c, s);
}

/// Wrapping lands on the board, and two positions that differ by whole board
/// sides along each axis wrap to the same place.
pub proof fn lemma_wrap_around(p: Position, q: Position, kx: int, ky: int)
    requires
        q.x == p.x + kx * SCREEN_SIZE,
        q.y == p.y + ky * SCREEN_SIZE,
    ensures
        p.wrapped().in_bounds(),
        p.wrapped() == q.wrapped(),
{
    lemma_wrap_range(p.x as int);
    lemma_wrap_range(p.y as int);
    lemma_wrap_periodic(p.x as int, kx);
    lemma_wrap_periodic(p.y as int, ky);
}

/// The corner of the cell in column `cx` and row `cy`.
pub open spec fn cell_corner(cx: int, cy: int) -> Position {
    Position { x: (cx * CELL_SIZE) as i64, y: (cy * CELL_SIZE) as i64 }
}

/// The corner of the cell in column `cx` and row `cy` of the board.
pub fn grid_pos(cx: u32, cy: u32) -> (r: Position)
    requires
        cx < GRID_SIZE,
        cy < GRID_SIZE,
    ensures
        r == cell_corner(cx as int, cy as int),
        r.on_grid(),
{
    let x: i64 = (cx as i64) * CELL_SIZE;
    let y: i64 = (cy as i64) * CELL_SIZE;
    proof {
        vstd::arithmetic::div_mod::lemma_mod_multiples_basic(cx as int, CELL_SIZE as int);
        vstd::arithmetic::div_mod::lemma_mod_multiples_basic(cy as int, CELL_SIZE as int);
    }
    Position { x, y }
}

/// Draws a whole number below `n` with `rand::random_range`, from the
/// generator of the calling thread. Nothing is claimed of the draw but its
/// range, which is what the function documents; it panics on an empty range,
/// so `n` is positive.
#[verifier::external_body]
fn random_below(n: u32) -> (r: u32)
    requires
        n > 0,
    ensures
        r < n,
{
    rand::random_range(0..n)
}

/// The column and the row of a cell of the board, each drawn at random.
pub fn get_random_cell() -> (c: (u32, u32))
    ensures
        c.0 < GRID_SIZE,
        c.1 < GRID_SIZE,
{
    let cx: u32 = random_below(GRID_SIZE as u32);
    let cy: u32 = random_below(GRID_SIZE as u32);
    (cx, cy)
}

/// The corner of a cell of the board, drawn at random.
pub fn get_random_pos() -> (r: Position)
    ensures
        r.on_grid(),
        exists|cx: int, cy: int|
            0 <= cx < GRID_SIZE && 0 <= cy < GRID_SIZE && r == #[trigger] cell_corner(cx, cy),
{
    let cell = get_random_cell();
    grid_pos(cell.0, cell.1)
}

} // verus!
