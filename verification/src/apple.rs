//! The apple: one cell of the board, moved elsewhere when the snake reaches it.

use vstd::prelude::*;
use crate::common::{get_random_cell, get_random_pos, grid_pos, vec2_to_rect, cell_corner, Position, Rect, GRID_SIZE};
use crate::snake::Snake;

verus! {

/// The apple of one round.
pub struct Apple {
    pos: Position,
}

impl View for Apple {
    type V = Position;

    /// The cell the apple lies on.
    closed spec fn view(&self) -> Position {
        self.pos
    }
}

impl Apple {
    /// An apple on a cell drawn at random.
    pub fn new() -> (a: Apple)
        ensures
            a@.on_grid(),
    {
        Apple { pos: get_random_pos() }
    }

    /// An apple on the cell in column `cx` and row `cy`.
    pub fn at_cell(cx: u32, cy: u32) -> (a: Apple)
        requires
            cx < GRID_SIZE,
            cy < GRID_SIZE,
        ensures
            a@ == cell_corner(cx as int, cy as int),
            a@.on_grid(),
    {
        Apple { pos: grid_pos(cx, cy) }
    }

    /// Moves the apple to a cell drawn at random, which may lie under the snake.
    pub fn reset(&mut self)
        ensures
            final(self)@.on_grid(),
    {
        self.pos = get_random_pos();
    }

    /// Moves the apple to a cell drawn at random if the snake's head is on it,
    /// and leaves it alone otherwise. The cell drawn may be the head's own.
    pub fn update(&mut self, snake: &Snake)
        requires
            snake.wf(),
        ensures
            old(self)@ != snake@.head() ==> final(self)@ == old(self)@,
            old(self)@ == snake@.head() ==> final(self)@.on_grid(),
    {
        if self.pos == *snake.get_vec() {
            let cell = get_random_cell();
            self.update_to(snake, cell.0, cell.1);
        }
    }

    /// Moves the apple to the cell in column `cx` and row `cy` if the snake's
    /// head is on it, and leaves it alone otherwise.
    pub fn update_to(&mut self, snake: &Snake, cx: u32, cy: u32)
        requires
            snake.wf(),
            cx < GRID_SIZE,
            cy < GRID_SIZE,
        ensures
            old(self)@ == snake@.head() ==> final(self)@ == cell_corner(cx as int, cy as int),
            old(self)@ != snake@.head() ==> final(self)@ == old(self)@,
            cell_corner(cx as int, cy as int) != snake@.head() ==> final(self)@ != snake@.head(),
    {
        if self.pos == *snake.get_vec() {
            self.pos = grid_pos(cx, cy);
        }
    }

    /// The square to paint for the apple.
    pub fn draw(&self) -> (r: Rect)
        ensures
            r == (Rect { x: self@.x, y: self@.y, w: crate::common::CELL_SIZE, h: crate::common::CELL_SIZE }),
    {
        vec2_to_rect(self.pos)
    }

    /// The cell the apple lies on.
    pub fn get_vec(&self) -> (r: &Position)
        ensures
            *r == self@,
    {
        &self.pos
    }
}

} // verus!
