//! The round: a snake, an apple, the scores of both kinds of board, and what
//! one frame does to them.

use vstd::prelude::*;
use crate::apple::Apple;
use crate::common::Position;
use crate::snake::{Keys, Snake, SnakeModel};

verus! {

/// Segments of the snake at the start of a round.
pub const START_LEN: usize = 3;

/// Cells that the snake moves in a second.
pub const SPEED: u32 = 8;

/// What one frame brings: the time since the last one, the direction keys
/// that went down, and whether the keys that switch the kind of board and
/// that start a new round came up.
#[derive(Clone, Copy, Debug, PartialEq, Eq, Structural)]
pub struct Frame {
    pub dt_micros: u64,
    pub keys: Keys,
    pub toggle_released: bool,
    pub restart_released: bool,
}

/// The numbers shown over the board, and whether the round is over.
#[derive(Clone, Copy, Debug, PartialEq, Eq, Structural)]
pub struct Hud {
    pub score: usize,
    pub prev_score: usize,
    pub high_score: usize,
    pub wrap_around: usize,
    pub game_over: bool,
}

/// A round and the scores kept across rounds.
pub struct GameState {
    pub snake: Snake,
    pub apple: Apple,
    pub prev_score_no_wrap_around: usize,
    pub high_score_no_wrap_around: usize,
    pub prev_score_wrap_around: usize,
    pub high_score_wrap_around: usize,
    pub wrap_around: bool,
    pub game_over: bool,
}

/// The stored number at place `i`, or 0 where fewer were stored.
pub open spec fn stored(saved: Seq<usize>, i: int) -> usize {
    if 0 <= i < saved.len() {
        saved[i]
    } else {
        0
    }
}

fn field(saved: &Vec<usize>, i: usize) -> (r: usize)
    ensures
        r == stored(saved@, i as int),
{
    if i < saved.len() {
        saved[i]
    } else {
        0
    }
}

impl GameState {
    /// The snake is in order.
    pub open spec fn wf(self) -> bool {
        self.snake.wf()
    }

    /// The last score of the current kind of board.
    pub open spec fn spec_prev_score(self) -> usize {
        if self.wrap_around {
            self.prev_score_wrap_around
        } else {
            self.prev_score_no_wrap_around
        }
    }

    /// The best score of the current kind of board.
    pub open spec fn spec_high_score(self) -> usize {
        if self.wrap_around {
            self.high_score_wrap_around
        } else {
            self.high_score_no_wrap_around
        }
    }

    /// The state after the running score was written down: a score of zero
    /// changes nothing; any other becomes the last score of the current kind
    /// of board, and its best score too where it is higher.
    pub open spec fn committed(self) -> GameState {
        let score = self.snake@.score() as usize;
        let high = if self.spec_high_score() < score {
            score
        } else {
            self.spec_high_score()
        };
        if score == 0 {
            self
        } else if self.wrap_around {
            GameState { prev_score_wrap_around: score, high_score_wrap_around: high, ..self }
        } else {
            GameState { prev_score_no_wrap_around: score, high_score_no_wrap_around: high, ..self }
        }
    }

    /// Whether this frame starts a new round on the other kind of board.
    pub open spec fn toggles(self, frame: Frame) -> bool {
        (self.game_over || self.snake@.score() == 0) && frame.toggle_released
    }

    /// Whether this frame starts a new round on the same kind of board.
    pub open spec fn restarts(self, frame: Frame) -> bool {
        !self.toggles(frame) && self.game_over && frame.restart_released
    }

    /// Whether this frame leaves a finished round as it is.
    pub open spec fn rests(self, frame: Frame) -> bool {
        !self.toggles(frame) && self.game_over && !frame.restart_released
    }

    /// The kind of board after this frame.
    pub open spec fn next_wrap(self, frame: Frame) -> bool {
        if self.toggles(frame) {
            !self.wrap_around
        } else {
            self.wrap_around
        }
    }

    /// The snake that this frame moves: a fresh one where a new round starts.
    pub open spec fn mover(self, frame: Frame) -> SnakeModel {
        if self.toggles(frame) || self.restarts(frame) {
            SnakeModel::fresh(self.snake@.start_len, self.snake@.speed, self.next_wrap(frame))
        } else {
            self.snake@
        }
    }

    /// `next` is what a frame that does not rest makes of `self`, where
    /// `apple` is the cell on which the apple lay while the snake moved.
    pub open spec fn plays(self, frame: Frame, apple: Position, next: GameState) -> bool {
        let fresh = self.toggles(frame) || self.restarts(frame);
        let base = if fresh {
            self.committed()
        } else {
            self
        };
        let dt = frame.dt_micros as nat;
        &&& if fresh {
            apple.on_grid()
        } else {
            apple == self.apple@
        }
        &&& next.snake@ == self.mover(frame).updated(dt, frame.keys, apple)
        &&& next.game_over == self.mover(frame).dies(dt, frame.keys, apple)
        &&& if apple == next.snake@.head() {
            next.apple@.on_grid()
        } else {
            next.apple@ == apple
        }
        &&& next.wrap_around == self.next_wrap(frame)
        &&& next.prev_score_no_wrap_around == base.prev_score_no_wrap_around
        &&& next.high_score_no_wrap_around == base.high_score_no_wrap_around
        &&& next.prev_score_wrap_around == base.prev_score_wrap_around
        &&& next.high_score_wrap_around == base.high_score_wrap_around
    }

    /// A round at its start, with the scores and the kind of board that were
    /// stored: last and best score without wrapping, last and best score with
    /// wrapping, and a number that is not zero where the board wraps. A number
    /// that was not stored counts as zero.
    pub fn new(saved: &Vec<usize>) -> (g: GameState)
        ensures
            g.wf(),
            g.prev_score_no_wrap_around == stored(saved@, 0),
            g.high_score_no_wrap_around == stored(saved@, 1),
            g.prev_score_wrap_around == stored(saved@, 2),
            g.high_score_wrap_around == stored(saved@, 3),
            g.wrap_around == (stored(saved@, 4) != 0),
            !g.game_over,
            g.snake@ == SnakeModel::fresh(START_LEN as nat, SPEED as nat, g.wrap_around),
            g.apple@.on_grid(),
    {
        let wrap_around: bool = field(saved, 4) != 0;
        GameState {
            snake: Snake::new(START_LEN, SPEED, wrap_around),
            apple: Apple::new(),
            prev_score_no_wrap_around: field(saved, 0),
            high_score_no_wrap_around: field(saved, 1),
            prev_score_wrap_around: field(saved, 2),
            high_score_wrap_around: field(saved, 3),
            wrap_around,
            game_over: false,
        }
    }

    /// Starts a new round on the kind of board given, after the score of the
    /// round that ends was written down for the kind of board it was played on.
    pub fn reset(&mut self, wrap_around: bool)
        requires
            old(self).wf(),
        ensures
            final(self).wf(),
            !final(self).game_over,
            final(self).wrap_around == wrap_around,
            final(self).snake@ == SnakeModel::fresh(
                old(self).snake@.start_len,
                old(self).snake@.speed,
                wrap_around,
            ),
            final(self).apple@.on_grid(),
            final(self).prev_score_no_wrap_around == old(self).committed().prev_score_no_wrap_around,
            final(self).high_score_no_wrap_around == old(self).committed().high_score_no_wrap_around,
            final(self).prev_score_wrap_around == old(self).committed().prev_score_wrap_around,
            final(self).high_score_wrap_around == old(self).committed().high_score_wrap_around,
    {
        self.game_over = false;
        self.update_scores();
        self.snake.reset(wrap_around);
        self.apple.reset();
        self.wrap_around = wrap_around;
    }

    /// Writes the running score down for the current kind of board.
    pub fn update_scores(&mut self)
        requires
            old(self).snake.wf(),
        ensures
            *final(self) == old(self).committed(),
    {
        let score: usize = self.snake.score();
        if score == 0 {
            return ;
        }
        let high: usize = if self.high_score() < score {
            score
        } else {
            self.high_score()
        };
        if self.wrap_around {
            self.prev_score_wrap_around = score;
            self.high_score_wrap_around = high;
        } else {
            self.prev_score_no_wrap_around = score;
            self.high_score_no_wrap_around = high;
        }
    }

    /// The last score of the current kind of board.
    pub fn prev_score(&self) -> (r: usize)
        ensures
            r == self.spec_prev_score(),
    {
        if self.wrap_around {
            self.prev_score_wrap_around
        } else {
            self.prev_score_no_wrap_around
        }
    }

    /// The best score of the current kind of board.
    pub fn high_score(&self) -> (r: usize)
        ensures
            r == self.spec_high_score(),
    {
        if self.wrap_around {
            self.high_score_wrap_around
        } else {
            self.high_score_no_wrap_around
        }
    }

    /// One frame. A finished round rests until a key starts a new one. A
    /// round that is finished, or has not scored yet, starts anew on the other
    /// kind of board when the key for that came up. Otherwise, and after such
    /// a start, the snake moves and the apple gives way to its head.
    pub fn update(&mut self, frame: &Frame)
        requires
            old(self).wf(),
        ensures
            final(self).wf(),
            old(self).rests(*frame) ==> *final(self) == *old(self),
            !old(self).rests(*frame) ==> exists|apple: Position| #[trigger]
                old(self).plays(*frame, apple, *final(self)),
    {
        if (self.game_over || self.snake.score() == 0) && frame.toggle_released {
            self.reset(!self.wrap_around);
        } else if self.game_over {
            if frame.restart_released {
                self.reset(self.wrap_around);
            } else {
                return ;
            }
        }
        let ghost lay = self.apple@;
        self.snake.update(frame.dt_micros, &frame.keys, &self.apple, &mut self.game_over);
        self.apple.update(&self.snake);
        assert(old(self).plays(*frame, lay, *final(self)));
    }

    /// What to show over the board.
    pub fn draw(&self) -> (hud: Hud)
        requires
            self.snake.wf(),
        ensures
            hud == (Hud {
                score: self.snake@.score() as usize,
                prev_score: self.spec_prev_score(),
                high_score: self.spec_high_score(),
                wrap_around: if self.wrap_around { 1usize } else { 0usize },
                game_over: self.game_over,
            }),
    {
        Hud {
            score: self.snake.score(),
            prev_score: self.prev_score(),
            high_score: self.high_score(),
            wrap_around: if self.wrap_around { 1 } else { 0 },
            game_over: self.game_over,
        }
    }

    /// The end of the session: writes the running score down and gives the
    /// five numbers to store, in the order in which `new` reads them.
    pub fn quit_event(&mut self) -> (saved: Vec<usize>)
        requires
            old(self).snake.wf(),
        ensures
            *final(self) == old(self).committed(),
            saved@ == seq![
                final(self).prev_score_no_wrap_around,
                final(self).high_score_no_wrap_around,
                final(self).prev_score_wrap_around,
                final(self).high_score_wrap_around,
                if final(self).wrap_around { 1usize } else { 0usize },
            ],
    {
        self.update_scores();
        let mut saved: Vec<usize> = Vec::new();
        saved.push(self.prev_score_no_wrap_around);
        saved.push(self.high_score_no_wrap_around);
        saved.push(self.prev_score_wrap_around);
        saved.push(self.high_score_wrap_around);
        saved.push(if self.wrap_around { 1 } else { 0 });
        assert(saved@ =~= seq![
            self.prev_score_no_wrap_around,
            self.high_score_no_wrap_around,
            self.prev_score_wrap_around,
            self.high_score_wrap_around,
            if self.wrap_around { 1usize } else { 0usize },
        ]);
        saved
    }
}

/// Writing the running score down a second time changes nothing.
pub proof fn lemma_commit_idempotent(g: GameState)
    ensures
        g.committed().committed() == g.committed(),
{
}

/// What is stored at the end of a session is what the next one starts with.
pub proof fn lemma_stored_round_trip(g: GameState, saved: Seq<usize>)
    requires
        saved == seq![
            g.prev_score_no_wrap_around,
            g.high_score_no_wrap_around,
            g.prev_score_wrap_around,
            g.high_score_wrap_around,
            if g.wrap_around { 1usize } else { 0usize },
        ],
    ensures
        stored(saved, 0) == g.prev_score_no_wrap_around,
        stored(saved, 1) == g.high_score_no_wrap_around,
        stored(saved, 2) == g.prev_score_wrap_around,
        stored(saved, 3) == g.high_score_wrap_around,
        (stored(saved, 4) != 0) == g.wrap_around,
        forall|i: int| i >= 5 ==> stored(saved, i) == 0,
{
}

} // verus!
