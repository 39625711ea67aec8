//! The snake: an ordered body of segments, a queue of pending turns, and the
//! rules of one discrete step.

use std::collections::VecDeque;
use vstd::prelude::*;
use crate::apple::Apple;
use crate::common::{wrap_around, Direction, Position, CELL_SIZE, SCREEN_SIZE};

verus! {

/// Sub-units in one render unit, and microseconds in one second.
pub const SUBUNITS: i64 = 1_000_000;

/// Progress, in sub-units, at which the snake takes one discrete step.
pub const STEP: u128 = 32_000_000;

/// One unit of the body: where it is and where it is sliding to.
#[derive(Clone, Copy, Debug, PartialEq, Eq, Structural)]
pub struct Segment {
    pub pos: Position,
    pub dir: Direction,
}

/// The direction keys that went down during one frame.
#[derive(Clone, Copy, Debug, PartialEq, Eq, Structural)]
pub struct Keys {
    pub w: bool,
    pub a: bool,
    pub s: bool,
    pub d: bool,
    pub up: bool,
    pub left: bool,
    pub down: bool,
    pub right: bool,
}

/// The snake of one round.
pub struct Snake {
    body: VecDeque<Segment>,
    start_len: usize,
    speed: u32,
    movement: u128,
    next_dir: VecDeque<Direction>,
    wrap_around: bool,
}

/// What a snake is: its segments from head to tail, its pending turns from
/// oldest to newest, and its progress towards the next step.
pub struct SnakeModel {
    pub body: Seq<Segment>,
    pub start_len: nat,
    pub speed: nat,
    pub movement: nat,
    pub next_dir: Seq<Direction>,
    pub wrap_around: bool,
}

/// The position one cell further along `d`.
pub open spec fn ahead(p: Position, d: Direction) -> Position {
    Position { x: (p.x + d.dx() * CELL_SIZE) as i64, y: (p.y + d.dy() * CELL_SIZE) as i64 }
}

/// The position one cell back along `d`.
pub open spec fn behind(p: Position, d: Direction) -> Position {
    Position { x: (p.x - d.dx() * CELL_SIZE) as i64, y: (p.y - d.dy() * CELL_SIZE) as i64 }
}

/// The body after its head moved to `head` and its last segment left.
pub open spec fn shifted(body: Seq<Segment>, head: Position) -> Seq<Segment> {
    seq![Segment { pos: head, dir: body[0].dir }] + body.drop_last()
}

/// The next cell of the head lies off the board.
pub open spec fn hits_wall(body: Seq<Segment>) -> bool {
    !ahead(body[0].pos, body[0].dir).in_bounds()
}

/// The body after the position shift of one step.
pub open spec fn advanced(body: Seq<Segment>, wrap: bool) -> Seq<Segment> {
    let next = ahead(body[0].pos, body[0].dir);
    if wrap {
        shifted(body, next.wrapped())
    } else if next.in_bounds() {
        shifted(body, next)
    } else {
        body
    }
}

/// The heading and the queue that are left once pending turns were taken from
/// the front of `queue` up to and including the first that `dir` accepts.
pub open spec fn drained(dir: Direction, queue: Seq<Direction>) -> (Direction, Seq<Direction>)
    decreases queue.len(),
{
    if queue.len() == 0 {
        (dir, queue)
    } else if dir.reverses(queue[0]) {
        drained(dir, queue.subrange(1, queue.len() as int))
    } else {
        (queue[0], queue.subrange(1, queue.len() as int))
    }
}

/// The body with the heading of its head replaced.
pub open spec fn turned(body: Seq<Segment>, dir: Direction) -> Seq<Segment> {
    body.update(0, Segment { pos: body[0].pos, dir })
}

/// The body with a copy of its last segment added one cell behind it.
pub open spec fn grown(body: Seq<Segment>) -> Seq<Segment> {
    body.push(Segment { pos: behind(body.last().pos, body.last().dir), dir: body.last().dir })
}

/// Some segment other than the head lies where the head is.
pub open spec fn bites_itself(body: Seq<Segment>) -> bool {
    exists|i: int| 1 <= i < body.len() && (#[trigger] body[i]).pos == body[0].pos
}

/// The turn that a key asks for, if the key went down.
pub open spec fn key_turn(pressed: bool, dir: Direction) -> Seq<Direction> {
    if pressed {
        seq![dir]
    } else {
        Seq::empty()
    }
}

/// The turns that the keys of one frame ask for, in the order in which the
/// keys are looked at.
pub open spec fn key_turns(keys: Keys) -> Seq<Direction> {
    key_turn(keys.w, Direction::Up) + key_turn(keys.a, Direction::Left) + key_turn(
        keys.s,
        Direction::Down,
    ) + key_turn(keys.d, Direction::Right) + key_turn(keys.up, Direction::Up) + key_turn(
        keys.left,
        Direction::Left,
    ) + key_turn(keys.down, Direction::Down) + key_turn(keys.right, Direction::Right)
}

/// Where a segment is painted: its cell, in sub-units, slid along its
/// heading by the progress made towards the next step.
pub open spec fn slid(seg: Segment, movement: int) -> Position {
    Position {
        x: (seg.pos.x * SUBUNITS + seg.dir.dx() * movement) as i64,
        y: (seg.pos.y * SUBUNITS + seg.dir.dy() * movement) as i64,
    }
}

/// The second square painted for a segment that crosses an edge of a board
/// that wraps: the same square one board side away, for the first edge that
/// it crosses among the right, the bottom, the left and the top one.
pub open spec fn far_side(m: Position) -> Seq<Position> {
    let span = SCREEN_SIZE * SUBUNITS;
    let cell = CELL_SIZE * SUBUNITS;
    if m.x + cell > span {
        seq![Position { x: (m.x - span) as i64, y: m.y }]
    } else if m.y + cell > span {
        seq![Position { x: m.x, y: (m.y - span) as i64 }]
    } else if m.x < 0 {
        seq![Position { x: (span + m.x) as i64, y: m.y }]
    } else if m.y < 0 {
        seq![Position { x: m.x, y: (span + m.y) as i64 }]
    } else {
        Seq::empty()
    }
}

/// The squares painted for one segment, in sub-units.
pub open spec fn segment_cells(seg: Segment, movement: int, wrap: bool) -> Seq<Position> {
    if wrap {
        seq![slid(seg, movement)] + far_side(slid(seg, movement))
    } else {
        seq![slid(seg, movement)]
    }
}

/// The squares painted for a body, from head to tail, in sub-units.
pub open spec fn body_cells(body: Seq<Segment>, movement: int, wrap: bool) -> Seq<Position>
    decreases body.len(),
{
    if body.len() == 0 {
        Seq::empty()
    } else {
        body_cells(body.drop_last(), movement, wrap) + segment_cells(body.last(), movement, wrap)
    }
}

/// Appending is associative.
proof fn lemma_append_assoc(a: Seq<Direction>, b: Seq<Direction>, c: Seq<Direction>)
    ensures
        (a + b) + c == a + (b + c),
{
    assert((a + b) + c =~= a + (b + c));
}

/// Within one cell of the board along both axes.
pub open spec fn near_board(p: Position) -> bool {
    &&& -CELL_SIZE <= p.x < SCREEN_SIZE + CELL_SIZE
    &&& -CELL_SIZE <= p.y < SCREEN_SIZE + CELL_SIZE
}

/// Every segment lies on the board.
pub open spec fn on_board(body: Seq<Segment>) -> bool {
    forall|i: int| 0 <= i < body.len() ==> (#[trigger] body[i]).pos.in_bounds()
}

/// Every segment but the last lies on the board, and the last within one
/// cell of it: where a segment that was just added may lie.
pub open spec fn within_reach(body: Seq<Segment>) -> bool {
    &&& forall|i: int| 0 <= i < body.len() - 1 ==> (#[trigger] body[i]).pos.in_bounds()
    &&& body.len() >= 1 ==> near_board(body.last().pos)
}

/// Every segment lies on a corner of the grid of cells, on the board or
/// beyond it.
pub open spec fn settled(body: Seq<Segment>) -> bool {
    forall|i: int| 0 <= i < body.len() ==> (#[trigger] body[i]).pos.aligned()
}

impl SnakeModel {
    /// Where the head is.
    pub open spec fn head(self) -> Position {
        self.body[0].pos
    }

    /// Where the head is heading.
    pub open spec fn dir(self) -> Direction {
        self.body[0].dir
    }

    /// Segments gained since the start: the apples eaten.
    pub open spec fn score(self) -> int {
        self.body.len() - self.start_len
    }

    /// The body is not empty and no shorter than at the start, every segment
    /// is on a corner of the grid, and all are on the board but the last,
    /// which may lie one cell off it.
    pub open spec fn body_ok(self) -> bool {
        &&& 1 <= self.start_len <= self.body.len()
        &&& self.head().in_bounds()
        &&& settled(self.body)
        &&& within_reach(self.body)
    }

    /// The body is in order and the progress is short of a whole cell.
    pub open spec fn wf(self) -> bool {
        &&& self.body_ok()
        &&& self.movement < STEP
    }

    /// A snake as it is at the start of a round.
    pub open spec fn fresh(start_len: nat, speed: nat, wrap_around: bool) -> SnakeModel {
        SnakeModel {
            body: Seq::new(
                start_len,
                |i: int| Segment { pos: Position { x: 0, y: 0 }, dir: Direction::Right },
            ),
            start_len,
            speed,
            movement: 0,
            next_dir: Seq::empty(),
            wrap_around,
        }
    }

    /// The pending turns with those of this frame's keys behind them.
    pub open spec fn heard(self, keys: Keys) -> SnakeModel {
        SnakeModel { next_dir: self.next_dir + key_turns(keys), ..self }
    }

    /// Progress after `dt` microseconds more.
    pub open spec fn progress(self, dt: nat) -> nat {
        self.movement + self.speed * (CELL_SIZE as nat) * dt
    }

    /// The step is refused because the board ends here.
    pub open spec fn blocked(self) -> bool {
        !self.wrap_around && hits_wall(self.body)
    }

    /// The snake after one discrete step. Where the board ends the step is
    /// refused: the progress falls back to nothing and all else stays as it
    /// is, pending turns included. Otherwise the body shifts by one cell and
    /// pending turns are taken up to the first that the heading accepts.
    pub open spec fn snapped(self) -> SnakeModel {
        if self.blocked() {
            SnakeModel { movement: 0, ..self }
        } else {
            let turn = drained(self.dir(), self.next_dir);
            SnakeModel {
                body: turned(advanced(self.body, self.wrap_around), turn.0),
                movement: self.movement % (STEP as nat),
                next_dir: turn.1,
                ..self
            }
        }
    }

    /// The snake after it ate the apple, if its head is on it.
    pub open spec fn fed(self, apple: Position) -> SnakeModel {
        if self.head() == apple {
            SnakeModel { body: grown(self.body), ..self }
        } else {
            self
        }
    }

    /// Whether a frame of `dt` microseconds brings a discrete step.
    pub open spec fn steps(self, dt: nat) -> bool {
        self.progress(dt) >= STEP
    }

    /// The snake after one frame. A step that is refused where the board
    /// ends is followed by no growth.
    pub open spec fn updated(self, dt: nat, keys: Keys, apple: Position) -> SnakeModel {
        let moving = SnakeModel { movement: self.progress(dt), ..self.heard(keys) };
        if !self.steps(dt) {
            moving
        } else if self.blocked() {
            moving.snapped()
        } else {
            moving.snapped().fed(apple)
        }
    }

    /// Whether one frame brings a step that ends with the head on the apple.
    pub open spec fn eats(self, dt: nat, keys: Keys, apple: Position) -> bool {
        let moving = SnakeModel { movement: self.progress(dt), ..self.heard(keys) };
        self.steps(dt) && !self.blocked() && moving.snapped().head() == apple
    }

    /// Whether one frame ends the round.
    pub open spec fn dies(self, dt: nat, keys: Keys, apple: Position) -> bool {
        self.steps(dt) && (self.blocked() || bites_itself(self.updated(dt, keys, apple).body))
    }
}

impl View for Snake {
    type V = SnakeModel;

    closed spec fn view(&self) -> SnakeModel {
        SnakeModel {
            body: self.body@,
            start_len: self.start_len as nat,
            speed: self.speed as nat,
            movement: self.movement as nat,
            next_dir: self.next_dir@,
            wrap_around: self.wrap_around,
        }
    }
}

impl Snake {
    /// The snake is in order between two frames.
    pub open spec fn wf(&self) -> bool {
        self@.wf()
    }

    /// A snake of `start_len` segments stacked on the first cell, heading
    /// right, that moves `speed` cells a second.
    pub fn new(start_len: usize, speed: u32, wrap_around: bool) -> (s: Snake)
        requires
            start_len >= 1,
        ensures
            s@ == SnakeModel::fresh(start_len as nat, speed as nat, wrap_around),
            s.wf(),
    {
        Snake {
            body: Self::create_body(start_len),
            start_len,
            speed,
            movement: 0,
            next_dir: VecDeque::new(),
            wrap_around,
        }
    }

    /// Puts the snake back to the start of a round, keeping its start length
    /// and speed.
    pub fn reset(&mut self, wrap_around: bool)
        requires
            old(self)@.start_len >= 1,
        ensures
            final(self)@ == SnakeModel::fresh(old(self)@.start_len, old(self)@.speed, wrap_around),
            final(self).wf(),
    {
        self.body = Self::create_body(self.start_len);
        self.movement = 0;
        self.next_dir = VecDeque::new();
        self.wrap_around = wrap_around;
    }

    fn create_body(n: usize) -> (body: VecDeque<Segment>)
        ensures
            body@ == SnakeModel::fresh(n as nat, 0, false).body,
    {
        let mut body: VecDeque<Segment> = VecDeque::new();
        let first = Segment { pos: Position { x: 0, y: 0 }, dir: Direction::Right };
        let mut i: usize = 0;
        while i < n
            invariant
                i <= n,
                body@.len() == i,
                forall|j: int| 0 <= j < i ==> body@[j] == first,
                first == (Segment { pos: Position { x: 0, y: 0 }, dir: Direction::Right }),
            decreases n - i,
        {
            body.push_front(first);
            i = i + 1;
        }
        assert(body@ =~= SnakeModel::fresh(n as nat, 0, false).body);
        body
    }

    /// Where the head is.
    pub fn get_vec(&self) -> (r: &Position)
        requires
            self.wf(),
        ensures
            *r == self@.head(),
    {
        self.get_head()
    }

    /// The apples eaten so far.
    pub fn score(&self) -> (r: usize)
        requires
            self.wf(),
        ensures
            r == self@.score(),
    {
        self.body.len() - self.start_len
    }

    fn get_head(&self) -> (r: &Position)
        requires
            self@.body.len() >= 1,
        ensures
            *r == self@.head(),
    {
        &self.body[0].pos
    }

    fn try_set_dir(&mut self, pressed: bool, dir: Direction)
        ensures
            final(self)@ == (SnakeModel {
                next_dir: old(self)@.next_dir + key_turn(pressed, dir),
                ..old(self)@
            }),
    {
        if pressed {
            self.next_dir.push_back(dir);
        }
        assert(final(self)@.next_dir =~= old(self)@.next_dir + key_turn(pressed, dir));
    }

    /// Queues one turn for each direction key that went down, in a fixed
    /// order of the keys.
    pub fn get_input(&mut self, keys: &Keys)
        ensures
            final(self)@ == old(self)@.heard(*keys),
    {
        self.try_set_dir(keys.w, Direction::Up);
        self.try_set_dir(keys.a, Direction::Left);
        self.try_set_dir(keys.s, Direction::Down);
        self.try_set_dir(keys.d, Direction::Right);

        self.try_set_dir(keys.up, Direction::Up);
        self.try_set_dir(keys.left, Direction::Left);
        self.try_set_dir(keys.down, Direction::Down);
        self.try_set_dir(keys.right, Direction::Right);
        proof {
            let q = old(self)@.next_dir;
            let k1 = key_turn(keys.w, Direction::Up);
            let k2 = k1 + key_turn(keys.a, Direction::Left);
            let k3 = k2 + key_turn(keys.s, Direction::Down);
            let k4 = k3 + key_turn(keys.d, Direction::Right);
            let k5 = k4 + key_turn(keys.up, Direction::Up);
            let k6 = k5 + key_turn(keys.left, Direction::Left);
            let k7 = k6 + key_turn(keys.down, Direction::Down);
            lemma_append_assoc(q, k1, key_turn(keys.a, Direction::Left));
            lemma_append_assoc(q, k2, key_turn(keys.s, Direction::Down));
            lemma_append_assoc(q, k3, key_turn(keys.d, Direction::Right));
            lemma_append_assoc(q, k4, key_turn(keys.up, Direction::Up));
            lemma_append_assoc(q, k5, key_turn(keys.left, Direction::Left));
            lemma_append_assoc(q, k6, key_turn(keys.down, Direction::Down));
            lemma_append_assoc(q, k7, key_turn(keys.right, Direction::Right));
        }
    }

    /// Turns the head to `dir` unless that reverses its heading; says whether
    /// it turned.
    pub fn set_dir(&mut self, dir: Direction) -> (turns: bool)
        requires
            old(self)@.body.len() >= 1,
        ensures
            turns == !old(self)@.dir().reverses(dir),
            turns ==> final(self)@ == (SnakeModel {
                body: turned(old(self)@.body, dir),
                ..old(self)@
            }),
            !turns ==> final(self)@ == old(self)@,
    {
        if self.get_dir().is_reversal(dir) {
            return false;
        }
        if let Some(head) = self.body.pop_front() {
            self.body.push_front(Segment { pos: head.pos, dir });
        }
        assert(final(self)@.body =~= turned(old(self)@.body, dir));
        true
    }

    /// One discrete step. On a board that does not wrap, a step that would
    /// take the head off the board is refused: the round ends, the progress
    /// falls back to nothing, and neither a segment nor a pending turn is
    /// touched. Otherwise the body shifts by one cell, around the edge where
    /// the board wraps, and pending turns are taken up to the first accepted.
    pub fn snap_to_grid(&mut self, game_over: &mut bool)
        requires
            old(self)@.body_ok(),
        ensures
            final(self)@ == old(self)@.snapped(),
            *final(game_over) == (*old(game_over) || old(self)@.blocked()),
            final(self).wf(),
            !old(self)@.blocked() ==> on_board(final(self)@.body),
    {
        self.movement = self.movement % STEP;

        let head: Position = *self.get_head();
        let dir: Direction = self.get_dir();
        let new_head = Position {
            x: head.x + dir.x() * CELL_SIZE,
            y: head.y + dir.y() * CELL_SIZE,
        };
        if self.wrap_around {
            self.body.push_front(Segment { pos: wrap_around(new_head), dir });
            self.body.pop_back();
        } else if new_head.x < 0 || new_head.y < 0 || new_head.x >= SCREEN_SIZE || new_head.y
            >= SCREEN_SIZE {
            self.movement = 0;
            *game_over = true;
            return ;
        } else {
            self.body.push_front(Segment { pos: new_head, dir });
            self.body.pop_back();
        }
        let ghost shift = self.body@;
        let ghost goal = drained(dir, old(self)@.next_dir);
        assert(shift =~= advanced(old(self)@.body, old(self)@.wrap_around));
        assert(shift =~= turned(shift, dir));

        let mut done: bool = false;
        while !done
            invariant
                self.body@.len() == shift.len(),
                shift.len() >= 1,
                self.body@ == turned(shift, self@.dir()),
                done ==> self@.dir() == goal.0 && self.next_dir@ == goal.1,
                !done ==> drained(self@.dir(), self.next_dir@) == goal,
                self.start_len == old(self).start_len,
                self.speed == old(self).speed,
                self.wrap_around == old(self).wrap_around,
                self.movement == old(self).movement % STEP,
            decreases self.next_dir@.len() + (if done { 0int } else { 1int }),
        {
            match self.next_dir.pop_front() {
                Some(d) => {
                    if self.set_dir(d) {
                        done = true;
                    }
                    assert(self.body@ =~= turned(shift, self@.dir()));
                },
                None => {
                    done = true;
                },
            }
        }
        assert(settled(self.body@)) by {
            assert forall|i: int| 0 <= i < self.body@.len() implies (
            #[trigger] self.body@[i]).pos.aligned() by {
                if i > 0 {
                    assert(self.body@[i].pos == old(self)@.body[i - 1].pos);
                } else {
                    assert(old(self)@.body[0].pos.aligned());
                }
            }
        }
        assert(on_board(self.body@)) by {
            assert forall|i: int| 0 <= i < self.body@.len() implies (
            #[trigger] self.body@[i]).pos.in_bounds() by {
                if i > 0 {
                    assert(self.body@[i].pos == old(self)@.body[i - 1].pos);
                    assert(old(self)@.body[i - 1].pos.in_bounds());
                }
            }
        }
    }

    /// Grows by one segment behind the tail if the head is on the apple. The
    /// snake stays in order where all of it was on the board, as it is after
    /// a step that was taken.
    pub fn check_apple_collisions(&mut self, apple: &Apple)
        requires
            old(self).wf(),
        ensures
            final(self)@ == old(self)@.fed(apple@),
            old(self)@.head() == apple@ ==> final(self)@.body.len() == old(self)@.body.len() + 1
                && final(self)@.score() == old(self)@.score() + 1,
            old(self)@.head() != apple@ ==> final(self)@ == old(self)@,
            on_board(old(self)@.body) || old(self)@.head() != apple@ ==> final(self).wf(),
    {
        if *self.get_head() == *apple.get_vec() {
            let back: Segment = self.body[self.body.len() - 1];
            assert(back == old(self)@.body.last());
            let tail = Segment {
                pos: Position {
                    x: back.pos.x - back.dir.x() * CELL_SIZE,
                    y: back.pos.y - back.dir.y() * CELL_SIZE,
                },
                dir: back.dir,
            };
            self.body.push_back(tail);
            assert(self.body@ =~= grown(old(self)@.body));
            assert forall|i: int| 0 <= i < self.body@.len() implies (
            #[trigger] self.body@[i]).pos.aligned() by {
                if i < old(self)@.body.len() {
                    assert(self.body@[i] == old(self)@.body[i]);
                } else {
                    assert(old(self)@.body[old(self)@.body.len() - 1].pos.aligned());
                }
            }
            proof {
                if on_board(old(self)@.body) {
                    assert(back.pos.in_bounds());
                    assert forall|i: int| 0 <= i < self.body@.len() - 1 implies (
                    #[trigger] self.body@[i]).pos.in_bounds() by {
                        assert(self.body@[i] == old(self)@.body[i]);
                    }
                    assert(self.body@.last() == tail);
                }
            }
        }
    }

    /// Ends the round if any segment but the head lies where the head is.
    pub fn check_own_collisions(&self, game_over: &mut bool)
        requires
            self@.body.len() >= 1,
        ensures
            *final(game_over) == (*old(game_over) || bites_itself(self@.body)),
    {
        let head: Position = *self.get_head();
        let mut i: usize = 1;
        let mut hit: bool = false;
        while i < self.body.len()
            invariant
                1 <= i <= self.body@.len(),
                head == self@.head(),
                hit == (exists|j: int| 1 <= j < i && (#[trigger] self.body@[j]).pos == head),
            decreases self.body@.len() - i,
        {
            if self.body[i].pos == head {
                hit = true;
            }
            i = i + 1;
        }
        if hit {
            *game_over = true;
        }
    }

    /// One frame: queues the turns of the keys that went down, adds the
    /// progress of `dt_micros` microseconds, and takes at most one discrete
    /// step once a whole cell is reached. A step that is taken is followed by
    /// the apple and self collisions; one that is refused where the board
    /// ends the round and leaves the body as it is.
    pub fn update(&mut self, dt_micros: u64, keys: &Keys, apple: &Apple, game_over: &mut bool)
        requires
            old(self).wf(),
        ensures
            final(self).wf(),
            final(self)@ == old(self)@.updated(dt_micros as nat, *keys, apple@),
            *final(game_over) == (*old(game_over) || old(self)@.dies(
                dt_micros as nat,
                *keys,
                apple@,
            )),
            final(self)@.score() == old(self)@.score() + (if old(self)@.eats(
                dt_micros as nat,
                *keys,
                apple@,
            ) {
                1int
            } else {
                0int
            }),
    {
        self.get_input(keys);

        let cell: u128 = 32;
        assert(cell == CELL_SIZE);
        let rate: u128 = (self.speed as u128) * cell;
        assert(rate * dt_micros <= 0x20_0000_0000 * 0xffff_ffff_ffff_ffff) by (nonlinear_arith)
            requires
                0 <= rate <= 0x20_0000_0000,
                0 <= dt_micros <= 0xffff_ffff_ffff_ffff,
        ;
        let gain: u128 = rate * (dt_micros as u128);
        assert(gain == (self.speed as nat) * (CELL_SIZE as nat) * (dt_micros as nat));
        self.movement = self.movement + gain;
        if self.movement >= STEP {
            let mut stopped: bool = false;
            self.snap_to_grid(&mut stopped);
            if stopped {
                *game_over = true;
            } else {
                self.check_apple_collisions(apple);
                self.check_own_collisions(game_over);
            }
        }
    }

    /// The squares to paint, from head to tail, as corners in sub-units. On a
    /// board that wraps, a segment that crosses an edge is followed by its
    /// square on the far side.
    pub fn draw(&self) -> (cells: Vec<Position>)
        requires
            self.wf(),
        ensures
            cells@ == body_cells(self@.body, self@.movement as int, self@.wrap_around),
    {
        let span: i64 = SCREEN_SIZE * SUBUNITS;
        let cell: i64 = CELL_SIZE * SUBUNITS;
        let progress: i64 = self.movement as i64;
        let mut cells: Vec<Position> = Vec::new();
        let mut i: usize = 0;
        while i < self.body.len()
            invariant
                i <= self.body@.len(),
                self.wf(),
                span == SCREEN_SIZE * SUBUNITS,
                cell == CELL_SIZE * SUBUNITS,
                progress == self@.movement,
                cells@ == body_cells(
                    self@.body.take(i as int),
                    self@.movement as int,
                    self@.wrap_around,
                ),
            decreases self.body@.len() - i,
        {
            let seg: Segment = self.body[i];
            assert(self@.body[i as int] == seg);
            assert(near_board(seg.pos)) by {
                if i < self@.body.len() - 1 {
                    assert(self@.body[i as int].pos.in_bounds());
                } else {
                    assert(self@.body.last() == seg);
                }
            }
            let slide_x: i64 = along(seg.dir.x(), progress);
            let slide_y: i64 = along(seg.dir.y(), progress);
            let moved = Position {
                x: seg.pos.x * SUBUNITS + slide_x,
                y: seg.pos.y * SUBUNITS + slide_y,
            };
            assert(-64 * 1_000_000 <= moved.x <= 704 * 1_000_000);
            assert(-64 * 1_000_000 <= moved.y <= 704 * 1_000_000);
            assert(moved == slid(seg, progress as int));
            cells.push(moved);
            if self.wrap_around {
                if moved.x + cell > span {
                    cells.push(Position { x: moved.x - span, y: moved.y });
                } else if moved.y + cell > span {
                    cells.push(Position { x: moved.x, y: moved.y - span });
                } else if moved.x < 0 {
                    cells.push(Position { x: span + moved.x, y: moved.y });
                } else if moved.y < 0 {
                    cells.push(Position { x: moved.x, y: span + moved.y });
                }
            }
            proof {
                let upto = self@.body.take(i as int + 1);
                assert(upto.drop_last() =~= self@.body.take(i as int));
                assert(upto.last() == seg);
                assert(cells@ =~= body_cells(
                    self@.body.take(i as int),
                    self@.movement as int,
                    self@.wrap_around,
                ) + segment_cells(seg, self@.movement as int, self@.wrap_around));
            }
            i = i + 1;
        }
        assert(self@.body.take(i as int) =~= self@.body);
        cells
    }

    /// Where the head is heading.
    pub fn get_dir(&self) -> (r: Direction)
        requires
            self@.body.len() >= 1,
        ensures
            r == self@.dir(),
    {
        self.body[0].dir
    }
}

/// `amount` along a component of a unit vector.
fn along(unit: i64, amount: i64) -> (r: i64)
    requires
        -1 <= unit <= 1,
        0 <= amount < STEP,
    ensures
        r == unit * amount,
        -amount <= r <= amount,
{
    if unit == 0 {
        assert(unit * amount == 0) by (nonlinear_arith)
            requires
                unit == 0,
        ;
        0
    } else if unit == 1 {
        assert(unit * amount == amount) by (nonlinear_arith)
            requires
                unit == 1,
        ;
        amount
    } else {
        assert(unit * amount == -amount) by (nonlinear_arith)
            requires
                unit == -1,
        ;
        -amount
    }
}

/// A frame whose step is taken and ends with the head on the apple makes the
/// body longer by exactly one segment and the score higher by exactly one.
/// Any other frame leaves both as they were.
pub proof fn lemma_growth(s: SnakeModel, dt: nat, keys: Keys, apple: Position)
    requires
        s.wf(),
    ensures
        s.eats(dt, keys, apple) ==> {
            &&& s.updated(dt, keys, apple).body.len() == s.body.len() + 1
            &&& s.updated(dt, keys, apple).score() == s.score() + 1
        },
        !s.eats(dt, keys, apple) ==> {
            &&& s.updated(dt, keys, apple).body.len() == s.body.len()
            &&& s.updated(dt, keys, apple).score() == s.score()
        },
{
}

/// On a board that does not wrap, a step that would take the head off the
/// board ends the round and leaves the snake as it was but for its progress,
/// which falls back to nothing: the body keeps its length, and every segment
/// its position and heading. This holds of the step and of the whole frame,
/// wherever the apple lies; of the frame's keys, the turns are queued and
/// none is taken.
pub proof fn lemma_wall_stops(s: SnakeModel, dt: nat, keys: Keys, apple: Position)
    requires
        s.wf(),
        s.blocked(),
    ensures
        s.snapped() == (SnakeModel { movement: 0, ..s }),
        s.steps(dt) ==> s.dies(dt, keys, apple),
        s.steps(dt) ==> s.updated(dt, keys, apple) == (SnakeModel {
            movement: 0,
            next_dir: s.next_dir + key_turns(keys),
            ..s
        }),
        s.steps(dt) ==> s.updated(dt, keys, apple).body == s.body,
{
}

} // verus!
