use vstd::prelude::*;

use std::collections::VecDeque;

use crate::app_owned_data::{InputEvent, Key, Time, TickSignal};
use crate::collider::{hits_any, intersects_any, ColliderLayer, ColliderType, AABB};
use crate::board::{Board, Position};

verus! {

/// Largest distance between the head and a cell centre at which a pending turn
/// may be taken, at the initial speed.
pub const GRID_TRESHOLD: i64 = 4_000;

/// How much the snapping distance widens for each multiple of the initial
/// speed gained.
pub const TRESHOLD_PER_SPEED: i64 = 3_000;

pub const INIT_LENGTH: i64 = 100_000;

pub const LENGTH_PER_FOOD: i64 = 10_000;

/// Speeds are in units per second.
pub const INIT_SPEED: i64 = 120_000;

pub const MAX_SPEED: i64 = 160_000;

pub const SPEED_PER_FOOD: i64 = 3_000;

/// Longest stay against a wall, in microseconds, before the life ends.
pub const MAX_DURATION_ON_EDGE: u64 = 100_000;

/// The trail length saturates here, far beyond any reachable play, so that
/// every hitbox coordinate fits in an `i64`.
pub const LENGTH_LIMIT: i64 = 4_000_000_000_000_000_000;

pub const MICROS_PER_SECOND: u64 = 1_000_000;

/// A direction of travel. `Up` increases y, `Right` increases x.
#[derive(Clone, Copy, Debug, PartialEq, Eq, Structural)]
pub enum MoveDir {
    Up,
    Right,
    Down,
    Left,
}

/// The opposite direction.
pub open spec fn inverse(d: MoveDir) -> MoveDir {
    match d {
        MoveDir::Up => MoveDir::Down,
        MoveDir::Right => MoveDir::Left,
        MoveDir::Down => MoveDir::Up,
        MoveDir::Left => MoveDir::Right,
    }
}

pub open spec fn is_vertical(d: MoveDir) -> bool {
    d is Up || d is Down
}

/// Two directions at a right angle to each other.
pub open spec fn perpendicular(a: MoveDir, b: MoveDir) -> bool {
    is_vertical(a) != is_vertical(b)
}

impl MoveDir {
    /// The opposite direction.
    pub fn invert(&self) -> (r: Self)
        ensures
            r == inverse(*self),
    {
        match self {
            Self::Up => Self::Down,
            Self::Right => Self::Left,
            Self::Down => Self::Up,
            Self::Left => Self::Right,
        }
    }
}

/// Inverting twice gives the direction back, and never gives the same one.
pub proof fn lemma_inverse_involution(d: MoveDir)
    ensures
        inverse(inverse(d)) == d,
        inverse(d) != d,
        !perpendicular(d, inverse(d)),
{
}

/// A turning point on the trail: where it was, the direction that leads back
/// from it along the trail, and how far the head has travelled since.
#[derive(Clone, Copy, Debug, PartialEq, Eq, Structural)]
pub struct DirKeypoint {
    pub from: MoveDir,
    pub at: Position,
    pub dst_head: i64,
}

/// The snake. Its head moves continuously; turns wait for the head to be near
/// a cell centre; its body is the trail of recorded turning points.
///
/// Lengths are in board units, speeds in units per second, times in
/// microseconds. The methods ask for [`Snek::wf`], which [`Snek::on_setup`]
/// establishes and every method keeps.
pub struct Snek {
    pub position: Position,
    pub dir: MoveDir,
    pub dir_candidate: Option<MoveDir>,
    /// Oldest turning point first.
    pub dir_keypoints: VecDeque<DirKeypoint>,
    pub length: i64,
    pub radius: i64,
    pub speed: i64,
    pub in_edge: u64,
    pub game_over: bool,
}

/// The snake as a value of mathematics.
pub struct SnekState {
    pub position: Position,
    pub dir: MoveDir,
    pub dir_candidate: Option<MoveDir>,
    pub keypoints: Seq<DirKeypoint>,
    pub length: i64,
    pub radius: i64,
    pub speed: i64,
    pub in_edge: u64,
    pub game_over: bool,
}

impl View for Snek {
    type V = SnekState;

    open spec fn view(&self) -> SnekState {
        SnekState {
            position: self.position,
            dir: self.dir,
            dir_candidate: self.dir_candidate,
            keypoints: self.dir_keypoints@,
            length: self.length,
            radius: self.radius,
            speed: self.speed,
            in_edge: self.in_edge,
            game_over: self.game_over,
        }
    }
}

pub open spec fn min_int(a: int, b: int) -> int {
    if a <= b {
        a
    } else {
        b
    }
}

pub open spec fn clamp(v: int, lo: int, hi: int) -> int {
    if v < lo {
        lo
    } else if v > hi {
        hi
    } else {
        v
    }
}

/// Whether `p` lies where a head of radius `r` may stand on `board`.
pub open spec fn inside(board: &Board, p: Position, r: int) -> bool {
    &&& r <= p.x <= board.width - r
    &&& r <= p.y <= board.height - r
}

/// Distance covered at `speed` units per second in `dt` microseconds.
pub open spec fn move_distance(speed: int, dt: int) -> int {
    speed * dt / MICROS_PER_SECOND as int
}

/// Every trail point advanced by `d`.
pub open spec fn advance_trail(kps: Seq<DirKeypoint>, d: int) -> Seq<DirKeypoint> {
    kps.map_values(|k: DirKeypoint| DirKeypoint { dst_head: (k.dst_head + d) as i64, ..k })
}

/// The trail without its oldest points that lie farther than `length` behind
/// the head.
pub open spec fn prune_trail(kps: Seq<DirKeypoint>, length: int) -> Seq<DirKeypoint>
    decreases kps.len(),
{
    if kps.len() > 0 && kps[0].dst_head > length {
        prune_trail(kps.drop_first(), length)
    } else {
        kps
    }
}

/// Older trail points lie farther behind the head.
pub open spec fn trail_ordered(kps: Seq<DirKeypoint>) -> bool {
    forall|i: int, j: int|
        0 <= i < j < kps.len() ==> #[trigger] kps[i].dst_head >= #[trigger] kps[j].dst_head
}

/// How far the head may be from a cell centre for a turn to be taken.
pub open spec fn snap_threshold(speed: int, grid: int) -> int {
    clamp(
        GRID_TRESHOLD + (speed - INIT_SPEED) * TRESHOLD_PER_SPEED / INIT_SPEED as int,
        0,
        grid * 9 / 10,
    )
}

pub open spec fn abs(v: int) -> int {
    if v < 0 {
        -v
    } else {
        v
    }
}

impl SnekState {
    /// The invariant of a live snake on `board`.
    pub open spec fn wf(&self, board: &Board) -> bool {
        &&& board.wf()
        &&& board.nonempty()
        &&& self.radius == board.grid_size / 2
        &&& inside(board, self.position, self.radius as int)
        &&& INIT_SPEED <= self.speed <= MAX_SPEED
        &&& 0 <= self.length <= LENGTH_LIMIT
        &&& trail_ordered(self.keypoints)
        &&& forall|i: int|
            0 <= i < self.keypoints.len() ==> {
                &&& 0 <= #[trigger] self.keypoints[i].dst_head <= self.length
                &&& inside(board, self.keypoints[i].at, self.radius as int)
            }
        &&& (self.dir_candidate matches Some(c) ==> perpendicular(c, self.dir))
        &&& (!self.game_over ==> self.in_edge <= MAX_DURATION_ON_EDGE)
    }

    /// The head after travelling `d` along the current direction, held on the
    /// board.
    pub open spec fn moved(&self, board: &Board, d: int) -> Position {
        let r = self.radius as int;
        let p = self.position;
        match self.dir {
            MoveDir::Up => Position { y: clamp(p.y + d, r, board.height - r) as i64, ..p },
            MoveDir::Down => Position { y: clamp(p.y - d, r, board.height - r) as i64, ..p },
            MoveDir::Right => Position { x: clamp(p.x + d, r, board.width - r) as i64, ..p },
            MoveDir::Left => Position { x: clamp(p.x - d, r, board.width - r) as i64, ..p },
        }
    }

    /// Whether the head is held against the wall it is heading into.
    pub open spec fn against_edge(&self, board: &Board) -> bool {
        let r = self.radius as int;
        match self.dir {
            MoveDir::Up => self.position.y == board.height - r,
            MoveDir::Down => self.position.y == r,
            MoveDir::Right => self.position.x == board.width - r,
            MoveDir::Left => self.position.x == r,
        }
    }

    /// Integration: the head moves, nothing else.
    pub open spec fn after_move(self, board: &Board, d: int) -> SnekState {
        SnekState { position: self.moved(board, d), ..self }
    }

    /// Against a wall the dwell time grows and may end the life; elsewhere it
    /// is cleared and the trail ages by `d`.
    pub open spec fn after_edge_check(self, board: &Board, d: int, dt: int) -> SnekState {
        if self.against_edge(board) {
            let in_edge = min_int(self.in_edge + dt, u64::MAX as int);
            SnekState {
                in_edge: in_edge as u64,
                game_over: self.game_over || in_edge > MAX_DURATION_ON_EDGE,
                ..self
            }
        } else {
            SnekState {
                keypoints: prune_trail(advance_trail(self.keypoints, d), self.length as int),
                in_edge: 0,
                ..self
            }
        }
    }

    /// The head with the coordinate along its travel snapped to the centre of
    /// its cell, when it is near enough to that centre.
    pub open spec fn snapped(&self, board: &Board) -> Option<Position> {
        let mid = board.midpoint_of(self.position).unwrap();
        let threshold = snap_threshold(self.speed as int, board.grid_size as int);
        if is_vertical(self.dir) {
            if abs(mid.y - self.position.y) < threshold {
                Some(Position { y: mid.y, ..self.position })
            } else {
                None
            }
        } else {
            if abs(mid.x - self.position.x) < threshold {
                Some(Position { x: mid.x, ..self.position })
            } else {
                None
            }
        }
    }

    /// Whether the head is in another cell than the newest turning point.
    pub open spec fn left_last_turn_cell(&self, board: &Board) -> bool {
        let n = self.keypoints.len();
        n == 0 || board.midpoint_of(self.keypoints[n - 1].at) != board.midpoint_of(self.position)
    }

    /// Turn commitment: a pending turn is taken once the head has left the
    /// cell of the previous turn and lies near its cell centre.
    pub open spec fn after_turn(self, board: &Board) -> SnekState {
        if self.dir_candidate is Some && self.left_last_turn_cell(board)
            && self.snapped(board) is Some {
            let pos = self.snapped(board).unwrap();
            SnekState {
                keypoints: self.keypoints.push(
                    DirKeypoint { from: inverse(self.dir), at: pos, dst_head: 0 },
                ),
                dir: self.dir_candidate.unwrap(),
                dir_candidate: None,
                position: pos,
                ..self
            }
        } else {
            self
        }
    }

    /// One frame of `dt` microseconds. A snake whose life has ended stays as
    /// it is.
    pub open spec fn ticked(self, board: &Board, dt: int) -> SnekState {
        if self.game_over {
            self
        } else {
            let d = move_distance(self.speed as int, dt);
            self.after_move(board, d).after_edge_check(board, d, dt).after_turn(board)
        }
    }
}

impl Snek {
    pub open spec fn wf(&self, board: &Board) -> bool {
        self@.wf(board)
    }

    /// A snake before setup: it knows its length and speed, not yet where it
    /// stands.
    pub fn new() -> (r: Self)
        ensures
            r@ == new_snek(),
            unplaced(r@),
    {
        Snek {
            position: Position { x: 0, y: 0 },
            dir: MoveDir::Left,
            dir_keypoints: VecDeque::new(),
            dir_candidate: None,
            length: INIT_LENGTH,
            speed: INIT_SPEED,
            radius: 0,
            in_edge: 0,
            game_over: false,
        }
    }

    /// Distance to cover this frame.
    fn distance_for(&self, dt: u64) -> (r: u64)
        requires
            0 <= self.speed <= MAX_SPEED,
        ensures
            r == move_distance(self.speed as int, dt as int),
    {
        proof {
            vstd::arithmetic::mul::lemma_mul_upper_bound(
                self.speed as int,
                MAX_SPEED as int,
                dt as int,
                u64::MAX as int,
            );
        }
        let product: u128 = self.speed as u128 * dt as u128;
        proof {
            vstd::arithmetic::div_mod::lemma_div_is_ordered(
                product as int,
                MAX_SPEED as int * u64::MAX as int,
                MICROS_PER_SECOND as int,
            );
        }
        (product / MICROS_PER_SECOND as u128) as u64
    }

    /// Moves the head by `move_dist` along the current direction, held on the
    /// board.
    fn process_move(&mut self, board: &Board, move_dist: u64)
        requires
            old(self)@.wf(board),
        ensures
            final(self)@ == old(self)@.after_move(board, move_dist as int),
    {
        let r = self.radius;
        match self.dir {
            MoveDir::Down => {
                let room = (self.position.y - r) as u64;
                self.position.y = if move_dist >= room {
                    r
                } else {
                    self.position.y - move_dist as i64
                };
            },
            MoveDir::Up => {
                let room = (board.height - r - self.position.y) as u64;
                self.position.y = if move_dist >= room {
                    board.height - r
                } else {
                    self.position.y + move_dist as i64
                };
            },
            MoveDir::Left => {
                let room = (self.position.x - r) as u64;
                self.position.x = if move_dist >= room {
                    r
                } else {
                    self.position.x - move_dist as i64
                };
            },
            MoveDir::Right => {
                let room = (board.width - r - self.position.x) as u64;
                self.position.x = if move_dist >= room {
                    board.width - r
                } else {
                    self.position.x + move_dist as i64
                };
            },
        }
    }

    /// Ages every turning point by `move_dist` and drops the oldest ones that
    /// now lie beyond the snake's length.
    fn process_dir_keypoints(&mut self, move_dist: i64)
        requires
            0 <= move_dist <= crate::board::MAX_SIDE,
            0 <= old(self).length <= LENGTH_LIMIT,
            forall|i: int|
                0 <= i < old(self).dir_keypoints@.len() ==> 0
                    <= #[trigger] old(self).dir_keypoints@[i].dst_head <= old(self).length,
        ensures
            final(self)@ == (SnekState {
                keypoints: prune_trail(
                    advance_trail(old(self).dir_keypoints@, move_dist as int),
                    old(self).length as int,
                ),
                ..old(self)@
            }),
    {
        let n = self.dir_keypoints.len();
        let mut aged: VecDeque<DirKeypoint> = VecDeque::new();
        let mut i: usize = 0;
        while i < n
            invariant
                n == self.dir_keypoints@.len(),
                i <= n,
                0 <= move_dist <= crate::board::MAX_SIDE,
                0 <= self.length <= LENGTH_LIMIT,
                forall|k: int|
                    0 <= k < n ==> 0 <= #[trigger] self.dir_keypoints@[k].dst_head <= self.length,
                aged@ == advance_trail(self.dir_keypoints@, move_dist as int).subrange(0, i as int),
            decreases n - i,
        {
            let k = self.dir_keypoints[i];
            aged.push_back(DirKeypoint { dst_head: k.dst_head + move_dist, ..k });
            i = i + 1;
            proof {
                assert(aged@ =~= advance_trail(self.dir_keypoints@, move_dist as int).subrange(
                    0,
                    i as int,
                ));
            }
        }
        proof {
            assert(aged@ =~= advance_trail(self.dir_keypoints@, move_dist as int));
        }
        let ghost target = prune_trail(aged@, self.length as int);
        while aged.len() > 0 && aged[0].dst_head > self.length
            invariant
                prune_trail(aged@, self.length as int) == target,
            decreases aged@.len(),
        {
            aged.pop_front();
        }
        self.dir_keypoints = aged;
    }
}

/// Half-width of a body hitbox: nine tenths of the radius, so that two
/// parallel stretches of body one cell apart do not touch.
pub open spec fn margin(radius: int) -> int {
    radius * 9 / 10
}

pub open spec fn max_int(a: int, b: int) -> int {
    if a >= b {
        a
    } else {
        b
    }
}

/// The box around the stretch of body from `a` to `b`.
pub open spec fn segment_box(a: Position, b: Position, m: int) -> AABB {
    AABB {
        min: Position { x: (min_int(a.x as int, b.x as int) - m) as i64, y: (min_int(a.y as int, b.y as int) - m) as i64 },
        max: Position { x: (max_int(a.x as int, b.x as int) + m) as i64, y: (max_int(a.y as int, b.y as int) + m) as i64 },
    }
}

/// The box around the last stretch of body: from the oldest point `k`,
/// `remaining` units further along `k.from`.
pub open spec fn tail_box(k: DirKeypoint, remaining: int, m: int) -> AABB {
    let (x, y) = (k.at.x as int, k.at.y as int);
    match k.from {
        MoveDir::Down => AABB {
            min: Position { x: (x - m) as i64, y: (y - remaining) as i64 },
            max: Position { x: (x + m) as i64, y: (y + m) as i64 },
        },
        MoveDir::Up => AABB {
            min: Position { x: (x - m) as i64, y: (y - m) as i64 },
            max: Position { x: (x + m) as i64, y: (y + remaining) as i64 },
        },
        MoveDir::Left => AABB {
            min: Position { x: (x - remaining) as i64, y: (y - m) as i64 },
            max: Position { x: (x + m) as i64, y: (y + m) as i64 },
        },
        MoveDir::Right => AABB {
            min: Position { x: (x - m) as i64, y: (y - m) as i64 },
            max: Position { x: (x + remaining) as i64, y: (y + m) as i64 },
        },
    }
}

/// The box around the head alone.
pub open spec fn head_box(p: Position, m: int) -> AABB {
    AABB {
        min: Position { x: (p.x - m) as i64, y: (p.y - m) as i64 },
        max: Position { x: (p.x + m) as i64, y: (p.y + m) as i64 },
    }
}

/// The direction a key asks for.
pub open spec fn key_direction(key: Key) -> Option<MoveDir> {
    match key {
        Key::ArrowUp | Key::KeyW => Some(MoveDir::Up),
        Key::ArrowLeft | Key::KeyA => Some(MoveDir::Left),
        Key::ArrowRight | Key::KeyD => Some(MoveDir::Right),
        Key::ArrowDown | Key::KeyS => Some(MoveDir::Down),
        Key::Other => None,
    }
}

/// The direction an event asks for: only a fresh press of a direction key
/// asks for one.
pub open spec fn requested_direction(event: InputEvent) -> Option<MoveDir> {
    match event {
        InputEvent::Keyboard { key, pressed, repeat } => if pressed && !repeat {
            key_direction(key)
        } else {
            None
        },
        InputEvent::Other => None,
    }
}

impl SnekState {
    /// The coordinate bounds that hold on any board; [`SnekState::wf`] implies them.
    pub open spec fn bounded(&self) -> bool {
        &&& 0 <= self.radius <= crate::board::MAX_SIDE
        &&& 0 <= self.position.x <= crate::board::MAX_SIDE
        &&& 0 <= self.position.y <= crate::board::MAX_SIDE
        &&& 0 <= self.length <= LENGTH_LIMIT
        &&& forall|i: int|
            0 <= i < self.keypoints.len() ==> {
                &&& 0 <= #[trigger] self.keypoints[i].dst_head <= self.length
                &&& 0 <= self.keypoints[i].at.x <= crate::board::MAX_SIDE
                &&& 0 <= self.keypoints[i].at.y <= crate::board::MAX_SIDE
            }
    }

    /// The trail from its oldest point to the head, as handed to a renderer.
    pub open spec fn trail_points(&self) -> Seq<DirKeypoint> {
        self.keypoints.push(DirKeypoint { from: inverse(self.dir), at: self.position, dst_head: 0 })
    }

    /// One box per stretch of body, newest first; the last one reaches back
    /// over what is left of the length past the oldest point.
    pub open spec fn collider_boxes(&self) -> Seq<ColliderType> {
        let pts = self.trail_points();
        let n = pts.len() as int;
        let m = margin(self.radius as int);
        Seq::new(
            n as nat,
            |j: int|
                ColliderType::AABB(
                    if j < n - 1 {
                        segment_box(pts[n - 2 - j].at, pts[n - 1 - j].at, m)
                    } else {
                        tail_box(pts[0], self.length - pts[0].dst_head, m)
                    },
                ),
        )
    }

    /// The snake after eating: longer, and faster up to the top speed.
    pub open spec fn fed(self) -> SnekState {
        SnekState {
            length: min_int(self.length + LENGTH_PER_FOOD, LENGTH_LIMIT as int) as i64,
            speed: min_int(self.speed + SPEED_PER_FOOD, MAX_SPEED as int) as i64,
            ..self
        }
    }

    /// The reaction to another object of layer `layer` with hitboxes `boxes`:
    /// only food matters. The head meeting the older body ends the life;
    /// otherwise the head meeting the food feeds the snake.
    pub open spec fn collided(self, layer: ColliderLayer, boxes: Seq<ColliderType>) -> SnekState {
        let head = head_box(self.position, margin(self.radius as int));
        if layer != ColliderLayer::Food {
            self
        } else if hits_any(head, self.collider_boxes(), 2) {
            SnekState { game_over: true, ..self }
        } else if hits_any(head, boxes, 0) {
            self.fed()
        } else {
            self
        }
    }

    /// Whether a turn towards `want` is buffered: it must be at a right angle
    /// to the current direction and the head must not be within a cell of the
    /// wall it would turn to.
    pub open spec fn accepts_turn(&self, want: MoveDir, board: &Board) -> bool {
        &&& perpendicular(want, self.dir)
        &&& match want {
            MoveDir::Up => self.position.y <= board.height - board.grid_size,
            MoveDir::Left => self.position.x >= board.grid_size,
            MoveDir::Right => self.position.x <= board.width - board.grid_size,
            MoveDir::Down => self.position.y >= board.grid_size,
        }
    }

    /// The snake after an input event: at most the pending turn changes.
    pub open spec fn with_input(self, event: InputEvent, board: &Board) -> SnekState {
        match requested_direction(event) {
            Some(want) => if self.accepts_turn(want, board) {
                SnekState { dir_candidate: Some(want), ..self }
            } else {
                self
            },
            None => self,
        }
    }
}

/// A state of the snake before setup.
pub open spec fn unplaced(s: SnekState) -> bool {
    &&& s.dir_candidate is None
    &&& s.keypoints.len() == 0
    &&& s.length == INIT_LENGTH
    &&& s.speed == INIT_SPEED
    &&& s.in_edge == 0
    &&& !s.game_over
}

/// The snake as made, before setup: heading left, with the initial length
/// and speed.
pub open spec fn new_snek() -> SnekState {
    SnekState {
        position: Position { x: 0, y: 0 },
        dir: MoveDir::Left,
        dir_candidate: None,
        keypoints: seq![],
        length: INIT_LENGTH,
        radius: 0,
        speed: INIT_SPEED,
        in_edge: 0,
        game_over: false,
    }
}

/// The state reached from `s` by `n` meals.
pub open spec fn fed_times(s: SnekState, n: nat) -> SnekState
    decreases n,
{
    if n == 0 {
        s
    } else {
        fed_times(s, (n - 1) as nat).fed()
    }
}

/// Growth is linear and speed-up saturates: after `n` meals the length has
/// grown by `n` times the growth per meal, and the speed by `n` times the
/// speed-up per meal, held at the top speed.
pub proof fn lemma_growth(s: SnekState, n: nat)
    requires
        0 <= s.speed <= MAX_SPEED,
        s.length + n * LENGTH_PER_FOOD <= LENGTH_LIMIT,
    ensures
        fed_times(s, n).length == s.length + n * LENGTH_PER_FOOD,
        fed_times(s, n).speed == min_int(s.speed + n * SPEED_PER_FOOD, MAX_SPEED as int),
    decreases n,
{
    if n > 0 {
        lemma_growth(s, (n - 1) as nat);
    }
}

/// Pruning keeps a suffix of the trail, whose oldest point lies within
/// `length` of the head.
pub proof fn lemma_prune_suffix(kps: Seq<DirKeypoint>, length: int)
    ensures
        prune_trail(kps, length).len() <= kps.len(),
        prune_trail(kps, length) == kps.subrange(
            kps.len() - prune_trail(kps, length).len(),
            kps.len() as int,
        ),
        prune_trail(kps, length).len() > 0 ==> prune_trail(kps, length)[0].dst_head <= length,
    decreases kps.len(),
{
    if kps.len() > 0 && kps[0].dst_head > length {
        lemma_prune_suffix(kps.drop_first(), length);
        assert(kps.drop_first().subrange(
            kps.drop_first().len() - prune_trail(kps, length).len(),
            kps.drop_first().len() as int,
        ) =~= kps.subrange(kps.len() - prune_trail(kps, length).len(), kps.len() as int));
    } else {
        assert(kps.subrange(0, kps.len() as int) =~= kps);
    }
}

/// Trail bookkeeping of one frame: every point kept is an old point now `d`
/// further behind the head, the kept points are the newest ones, and none
/// lies farther behind than `length`.
pub proof fn lemma_trail_step(kps: Seq<DirKeypoint>, d: int, length: int)
    requires
        trail_ordered(kps),
        0 <= d,
        forall|i: int| 0 <= i < kps.len() ==> 0 <= #[trigger] kps[i].dst_head,
        forall|i: int| 0 <= i < kps.len() ==> #[trigger] kps[i].dst_head + d <= i64::MAX,
    ensures
        ({
            let out = prune_trail(advance_trail(kps, d), length);
            let skip = kps.len() - out.len();
            &&& 0 <= skip <= kps.len()
            &&& forall|i: int|
                0 <= i < out.len() ==> #[trigger] out[i] == (DirKeypoint {
                    dst_head: (kps[skip + i].dst_head + d) as i64,
                    ..kps[skip + i]
                })
            &&& forall|i: int| 0 <= i < out.len() ==> #[trigger] out[i].dst_head <= length
            &&& forall|i: int| 0 <= i < out.len() ==> 0 <= #[trigger] out[i].dst_head
            &&& trail_ordered(out)
        }),
{
    let adv = advance_trail(kps, d);
    lemma_prune_suffix(adv, length);
    let out = prune_trail(adv, length);
    let skip = kps.len() - out.len();
    assert forall|i: int| 0 <= i < out.len() implies #[trigger] out[i].dst_head <= length by {
        assert(out[i] == adv[skip + i]);
        assert(out[0] == adv[skip]);
        assert(kps[skip].dst_head >= kps[skip + i].dst_head);
    }
    assert forall|i: int, j: int| 0 <= i < j < out.len() implies #[trigger] out[i].dst_head
        >= #[trigger] out[j].dst_head by {
        assert(out[i] == adv[skip + i]);
        assert(out[j] == adv[skip + j]);
        assert(kps[skip + i].dst_head >= kps[skip + j].dst_head);
    }
    assert forall|i: int| 0 <= i < out.len() implies #[trigger] out[i] == (DirKeypoint {
        dst_head: (kps[skip + i].dst_head + d) as i64,
        ..kps[skip + i]
    }) by {
        assert(out[i] == adv[skip + i]);
    }
}

/// The sum of the distances `ds`.
pub open spec fn total(ds: Seq<int>) -> int
    decreases ds.len(),
{
    if ds.len() == 0 {
        0
    } else {
        total(ds.drop_last()) + ds.last()
    }
}

/// The trail after one frame of trail bookkeeping per distance of `ds`.
pub open spec fn trail_after(kps: Seq<DirKeypoint>, ds: Seq<int>, length: int) -> Seq<DirKeypoint>
    decreases ds.len(),
{
    if ds.len() == 0 {
        kps
    } else {
        prune_trail(advance_trail(trail_after(kps, ds.drop_last(), length), ds.last()), length)
    }
}

/// Over any run of frames, every kept turning point lies behind the head by
/// its distance at the start plus the distance travelled since, the kept
/// points are the newest ones, and none lies farther behind than `length`.
pub proof fn lemma_trail_distance(kps: Seq<DirKeypoint>, ds: Seq<int>, length: int)
    requires
        trail_ordered(kps),
        0 <= length <= LENGTH_LIMIT,
        forall|i: int| 0 <= i < kps.len() ==> 0 <= #[trigger] kps[i].dst_head <= length,
        forall|i: int| 0 <= i < ds.len() ==> 0 <= #[trigger] ds[i] <= crate::board::MAX_SIDE,
    ensures
        ({
            let out = trail_after(kps, ds, length);
            let skip = kps.len() - out.len();
            &&& 0 <= skip <= kps.len()
            &&& forall|i: int|
                0 <= i < out.len() ==> {
                    &&& #[trigger] out[i].dst_head == kps[skip + i].dst_head + total(ds)
                    &&& out[i].at == kps[skip + i].at
                    &&& out[i].from == kps[skip + i].from
                }
            &&& forall|i: int| 0 <= i < out.len() ==> 0 <= #[trigger] out[i].dst_head <= length
            &&& trail_ordered(out)
        }),
    decreases ds.len(),
{
    if ds.len() > 0 {
        let rest = ds.drop_last();
        let d = ds.last();
        assert forall|i: int| 0 <= i < rest.len() implies 0 <= #[trigger] rest[i]
            <= crate::board::MAX_SIDE by {
            assert(rest[i] == ds[i]);
        }
        lemma_trail_distance(kps, rest, length);
        let mid = trail_after(kps, rest, length);
        let skip1 = kps.len() - mid.len();
        lemma_trail_step(mid, d, length);
        let out = trail_after(kps, ds, length);
        let skip2 = mid.len() - out.len();
        assert forall|i: int| 0 <= i < out.len() implies {
            &&& #[trigger] out[i].dst_head == kps[(kps.len() - out.len()) + i].dst_head + total(ds)
            &&& out[i].at == kps[(kps.len() - out.len()) + i].at
            &&& out[i].from == kps[(kps.len() - out.len()) + i].from
        } by {
            assert(out[i] == (DirKeypoint {
                dst_head: (mid[skip2 + i].dst_head + d) as i64,
                ..mid[skip2 + i]
            }));
            assert(0 <= mid[skip2 + i].dst_head <= length);
        }
    }
}

/// Turn buffering: an input event never moves the head nor changes its
/// direction, and never buffers the reverse of the current direction; a
/// frame changes the direction only to the buffered one, and only when the
/// head could be snapped to a cell centre, where it then stands.
pub proof fn lemma_turn_buffering(s: SnekState, board: &Board, event: InputEvent, dt: int)
    requires
        s.wf(board),
    ensures
        s.with_input(event, board).dir == s.dir,
        s.with_input(event, board).position == s.position,
        s.with_input(event, board).dir_candidate != Some(inverse(s.dir)),
        s.with_input(event, board).dir_candidate != Some(s.dir),
        ({
            let t = s.ticked(board, dt);
            let moved = s.after_move(board, move_distance(s.speed as int, dt)).after_edge_check(
                board,
                move_distance(s.speed as int, dt),
                dt,
            );
            t.dir != s.dir ==> {
                &&& s.dir_candidate == Some(t.dir)
                &&& moved.snapped(board) == Some(t.position)
                &&& t.dir_candidate is None
            }
        }),
{
    lemma_inverse_involution(s.dir);
}

/// The head stays on the board: a frame of any length keeps the invariant of
/// a live snake, in particular `radius <= x <= width - radius` and
/// `radius <= y <= height - radius`.
pub proof fn lemma_tick_keeps_head_inside(s: SnekState, board: &Board, dt: int)
    requires
        s.wf(board),
        0 <= dt <= u64::MAX,
    ensures
        s.ticked(board, dt).wf(board),
        inside(board, s.ticked(board, dt).position, s.radius as int),
{
    if !s.game_over {
        let d = move_distance(s.speed as int, dt);
        vstd::arithmetic::mul::lemma_mul_nonnegative(s.speed as int, dt);
        vstd::arithmetic::div_mod::lemma_div_pos_is_pos(s.speed * dt, MICROS_PER_SECOND as int);
        let s1 = s.after_move(board, d);
        assert(s1.wf(board));
        if !s1.against_edge(board) {
            assert(d <= crate::board::MAX_SIDE);
            lemma_trail_step(s1.keypoints, d, s1.length as int);
        }
        let s2 = s1.after_edge_check(board, d, dt);
        assert(s2.wf(board));
        lemma_inside_has_midpoint(board, s2.position);
        if s2.snapped(board) is Some {
            let mid = board.midpoint_of(s2.position).unwrap();
            assert(inside(board, mid, s2.radius as int));
        }
    }
}

/// A position where the head may stand lies in a cell of the board.
pub proof fn lemma_inside_has_midpoint(board: &Board, p: Position)
    requires
        board.wf(),
        inside(board, p, board.grid_size / 2),
    ensures
        board.midpoint_of(p) is Some,
        inside(board, board.midpoint_of(p).unwrap(), board.grid_size / 2),
{
    let g = board.grid_size as int;
    vstd::arithmetic::div_mod::lemma_multiply_divide_lt(p.x as int, g, board.n_cols());
    vstd::arithmetic::div_mod::lemma_multiply_divide_lt(p.y as int, g, board.n_rows());
    vstd::arithmetic::div_mod::lemma_div_pos_is_pos(p.x as int, g);
    vstd::arithmetic::div_mod::lemma_div_pos_is_pos(p.y as int, g);
    assert(board.n_cols() * g == g * board.n_cols()) by (nonlinear_arith);
    assert(board.n_rows() * g == g * board.n_rows()) by (nonlinear_arith);
    crate::board::lemma_center_inside(g, p.x as int / g, board.n_cols());
    crate::board::lemma_center_inside(g, p.y as int / g, board.n_rows());
}

/// The invariant of a snake keeps it within its board-free bounds.
pub proof fn lemma_wf_bounded(s: SnekState, board: &Board)
    requires
        s.wf(board),
    ensures
        s.bounded(),
{
}

/// A collision keeps the invariant.
pub proof fn lemma_collided_wf(s: SnekState, board: &Board, layer: ColliderLayer, boxes: Seq<
    ColliderType,
>)
    requires
        s.wf(board),
    ensures
        s.collided(layer, boxes).wf(board),
{
}

impl Snek {
    /// Adds `delta` to the time spent against a wall, ending the life once it
    /// exceeds the limit.
    fn on_edge(&mut self, delta: u64)
        ensures
            final(self)@ == (SnekState {
                in_edge: min_int(old(self).in_edge + delta, u64::MAX as int) as u64,
                game_over: old(self).game_over || min_int(old(self).in_edge + delta, u64::MAX as int)
                    > MAX_DURATION_ON_EDGE,
                ..old(self)@
            }),
    {
        self.in_edge = self.in_edge.saturating_add(delta);
        if self.in_edge > MAX_DURATION_ON_EDGE {
            self.game_over = true;
        }
    }

    fn against_edge(&self, board: &Board) -> (r: bool)
        requires
            board.wf(),
            0 <= self.radius <= crate::board::MAX_SIDE,
        ensures
            r == self@.against_edge(board),
    {
        match self.dir {
            MoveDir::Up => self.position.y == board.height - self.radius,
            MoveDir::Down => self.position.y == self.radius,
            MoveDir::Right => self.position.x == board.width - self.radius,
            MoveDir::Left => self.position.x == self.radius,
        }
    }

    /// Takes the pending turn if the head has left the cell of the previous
    /// turn and is near enough to its cell centre.
    fn process_turn(&mut self, board: &Board)
        requires
            old(self)@.wf(board),
        ensures
            final(self)@ == old(self)@.after_turn(board),
            final(self)@.wf(board),
    {
        proof {
            lemma_inside_has_midpoint(board, self.position);
        }
        let current_midpoint = board.current_midpts(self.position).unwrap();
        let n = self.dir_keypoints.len();
        let last_move_midpoint = if n > 0 {
            board.current_midpts(self.dir_keypoints[n - 1].at)
        } else {
            None
        };
        let left_cell = match last_move_midpoint {
            None => true,
            Some(lm) => lm != current_midpoint,
        };
        if self.dir_candidate.is_some() && left_cell {
            let threshold = self.snap_threshold(board);
            let adjusted_position = match self.dir {
                MoveDir::Up | MoveDir::Down => {
                    let correction = current_midpoint.y - self.position.y;
                    if correction < threshold && -correction < threshold {
                        Some(Position { x: self.position.x, y: current_midpoint.y })
                    } else {
                        None
                    }
                },
                MoveDir::Left | MoveDir::Right => {
                    let correction = current_midpoint.x - self.position.x;
                    if correction < threshold && -correction < threshold {
                        Some(Position { x: current_midpoint.x, y: self.position.y })
                    } else {
                        None
                    }
                },
            };
            if let Some(pos) = adjusted_position {
                let dir = self.dir_candidate.unwrap();
                self.dir_keypoints.push_back(
                    DirKeypoint { from: self.dir.invert(), at: pos, dst_head: 0 },
                );
                self.dir = dir;
                self.dir_candidate = None;
                self.position = pos;
            }
        }
    }

    /// The snapping distance at the current speed.
    fn snap_threshold(&self, board: &Board) -> (r: i64)
        requires
            INIT_SPEED <= self.speed <= MAX_SPEED,
            board.wf(),
        ensures
            r == snap_threshold(self.speed as int, board.grid_size as int),
    {
        let widened = GRID_TRESHOLD + (self.speed - INIT_SPEED) * TRESHOLD_PER_SPEED / INIT_SPEED;
        let cap = board.grid_size * 9 / 10;
        if widened < 0 {
            0
        } else if widened > cap {
            cap
        } else {
            widened
        }
    }

    /// Places the snake at the centre of `board`, with a radius of half a cell.
    pub fn on_setup(&mut self, board: &Board)
        requires
            board.wf(),
            board.nonempty(),
            unplaced(old(self)@),
        ensures
            final(self)@ == (SnekState {
                position: Position { x: (board.width / 2) as i64, y: (board.height / 2) as i64 },
                radius: (board.grid_size / 2) as i64,
                ..old(self)@
            }),
            final(self).wf(board),
    {
        proof {
            vstd::arithmetic::mul::lemma_mul_inequality(1, board.n_cols(), board.grid_size as int);
            vstd::arithmetic::mul::lemma_mul_inequality(1, board.n_rows(), board.grid_size as int);
        }
        self.position = Position { x: board.width / 2, y: board.height / 2 };
        self.radius = board.grid_size / 2;
    }

    /// One frame: move, watch the walls, age the trail, take a pending turn.
    /// Reports the end of the life.
    pub fn on_tick(&mut self, time: &Time, board: &Board) -> (r: TickSignal)
        requires
            old(self).wf(board),
        ensures
            final(self)@ == old(self)@.ticked(board, time.delta as int),
            final(self).wf(board),
            r == (if final(self).game_over {
                TickSignal::GameOver
            } else {
                TickSignal::Continue
            }),
            !old(self).game_over && !old(self)@.after_move(
                board,
                move_distance(old(self).speed as int, time.delta as int),
            ).against_edge(board) ==> final(self).in_edge == 0,
    {
        if self.game_over {
            return TickSignal::GameOver;
        }
        let move_dist = self.distance_for(time.delta);
        self.process_move(board, move_dist);
        let ghost s1 = self@;
        if self.against_edge(board) {
            self.on_edge(time.delta);
        } else {
            proof {
                lemma_trail_step(s1.keypoints, move_dist as int, s1.length as int);
            }
            self.process_dir_keypoints(move_dist as i64);
            self.in_edge = 0;
        }
        proof {
            assert(self@ == s1.after_edge_check(board, move_dist as int, time.delta as int));
        }
        self.process_turn(board);
        if self.game_over {
            TickSignal::GameOver
        } else {
            TickSignal::Continue
        }
    }

    /// The trail from its oldest point to the head.
    pub fn get_keypoints(&self) -> (r: Vec<DirKeypoint>)
        ensures
            r@ == self@.trail_points(),
    {
        let n = self.dir_keypoints.len();
        let mut res: Vec<DirKeypoint> = Vec::new();
        let mut i: usize = 0;
        while i < n
            invariant
                n == self.dir_keypoints@.len(),
                i <= n,
                res@ == self.dir_keypoints@.subrange(0, i as int),
            decreases n - i,
        {
            res.push(self.dir_keypoints[i]);
            i = i + 1;
            proof {
                assert(res@ =~= self.dir_keypoints@.subrange(0, i as int));
            }
        }
        res.push(DirKeypoint { at: self.position, dst_head: 0, from: self.dir.invert() });
        proof {
            assert(res@ =~= self@.trail_points());
        }
        res
    }
    pub fn layer(&self) -> (r: ColliderLayer)
        ensures
            r == ColliderLayer::Player,
    {
        ColliderLayer::Player
    }

    /// The hitboxes of the body, newest stretch first.
    pub fn collider(&self) -> (r: Vec<ColliderType>)
        requires
            self@.bounded(),
        ensures
            r@ == self@.collider_boxes(),
    {
        let pts = self.get_keypoints();
        let n = pts.len();
        let m = self.radius * 9 / 10;
        let ghost want = self@.collider_boxes();
        proof {
            assert forall|k: int| 0 <= k < n implies 0 <= #[trigger] pts@[k].at.x
                <= crate::board::MAX_SIDE && 0 <= pts@[k].at.y <= crate::board::MAX_SIDE by {
                if k < n - 1 {
                    assert(pts@[k] == self@.keypoints[k]);
                    assert(0 <= self@.keypoints[k].dst_head);
                }
            }
        }
        let mut res: Vec<ColliderType> = Vec::with_capacity(n);
        let mut i: usize = n - 1;
        while i > 0
            invariant
                pts@ == self@.trail_points(),
                n == pts@.len(),
                self@.bounded(),
                m == margin(self.radius as int),
                0 <= m <= crate::board::MAX_SIDE,
                forall|k: int|
                    0 <= k < n ==> 0 <= #[trigger] pts@[k].at.x <= crate::board::MAX_SIDE && 0
                        <= pts@[k].at.y <= crate::board::MAX_SIDE,
                want == self@.collider_boxes(),
                i < n,
                res@.len() == n - 1 - i,
                forall|j: int| 0 <= j < res@.len() ==> #[trigger] res@[j] == want[j],
            decreases i,
        {
            let a = pts[i - 1].at;
            let b = pts[i].at;
            let (small_x, big_x) = if b.x < a.x {
                (b.x, a.x)
            } else {
                (a.x, b.x)
            };
            let (small_y, big_y) = if b.y < a.y {
                (b.y, a.y)
            } else {
                (a.y, b.y)
            };
            let aabb = AABB::new(
                Position { x: small_x - m, y: small_y - m },
                Position { x: big_x + m, y: big_y + m },
            );
            res.push(ColliderType::AABB(aabb));
            i = i - 1;
        }
        let first = pts[0];
        let remaining = self.length - first.dst_head;
        let (x, y) = (first.at.x, first.at.y);
        let aabb = match first.from {
            MoveDir::Down => AABB::new(
                Position { x: x - m, y: y - remaining },
                Position { x: x + m, y: y + m },
            ),
            MoveDir::Up => AABB::new(
                Position { x: x - m, y: y - m },
                Position { x: x + m, y: y + remaining },
            ),
            MoveDir::Left => AABB::new(
                Position { x: x - remaining, y: y - m },
                Position { x: x + m, y: y + m },
            ),
            MoveDir::Right => AABB::new(
                Position { x: x - m, y: y - m },
                Position { x: x + remaining, y: y + m },
            ),
        };
        res.push(ColliderType::AABB(aabb));
        proof {
            assert(res@ =~= want);
        }
        res
    }

    /// Reacts to another object of layer `other_layer` whose hitboxes are
    /// `other_collider`; see [`SnekState::collided`].
    pub fn check_collision(&mut self, other_layer: ColliderLayer, other_collider: &Vec<ColliderType>)
        requires
            old(self)@.bounded(),
            INIT_SPEED <= old(self).speed <= MAX_SPEED,
        ensures
            final(self)@ == old(self)@.collided(other_layer, other_collider@),
    {
        if other_layer != ColliderLayer::Food {
            return;
        }
        let m = self.radius * 9 / 10;
        let head_cldr = AABB::new(
            Position { x: self.position.x - m, y: self.position.y - m },
            Position { x: self.position.x + m, y: self.position.y + m },
        );
        let self_cldr = self.collider();
        if intersects_any(&head_cldr, &self_cldr, 2) {
            self.game_over = true;
            return;
        }
        if intersects_any(&head_cldr, other_collider, 0) {
            self.length = if self.length <= LENGTH_LIMIT - LENGTH_PER_FOOD {
                self.length + LENGTH_PER_FOOD
            } else {
                LENGTH_LIMIT
            };
            self.speed = if self.speed <= MAX_SPEED - SPEED_PER_FOOD {
                self.speed + SPEED_PER_FOOD
            } else {
                MAX_SPEED
            };
        }
    }

    /// Buffers the turn that a fresh press of a direction key asks for, when
    /// it is at a right angle to the current direction and the head is not
    /// within a cell of the wall it would turn to. The turn is taken at a
    /// later tick.
    pub fn on_input(&mut self, event: &InputEvent, board: &Board)
        requires
            old(self).wf(board),
        ensures
            final(self)@ == old(self)@.with_input(*event, board),
            final(self).wf(board),
    {
        let want = match event {
            InputEvent::Keyboard { key, pressed, repeat } => {
                if !*pressed || *repeat {
                    return;
                }
                match key {
                    Key::ArrowUp | Key::KeyW => MoveDir::Up,
                    Key::ArrowLeft | Key::KeyA => MoveDir::Left,
                    Key::ArrowRight | Key::KeyD => MoveDir::Right,
                    Key::ArrowDown | Key::KeyS => MoveDir::Down,
                    Key::Other => {
                        return;
                    },
                }
            },
            InputEvent::Other => {
                return;
            },
        };
        match want {
            MoveDir::Up => match self.dir {
                MoveDir::Down | MoveDir::Up => {},
                _ if self.position.y > board.height - board.grid_size => {},
                _ => {
                    self.dir_candidate = Some(MoveDir::Up);
                },
            },
            MoveDir::Left => match self.dir {
                MoveDir::Right | MoveDir::Left => {},
                _ if self.position.x < board.grid_size => {},
                _ => {
                    self.dir_candidate = Some(MoveDir::Left);
                },
            },
            MoveDir::Right => match self.dir {
                MoveDir::Left | MoveDir::Right => {},
                _ if self.position.x > board.width - board.grid_size => {},
                _ => {
                    self.dir_candidate = Some(MoveDir::Right);
                },
            },
            MoveDir::Down => match self.dir {
                MoveDir::Up | MoveDir::Down => {},
                _ if self.position.y < board.grid_size => {},
                _ => {
                    self.dir_candidate = Some(MoveDir::Down);
                },
            },
        }
    }
}

} // verus!
