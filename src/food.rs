use vstd::prelude::*;

use rand::Rng;

use crate::app_owned_data::{Time, TickSignal};
use crate::board::{cell_center, Board, Position};
use crate::collider::{hits_any, intersects_any, ColliderLayer, ColliderType, AABB};

verus! {

/// Relies on `rand::rng` and `Rng::random_range`: a value drawn from `0..n`.
/// `random_range` panics only on an empty range.
#[verifier::external_body]
fn random_below(n: usize) -> (r: usize)
    requires
        n > 0,
    ensures
        r < n,
{
    rand::rng().random_range(0..n)
}

/// A piece of food: it waits on a cell centre and moves to a random cell on
/// the tick after the player touched it.
#[derive(Clone, Copy, Debug, PartialEq, Eq, Structural)]
pub struct Food {
    pub radius: i64,
    pub position: Position,
    pub collided_with_player: bool,
}

impl Food {
    /// The invariant of food placed on `board`.
    pub open spec fn wf(&self, board: &Board) -> bool {
        &&& board.wf()
        &&& board.nonempty()
        &&& self.radius == board.grid_size / 2
        &&& board.is_midpoint(self.position)
    }

    /// Bounds that hold on any board; [`Food::wf`] implies them.
    pub open spec fn bounded(&self) -> bool {
        &&& 0 <= self.radius <= crate::board::MAX_SIDE
        &&& 0 <= self.position.x <= crate::board::MAX_SIDE
        &&& 0 <= self.position.y <= crate::board::MAX_SIDE
    }

    /// The single hitbox: a square of half a cell around the centre.
    pub open spec fn hitbox(&self) -> AABB {
        AABB {
            min: Position { x: (self.position.x - self.radius) as i64, y: (self.position.y - self.radius) as i64 },
            max: Position { x: (self.position.x + self.radius) as i64, y: (self.position.y + self.radius) as i64 },
        }
    }

    /// The reaction to another object: a touch by the player marks the food
    /// as eaten; it moves on the next tick.
    pub open spec fn collided(self, layer: ColliderLayer, boxes: Seq<ColliderType>) -> Food {
        if layer == ColliderLayer::Player && hits_any(self.hitbox(), boxes, 0) {
            Food { collided_with_player: true, ..self }
        } else {
            self
        }
    }

    /// Food not yet placed; it asks to be placed.
    pub fn new() -> (r: Food)
        ensures
            r.radius == 0,
            r.position == (Position { x: 0, y: 0 }),
            r.collided_with_player,
    {
        Food { radius: 0, position: Position { x: 0, y: 0 }, collided_with_player: true }
    }

    /// Moves the food to the centre of cell (`row`, `col`).
    pub fn place_at(&mut self, board: &Board, row: usize, col: usize)
        requires
            board.wf(),
            row < board.n_rows(),
            col < board.n_cols(),
        ensures
            *final(self) == (Food {
                position: Position {
                    x: cell_center(board.grid_size as int, col as int) as i64,
                    y: cell_center(board.grid_size as int, row as int) as i64,
                },
                ..*old(self)
            }),
            board.is_midpoint(final(self).position),
    {
        let r = &board.midpoints[row];
        self.position = Position { x: r.1[col], y: r.0 };
    }

    /// Moves the food to a cell of `board` drawn at random.
    fn get_new_pos(&mut self, board: &Board)
        requires
            board.wf(),
            board.nonempty(),
        ensures
            board.is_midpoint(final(self).position),
            final(self).radius == old(self).radius,
            final(self).collided_with_player == old(self).collided_with_player,
    {
        let row = random_below(board.midpoints.len());
        let col = random_below(board.midpoints[0].1.len());
        self.place_at(board, row, col);
    }

    /// Sizes the food to the board's cells and places it on a random cell.
    pub fn on_setup(&mut self, board: &Board)
        requires
            board.wf(),
            board.nonempty(),
        ensures
            final(self).wf(board),
            !final(self).collided_with_player,
    {
        self.radius = board.grid_size / 2;
        self.get_new_pos(board);
        self.collided_with_player = false;
    }

    /// Food that was eaten moves to a random cell; other food stays.
    pub fn on_tick(&mut self, _time: &Time, board: &Board) -> (r: TickSignal)
        requires
            old(self).wf(board),
        ensures
            r == TickSignal::Continue,
            final(self).wf(board),
            !final(self).collided_with_player,
            final(self).radius == old(self).radius,
            !old(self).collided_with_player ==> *final(self) == *old(self),
    {
        if self.collided_with_player {
            self.get_new_pos(board);
            self.collided_with_player = false;
        }
        TickSignal::Continue
    }

    pub fn layer(&self) -> (r: ColliderLayer)
        ensures
            r == ColliderLayer::Food,
    {
        ColliderLayer::Food
    }

    pub fn collider(&self) -> (r: Vec<ColliderType>)
        requires
            self.bounded(),
        ensures
            r@ == seq![ColliderType::AABB(self.hitbox())],
    {
        let c = ColliderType::AABB(
            AABB::new(
                Position { x: self.position.x - self.radius, y: self.position.y - self.radius },
                Position { x: self.position.x + self.radius, y: self.position.y + self.radius },
            ),
        );
        vec![c]
    }

    /// Reacts to another object; see [`Food::collided`].
    pub fn check_collision(&mut self, other_layer: ColliderLayer, other_collider: &Vec<ColliderType>)
        requires
            old(self).bounded(),
        ensures
            *final(self) == old(self).collided(other_layer, other_collider@),
    {
        if other_layer != ColliderLayer::Player {
            return;
        }
        let ColliderType::AABB(self_cldr) = self.collider()[0];
        if intersects_any(&self_cldr, other_collider, 0) {
            self.collided_with_player = true;
        }
    }
}

/// Food on a cell centre of its board lies within the board-free bounds.
pub proof fn lemma_wf_bounded(f: Food, board: &Board)
    requires
        f.wf(board),
    ensures
        f.bounded(),
{
    let (row, col) = choose|row: int, col: int|
        0 <= row < board.n_rows() && 0 <= col < board.n_cols() && f.position.x == cell_center(
            board.grid_size as int,
            col,
        ) && f.position.y == cell_center(board.grid_size as int, row);
    crate::board::lemma_center_inside(board.grid_size as int, col, board.n_cols());
    crate::board::lemma_center_inside(board.grid_size as int, row, board.n_rows());
}

} // verus!
