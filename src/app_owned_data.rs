use vstd::prelude::*;

use crate::board::{Board, Position};
use crate::collider::{ColliderLayer, ColliderType};
use crate::food::Food;
use crate::snek::{unplaced, Snek, SnekState};

verus! {

/// The clock of one frame, in microseconds.
#[derive(Clone, Copy, Debug, PartialEq, Eq, Structural)]
pub struct Time {
    /// Time since the previous frame.
    pub delta: u64,
    /// Time since the game (re)started.
    pub elapsed: u64,
}

/// What an object reports at the end of its tick.
#[derive(Clone, Copy, Debug, PartialEq, Eq, Structural)]
pub enum TickSignal {
    Continue,
    GameOver,
}

/// The keys a player may press.
#[derive(Clone, Copy, Debug, PartialEq, Eq, Structural)]
pub enum Key {
    ArrowUp,
    ArrowLeft,
    ArrowRight,
    ArrowDown,
    KeyW,
    KeyA,
    KeyS,
    KeyD,
    Other,
}

/// An input event as the core sees it.
#[derive(Clone, Copy, Debug, PartialEq, Eq, Structural)]
pub enum InputEvent {
    /// A key changed state; `repeat` marks the repeats of a held key.
    Keyboard { key: Key, pressed: bool, repeat: bool },
    /// Anything else the window reports.
    Other,
}

/// The behaviours an object may offer to the registry.
#[derive(Clone, Copy, Debug, PartialEq, Eq, Structural)]
pub enum Capability {
    Setup,
    Update,
    Input,
    Collide,
}

/// The closed set of objects of the game.
pub enum GameObject {
    Snek(Snek),
    Food(Food),
}

/// A game object as a value of mathematics.
pub enum ObjectState {
    Snek(SnekState),
    Food(Food),
}

impl View for GameObject {
    type V = ObjectState;

    open spec fn view(&self) -> ObjectState {
        match self {
            GameObject::Snek(s) => ObjectState::Snek(s@),
            GameObject::Food(f) => ObjectState::Food(*f),
        }
    }
}

/// Which capabilities each kind of object has; fixed for its lifetime.
pub open spec fn supports(o: ObjectState, c: Capability) -> bool {
    match o {
        ObjectState::Snek(_) => true,
        ObjectState::Food(_) => c != Capability::Input,
    }
}

impl ObjectState {
    pub open spec fn wf(&self, board: &Board) -> bool {
        match self {
            ObjectState::Snek(s) => s.wf(board),
            ObjectState::Food(f) => f.wf(board),
        }
    }

    /// The object after one frame of `dt` microseconds.
    pub open spec fn ticked(self, board: &Board, dt: int) -> ObjectState {
        match self {
            ObjectState::Snek(s) => ObjectState::Snek(s.ticked(board, dt)),
            ObjectState::Food(f) => ObjectState::Food(
                if f.collided_with_player {
                    Food { collided_with_player: false, ..f }
                } else {
                    f
                },
            ),
        }
    }

    /// Agreement of two food states up to where the food stands: a frame
    /// may move eaten food to any cell.
    pub open spec fn same_up_to_place(self, other: ObjectState) -> bool {
        match (self, other) {
            (ObjectState::Food(a), ObjectState::Food(b)) => a.radius == b.radius
                && a.collided_with_player == b.collided_with_player,
            _ => self == other,
        }
    }

    /// Whether the object, as it stands, ends the game.
    pub open spec fn ends_game(self) -> bool {
        match self {
            ObjectState::Snek(s) => s.game_over,
            ObjectState::Food(_) => false,
        }
    }

    pub open spec fn layer(self) -> ColliderLayer {
        match self {
            ObjectState::Snek(_) => ColliderLayer::Player,
            ObjectState::Food(_) => ColliderLayer::Food,
        }
    }

    pub open spec fn collider_boxes(self) -> Seq<ColliderType> {
        match self {
            ObjectState::Snek(s) => s.collider_boxes(),
            ObjectState::Food(f) => seq![ColliderType::AABB(f.hitbox())],
        }
    }

    /// The object's reaction to another object of layer `layer` with
    /// hitboxes `boxes`.
    pub open spec fn collided(self, layer: ColliderLayer, boxes: Seq<ColliderType>) -> ObjectState {
        match self {
            ObjectState::Snek(s) => ObjectState::Snek(s.collided(layer, boxes)),
            ObjectState::Food(f) => ObjectState::Food(f.collided(layer, boxes)),
        }
    }

    pub open spec fn with_input(self, event: InputEvent, board: &Board) -> ObjectState {
        match self {
            ObjectState::Snek(s) => ObjectState::Snek(s.with_input(event, board)),
            ObjectState::Food(f) => ObjectState::Food(f),
        }
    }
}

/// An object owned by the registry.
pub struct AppOwnedData(pub GameObject);

impl View for AppOwnedData {
    type V = ObjectState;

    open spec fn view(&self) -> ObjectState {
        self.0@
    }
}

impl AppOwnedData {
    pub fn from(object: GameObject) -> (r: Self)
        ensures
            r@ == object@,
    {
        AppOwnedData(object)
    }

    /// Whether the object offers `capability`.
    pub fn is(&self, capability: Capability) -> (r: bool)
        ensures
            r == supports(self@, capability),
    {
        match &self.0 {
            GameObject::Snek(_) => true,
            GameObject::Food(_) => capability != Capability::Input,
        }
    }

    pub fn as_ref(&self) -> (r: &GameObject)
        ensures
            r@ == self@,
    {
        &self.0
    }

    pub fn as_mut(&mut self) -> (r: &mut GameObject)
        ensures
            r@ == old(self)@,
            final(self)@ == final(r)@,
    {
        &mut self.0
    }

    /// Prepares the object for play on `board`.
    pub fn on_setup(&mut self, board: &Board)
        requires
            board.wf(),
            board.nonempty(),
            old(self)@ matches ObjectState::Snek(s) ==> unplaced(s),
        ensures
            final(self)@.wf(board),
            final(self)@ is Snek <==> old(self)@ is Snek,
            old(self)@ matches ObjectState::Snek(s) ==> final(self)@ == ObjectState::Snek(
                SnekState {
                    position: Position {
                        x: (board.width / 2) as i64,
                        y: (board.height / 2) as i64,
                    },
                    radius: (board.grid_size / 2) as i64,
                    ..s
                },
            ),
            final(self)@ matches ObjectState::Food(f) ==> !f.collided_with_player,
    {
        match &mut self.0 {
            GameObject::Snek(s) => s.on_setup(board),
            GameObject::Food(f) => f.on_setup(board),
        }
    }

    /// One frame; reports the end of the game.
    pub fn on_tick(&mut self, time: &Time, board: &Board) -> (r: TickSignal)
        requires
            old(self)@.wf(board),
        ensures
            final(self)@.same_up_to_place(old(self)@.ticked(board, time.delta as int)),
            final(self)@.wf(board),
            r == (if final(self)@.ends_game() {
                TickSignal::GameOver
            } else {
                TickSignal::Continue
            }),
    {
        match &mut self.0 {
            GameObject::Snek(s) => s.on_tick(time, board),
            GameObject::Food(f) => f.on_tick(time, board),
        }
    }

    pub fn layer(&self) -> (r: ColliderLayer)
        ensures
            r == self@.layer(),
    {
        match &self.0 {
            GameObject::Snek(s) => s.layer(),
            GameObject::Food(f) => f.layer(),
        }
    }

    pub fn collider(&self, board: &Board) -> (r: Vec<ColliderType>)
        requires
            self@.wf(board),
        ensures
            r@ == self@.collider_boxes(),
    {
        match &self.0 {
            GameObject::Snek(s) => {
                proof {
                    crate::snek::lemma_wf_bounded(s@, board);
                }
                s.collider()
            },
            GameObject::Food(f) => {
                proof {
                    crate::food::lemma_wf_bounded(*f, board);
                }
                f.collider()
            },
        }
    }

    pub fn check_collision(
        &mut self,
        other_layer: ColliderLayer,
        other_collider: &Vec<ColliderType>,
        board: &Board,
    )
        requires
            old(self)@.wf(board),
        ensures
            final(self)@ == old(self)@.collided(other_layer, other_collider@),
            final(self)@.wf(board),
    {
        match &mut self.0 {
            GameObject::Snek(s) => {
                proof {
                    crate::snek::lemma_wf_bounded(s@, board);
                    crate::snek::lemma_collided_wf(s@, board, other_layer, other_collider@);
                }
                s.check_collision(other_layer, other_collider)
            },
            GameObject::Food(f) => {
                proof {
                    crate::food::lemma_wf_bounded(*f, board);
                }
                f.check_collision(other_layer, other_collider)
            },
        }
    }

    pub fn on_input(&mut self, event: &InputEvent, board: &Board)
        requires
            old(self)@.wf(board),
        ensures
            final(self)@ == old(self)@.with_input(*event, board),
            final(self)@.wf(board),
    {
        match &mut self.0 {
            GameObject::Snek(s) => s.on_input(event, board),
            GameObject::Food(_) => {},
        }
    }
}

} // verus!
