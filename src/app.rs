use vstd::prelude::*;

use crate::app_owned_data::{
    supports, AppOwnedData, Capability, GameObject, InputEvent, ObjectState, TickSignal, Time,
};
use crate::board::{Board, Position};
use crate::food::Food;
use crate::snek::{max_int, min_int, MoveDir, Snek, SnekState, INIT_LENGTH, INIT_SPEED};

verus! {

/// Handles listed in registration order, each once.
pub open spec fn strictly_increasing(ids: Seq<usize>) -> bool {
    forall|i: int, j: int| 0 <= i < j < ids.len() ==> #[trigger] ids[i] < #[trigger] ids[j]
}

/// `ids` lists, in registration order, exactly the handles of `objs` whose
/// object offers `c`.
pub open spec fn lists_capability(objs: Seq<ObjectState>, ids: Seq<usize>, c: Capability) -> bool {
    &&& strictly_increasing(ids)
    &&& forall|k: int|
        0 <= k < ids.len() ==> #[trigger] ids[k] < objs.len() && supports(objs[ids[k] as int], c)
    &&& forall|i: int|
        0 <= i < objs.len() && supports(objs[i], c) ==> #[trigger] ids.contains(i as usize)
}

/// The object `pair.0` reacting to the object `pair.1`.
pub open spec fn dispatch(objs: Seq<ObjectState>, pair: (usize, usize)) -> Seq<ObjectState> {
    let me = objs[pair.0 as int];
    let other = objs[pair.1 as int];
    objs.update(pair.0 as int, me.collided(other.layer(), other.collider_boxes()))
}

/// The order of the collision sweep over the collidable handles `ids`, from
/// the pair of positions (`a`, `b`) on: every unordered pair once, each side
/// reacting to the other in turn.
pub open spec fn dispatch_order(ids: Seq<usize>, a: int, b: int) -> Seq<(usize, usize)>
    decreases ids.len() - a, ids.len() - b,
{
    if a < 0 || a >= ids.len() {
        seq![]
    } else if b >= ids.len() {
        dispatch_order(ids, a + 1, a + 2)
    } else if b <= a {
        seq![]
    } else {
        seq![(ids[a], ids[b]), (ids[b], ids[a])] + dispatch_order(ids, a, b + 1)
    }
}

/// The objects after each dispatch of `order`, in turn.
pub open spec fn apply_dispatches(objs: Seq<ObjectState>, order: Seq<(usize, usize)>) -> Seq<
    ObjectState,
>
    decreases order.len(),
{
    if order.len() == 0 {
        objs
    } else {
        apply_dispatches(dispatch(objs, order[0]), order.drop_first())
    }
}

/// How often `p` occurs in `s`.
pub open spec fn occurrences(s: Seq<(usize, usize)>, p: (usize, usize)) -> nat
    decreases s.len(),
{
    if s.len() == 0 {
        0
    } else {
        (if s[0] == p {
            1nat
        } else {
            0nat
        }) + occurrences(s.drop_first(), p)
    }
}

/// `after` is what a frame of `dt` microseconds makes of `before` on
/// `board`: every updatable object has ticked once.
pub open spec fn tick_outcome(
    before: Seq<ObjectState>,
    after: Seq<ObjectState>,
    board: &Board,
    dt: int,
) -> bool {
    &&& after.len() == before.len()
    &&& forall|i: int|
        0 <= i < before.len() ==> if supports(before[i], Capability::Update) {
            #[trigger] after[i].same_up_to_place(before[i].ticked(board, dt))
        } else {
            after[i] == before[i]
        }
    &&& forall|i: int| 0 <= i < after.len() ==> #[trigger] after[i].wf(board)
}

/// Some updatable object ends the game.
pub open spec fn game_over_in(objs: Seq<ObjectState>, ids: Seq<usize>) -> bool {
    exists|k: int| 0 <= k < ids.len() && (#[trigger] objs[ids[k] as int]).ends_game()
}

/// The snake of a new game on `board`.
pub open spec fn fresh_snek(board: &Board) -> SnekState {
    SnekState {
        position: Position { x: (board.width / 2) as i64, y: (board.height / 2) as i64 },
        dir: MoveDir::Left,
        dir_candidate: None,
        keypoints: seq![],
        length: INIT_LENGTH,
        radius: (board.grid_size / 2) as i64,
        speed: INIT_SPEED,
        in_edge: 0,
        game_over: false,
    }
}

/// The registry: it owns the board and every object, hands out handles in
/// registration order, and drives the objects by capability.
pub struct App {
    pub screen_w: u16,
    pub screen_h: u16,
    pub grid: u16,
    pub board: Board,
    pub owned_data: Vec<AppOwnedData>,
    pub owned_data_counter: usize,
    pub updateable_ids: Vec<usize>,
    pub input_listener_ids: Vec<usize>,
    pub collider_ids: Vec<usize>,
}

impl App {
    pub open spec fn objects(&self) -> Seq<ObjectState> {
        self.owned_data@.map_values(|d: AppOwnedData| d@)
    }

    /// The handles and the capability lists agree with the objects.
    pub open spec fn registry_wf(&self) -> bool {
        &&& self.owned_data_counter == self.owned_data@.len()
        &&& lists_capability(self.objects(), self.updateable_ids@, Capability::Update)
        &&& lists_capability(self.objects(), self.input_listener_ids@, Capability::Input)
        &&& lists_capability(self.objects(), self.collider_ids@, Capability::Collide)
    }

    /// The board is the one the screen and cell sizes give.
    pub open spec fn board_matches(&self) -> bool {
        &&& self.grid > 0
        &&& self.screen_w >= self.grid
        &&& self.screen_h >= self.grid
        &&& self.board.wf()
        &&& self.board.grid_size == self.grid as int * crate::board::UNITS_PER_PIXEL
        &&& self.board.n_cols() == self.screen_w as int / self.grid as int
        &&& self.board.n_rows() == self.screen_h as int / self.grid as int
    }

    pub open spec fn wf(&self) -> bool {
        &&& self.registry_wf()
        &&& self.board_matches()
        &&& self.board.nonempty()
        &&& forall|i: int| 0 <= i < self.objects().len() ==> #[trigger] self.objects()[i].wf(&self.board)
    }

    /// A game just started: the snake at the centre, the food on some cell.
    pub open spec fn is_fresh(&self) -> bool {
        &&& self.wf()
        &&& self.objects().len() == 2
        &&& self.objects()[0] == ObjectState::Snek(fresh_snek(&self.board))
        &&& self.objects()[1] matches ObjectState::Food(f) && !f.collided_with_player
    }

    /// Starts a game on a screen of `screen_w` by `screen_h` pixels with
    /// cells of `grid_size` pixels.
    pub fn new(screen_w: u16, screen_h: u16, grid_size: u16) -> (r: Self)
        requires
            grid_size > 0,
            screen_w >= grid_size,
            screen_h >= grid_size,
        ensures
            r.is_fresh(),
            r.screen_w == screen_w,
            r.screen_h == screen_h,
            r.grid == grid_size,
    {
        let mut app = App {
            screen_w,
            screen_h,
            grid: grid_size,
            board: Board::new(screen_w, screen_h, grid_size),
            owned_data: Vec::new(),
            owned_data_counter: 0,
            updateable_ids: Vec::new(),
            input_listener_ids: Vec::new(),
            collider_ids: Vec::new(),
        };
        proof {
            assert(app.objects() =~= seq![]);
            vstd::arithmetic::div_mod::lemma_div_is_ordered(
                grid_size as int,
                screen_w as int,
                grid_size as int,
            );
            vstd::arithmetic::div_mod::lemma_div_is_ordered(
                grid_size as int,
                screen_h as int,
                grid_size as int,
            );
            vstd::arithmetic::div_mod::lemma_div_by_self(grid_size as int);
        }
        app.on_app_init();
        app.after_on_app_init();
        app
    }

    /// Registers the objects of a new game.
    fn on_app_init(&mut self)
        requires
            old(self).registry_wf(),
            old(self).owned_data@.len() == 0,
        ensures
            final(self).registry_wf(),
            final(self).objects().len() == 2,
            final(self).objects()[0] == ObjectState::Snek(crate::snek::new_snek()),
            final(self).objects()[1] is Food,
            final(self).board == old(self).board,
            final(self).screen_w == old(self).screen_w,
            final(self).screen_h == old(self).screen_h,
            final(self).grid == old(self).grid,
    {
        self.take(AppOwnedData::from(GameObject::Snek(Snek::new())));
        self.take(AppOwnedData::from(GameObject::Food(Food::new())));
    }

    /// Sets every object up on the board, in registration order.
    fn after_on_app_init(&mut self)
        requires
            old(self).registry_wf(),
            old(self).board_matches(),
            old(self).objects().len() == 2,
            old(self).objects()[0] == ObjectState::Snek(crate::snek::new_snek()),
            old(self).objects()[1] is Food,
        ensures
            final(self).is_fresh(),
            final(self).board == old(self).board,
            final(self).screen_w == old(self).screen_w,
            final(self).screen_h == old(self).screen_h,
            final(self).grid == old(self).grid,
    {
        proof {
            self.lemma_board_nonempty();
        }
        let ghost before = self.objects();
        let n = self.owned_data.len();
        let mut i: usize = 0;
        while i < n
            invariant
                n == self.owned_data@.len(),
                i <= n,
                self.board == old(self).board,
                self.board.wf(),
                self.board.nonempty(),
                self.screen_w == old(self).screen_w,
                self.screen_h == old(self).screen_h,
                self.grid == old(self).grid,
                self.owned_data_counter == old(self).owned_data_counter,
                self.updateable_ids == old(self).updateable_ids,
                self.input_listener_ids == old(self).input_listener_ids,
                self.collider_ids == old(self).collider_ids,
                before == old(self).objects(),
                before.len() == 2,
                n == 2,
                before[0] == ObjectState::Snek(crate::snek::new_snek()),
                before[1] is Food,
                forall|k: int|
                    i <= k < n ==> #[trigger] self.objects()[k] == before[k],
                forall|k: int| 0 <= k < i ==> #[trigger] self.objects()[k].wf(&self.board),
                forall|k: int| 0 <= k < i ==> (#[trigger] self.objects()[k] is Snek <==> before[k] is Snek),
                0 < i ==> self.objects()[0] == ObjectState::Snek(fresh_snek(&self.board)),
                1 < i ==> (self.objects()[1] matches ObjectState::Food(f) && !f.collided_with_player),
            decreases n - i,
        {
            let ghost prev = self.objects();
            assert(prev[i as int] == self.owned_data@[i as int]@);
            assert(prev[i as int] == before[i as int]);
            assert(crate::snek::unplaced(crate::snek::new_snek()));
            self.owned_data[i].on_setup(&self.board);
            proof {
                assert(self.objects() =~= prev.update(i as int, self.objects()[i as int]));
            }
            i = i + 1;
        }
        proof {
            self.lemma_same_kinds_keep_lists(before);
        }
    }

    /// Gives a new object to the registry under the next handle.
    pub fn take(&mut self, data: AppOwnedData)
        requires
            old(self).registry_wf(),
            old(self).owned_data_counter < usize::MAX,
        ensures
            final(self).registry_wf(),
            final(self).objects() == old(self).objects().push(data@),
            final(self).owned_data@.len() == old(self).owned_data@.len() + 1,
            final(self).board == old(self).board,
            final(self).screen_w == old(self).screen_w,
            final(self).screen_h == old(self).screen_h,
            final(self).grid == old(self).grid,
    {
        let curr_data_counter = self.owned_data_counter;
        let ghost objs = self.objects();
        let ghost new_objs = objs.push(data@);
        if data.is(Capability::Update) {
            self.updateable_ids.push(curr_data_counter);
        }
        if data.is(Capability::Collide) {
            self.collider_ids.push(curr_data_counter);
        }
        if data.is(Capability::Input) {
            self.input_listener_ids.push(curr_data_counter);
        }
        self.owned_data.push(data);
        self.owned_data_counter = self.owned_data_counter + 1;
        proof {
            assert(self.objects() =~= new_objs);
            lemma_lists_extend(objs, old(self).updateable_ids@, self.updateable_ids@, Capability::Update, data@);
            lemma_lists_extend(objs, old(self).collider_ids@, self.collider_ids@, Capability::Collide, data@);
            lemma_lists_extend(objs, old(self).input_listener_ids@, self.input_listener_ids@, Capability::Input, data@);
        }
    }

    /// Drops every object and empties the capability lists.
    fn clear(&mut self)
        ensures
            final(self).registry_wf(),
            final(self).owned_data@.len() == 0,
            final(self).board == old(self).board,
            final(self).screen_w == old(self).screen_w,
            final(self).screen_h == old(self).screen_h,
            final(self).grid == old(self).grid,
    {
        self.updateable_ids = Vec::new();
        self.input_listener_ids = Vec::new();
        self.collider_ids = Vec::new();
        self.owned_data = Vec::new();
        self.owned_data_counter = 0;
        proof {
            assert(self.objects() =~= seq![]);
        }
    }

    /// Discards the whole game and starts a new one.
    fn on_game_over(&mut self)
        requires
            old(self).board_matches(),
        ensures
            final(self).is_fresh(),
            final(self).screen_w == old(self).screen_w,
            final(self).screen_h == old(self).screen_h,
            final(self).grid == old(self).grid,
    {
        self.clear();
        self.board = Board::new(self.screen_w, self.screen_h, self.grid);
        self.on_app_init();
        self.after_on_app_init();
    }

    /// Ticks every updatable object once, in registration order; reports
    /// whether one of them ended the game.
    pub fn update_pass(&mut self, time: &Time) -> (r: bool)
        requires
            old(self).wf(),
        ensures
            tick_outcome(old(self).objects(), final(self).objects(), &old(self).board, time.delta as int),
            r == game_over_in(final(self).objects(), final(self).updateable_ids@),
            final(self).wf(),
            final(self).board == old(self).board,
            final(self).screen_w == old(self).screen_w,
            final(self).screen_h == old(self).screen_h,
            final(self).grid == old(self).grid,
            final(self).updateable_ids == old(self).updateable_ids,
            final(self).input_listener_ids == old(self).input_listener_ids,
            final(self).collider_ids == old(self).collider_ids,
    {
        let ghost before = self.objects();
        let mut is_game_over = false;
        let n = self.updateable_ids.len();
        let mut k: usize = 0;
        while k < n
            invariant
                n == self.updateable_ids@.len(),
                k <= n,
                self.board == old(self).board,
                self.board.wf(),
                self.board.nonempty(),
                self.screen_w == old(self).screen_w,
                self.screen_h == old(self).screen_h,
                self.grid == old(self).grid,
                self.owned_data_counter == old(self).owned_data_counter,
                self.updateable_ids == old(self).updateable_ids,
                self.input_listener_ids == old(self).input_listener_ids,
                self.collider_ids == old(self).collider_ids,
                before == old(self).objects(),
                self.owned_data@.len() == before.len(),
                before.len() <= usize::MAX,
                lists_capability(before, self.updateable_ids@, Capability::Update),
                forall|i: int|
                    0 <= i < before.len() ==> if self.updateable_ids@.subrange(0, k as int).contains(
                        i as usize,
                    ) {
                        &&& (#[trigger] self.objects()[i]).same_up_to_place(
                            before[i].ticked(&self.board, time.delta as int),
                        )
                        &&& self.objects()[i].wf(&self.board)
                    } else {
                        self.objects()[i] == before[i]
                    },
                forall|i: int| 0 <= i < before.len() ==> #[trigger] before[i].wf(&self.board),
                is_game_over == exists|j: int|
                    0 <= j < k && (#[trigger] self.objects()[self.updateable_ids@[j] as int]).ends_game(),
            decreases n - k,
        {
            let id = self.updateable_ids[k];
            let ghost prev = self.objects();
            proof {
                assert(self.updateable_ids@[k as int] < before.len());
                assert(!self.updateable_ids@.subrange(0, k as int).contains(id)) by {
                    if self.updateable_ids@.subrange(0, k as int).contains(id) {
                        let j = choose|j: int|
                            0 <= j < k && self.updateable_ids@.subrange(0, k as int)[j] == id;
                        assert(self.updateable_ids@[j] < self.updateable_ids@[k as int]);
                    }
                }
                assert(prev[id as int] == self.owned_data@[id as int]@);
            }
            let signal = self.owned_data[id].on_tick(time, &self.board);
            proof {
                assert(self.objects() =~= prev.update(id as int, self.objects()[id as int]));
                assert forall|i: int| 0 <= i < before.len() implies (
                    #[trigger] self.updateable_ids@.subrange(0, k + 1).contains(i as usize) <==> (
                    self.updateable_ids@.subrange(0, k as int).contains(i as usize) || i == id)) by {
                    lemma_prefix_contains(self.updateable_ids@, k as int, i as usize);
                }
                assert forall|j: int| 0 <= j < k implies self.updateable_ids@[j] != id by {
                    assert(self.updateable_ids@[j] < self.updateable_ids@[k as int]);
                }
            }
            let ghost was_over = is_game_over;
            match signal {
                TickSignal::GameOver => {
                    is_game_over = true;
                },
                TickSignal::Continue => {},
            }
            proof {
                if was_over {
                    let j = choose|j: int|
                        0 <= j < k && (#[trigger] prev[self.updateable_ids@[j] as int]).ends_game();
                    assert(self.objects()[self.updateable_ids@[j] as int] == prev[self.updateable_ids@[j] as int]);
                }
                if is_game_over && !was_over {
                    assert(self.objects()[self.updateable_ids@[k as int] as int].ends_game());
                }
                if exists|j: int|
                    0 <= j < k + 1 && (#[trigger] self.objects()[self.updateable_ids@[j] as int]).ends_game() {
                    let j = choose|j: int|
                        0 <= j < k + 1 && (#[trigger] self.objects()[self.updateable_ids@[j] as int]).ends_game();
                    if j < k {
                        assert(self.objects()[self.updateable_ids@[j] as int] == prev[self.updateable_ids@[j] as int]);
                    }
                }
            }
            k = k + 1;
        }
        proof {
            assert(self.updateable_ids@.subrange(0, n as int) =~= self.updateable_ids@);
            assert forall|i: int| 0 <= i < before.len() implies (supports(before[i], Capability::Update)
                <==> #[trigger] self.updateable_ids@.contains(i as usize)) by {
                if self.updateable_ids@.contains(i as usize) {
                    let j = choose|j: int| 0 <= j < n && self.updateable_ids@[j] == i as usize;
                }
            }
            assert forall|i: int| 0 <= i < self.objects().len() implies (#[trigger] self.objects()[i] is Snek
                <==> before[i] is Snek) by {
                if self.updateable_ids@.contains(i as usize) {
                    assert(self.objects()[i].same_up_to_place(before[i].ticked(&self.board, time.delta as int)));
                }
            }
            self.lemma_same_kinds_keep_lists(before);
        }
        is_game_over
    }

    /// The all-pairs collision sweep over the collidable objects: for every
    /// pair, in enumeration order, the first reacts to the second and then the
    /// second to the first.
    pub fn collision_sweep(&mut self)
        requires
            old(self).wf(),
        ensures
            final(self).objects() == apply_dispatches(
                old(self).objects(),
                dispatch_order(old(self).collider_ids@, 0, 1),
            ),
            final(self).wf(),
            final(self).board == old(self).board,
            final(self).screen_w == old(self).screen_w,
            final(self).screen_h == old(self).screen_h,
            final(self).grid == old(self).grid,
            final(self).updateable_ids == old(self).updateable_ids,
            final(self).input_listener_ids == old(self).input_listener_ids,
            final(self).collider_ids == old(self).collider_ids,
    {
        let ghost before = self.objects();
        let ghost ids = self.collider_ids@;
        let ghost target = apply_dispatches(before, dispatch_order(ids, 0, 1));
        let n = self.collider_ids.len();
        let mut a: usize = 0;
        while a < n
            invariant
                n == ids.len(),
                ids == self.collider_ids@,
                a <= n,
                self.board == old(self).board,
                self.board.wf(),
                self.board.nonempty(),
                self.screen_w == old(self).screen_w,
                self.screen_h == old(self).screen_h,
                self.grid == old(self).grid,
                self.owned_data_counter == old(self).owned_data_counter,
                self.updateable_ids == old(self).updateable_ids,
                self.input_listener_ids == old(self).input_listener_ids,
                self.collider_ids == old(self).collider_ids,
                before == old(self).objects(),
                self.owned_data@.len() == before.len(),
                lists_capability(before, ids, Capability::Collide),
                forall|i: int| 0 <= i < before.len() ==> #[trigger] self.objects()[i].wf(&self.board),
                forall|i: int|
                    0 <= i < before.len() ==> (#[trigger] self.objects()[i] is Snek <==> before[i] is Snek),
                apply_dispatches(self.objects(), dispatch_order(ids, a as int, a + 1)) == target,
            decreases n - a,
        {
            let mut b: usize = a + 1;
            while b < n
                invariant
                    n == ids.len(),
                    ids == self.collider_ids@,
                    a < n,
                    a < b <= n,
                    self.board == old(self).board,
                    self.board.wf(),
                    self.board.nonempty(),
                    self.screen_w == old(self).screen_w,
                    self.screen_h == old(self).screen_h,
                    self.grid == old(self).grid,
                    self.owned_data_counter == old(self).owned_data_counter,
                    self.updateable_ids == old(self).updateable_ids,
                    self.input_listener_ids == old(self).input_listener_ids,
                    self.collider_ids == old(self).collider_ids,
                    before == old(self).objects(),
                    self.owned_data@.len() == before.len(),
                    lists_capability(before, ids, Capability::Collide),
                    forall|i: int| 0 <= i < before.len() ==> #[trigger] self.objects()[i].wf(&self.board),
                    forall|i: int|
                        0 <= i < before.len() ==> (#[trigger] self.objects()[i] is Snek
                            <==> before[i] is Snek),
                    apply_dispatches(self.objects(), dispatch_order(ids, a as int, b as int)) == target,
                decreases n - b,
            {
                let ida = self.collider_ids[a];
                let idb = self.collider_ids[b];
                let ghost cur = self.objects();
                proof {
                    assert(ids[a as int] < before.len());
                    assert(ids[b as int] < before.len());
                    assert(cur[idb as int] == self.owned_data@[idb as int]@);
                    assert(cur[ida as int] == self.owned_data@[ida as int]@);
                    assert(self.objects()[ida as int].wf(&self.board));
                    assert(self.objects()[idb as int].wf(&self.board));
                }
                let layer_b = self.owned_data[idb].layer();
                let boxes_b = self.owned_data[idb].collider(&self.board);
                self.owned_data[ida].check_collision(layer_b, &boxes_b, &self.board);
                let ghost mid = self.objects();
                proof {
                    assert(mid =~= dispatch(cur, (ida, idb)));
                    assert(mid[idb as int] == self.owned_data@[idb as int]@);
                    assert(mid[ida as int] == self.owned_data@[ida as int]@);
                    assert(mid[idb as int].wf(&self.board));
                }
                let layer_a = self.owned_data[ida].layer();
                let boxes_a = self.owned_data[ida].collider(&self.board);
                self.owned_data[idb].check_collision(layer_a, &boxes_a, &self.board);
                proof {
                    assert(self.objects() =~= dispatch(mid, (idb, ida)));
                    let order = dispatch_order(ids, a as int, b as int);
                    let rest = dispatch_order(ids, a as int, b + 1);
                    assert(order == seq![(ida, idb), (idb, ida)] + rest);
                    assert(order[0] == (ida, idb));
                    assert(order.drop_first() =~= seq![(idb, ida)] + rest);
                    assert((seq![(idb, ida)] + rest).drop_first() =~= rest);
                    assert((seq![(idb, ida)] + rest)[0] == (idb, ida));
                    assert(apply_dispatches(cur, order) == apply_dispatches(mid, seq![(idb, ida)] + rest));
                    assert(apply_dispatches(mid, seq![(idb, ida)] + rest) == apply_dispatches(
                        self.objects(),
                        rest,
                    ));
                    assert forall|i: int| 0 <= i < before.len() implies (
                        #[trigger] self.objects()[i] is Snek <==> before[i] is Snek) by {
                        assert(cur[i] is Snek <==> before[i] is Snek);
                    }
                    assert forall|i: int| 0 <= i < before.len() implies #[trigger] self.objects()[i].wf(
                        &self.board,
                    ) by {
                        if i != idb && i != ida {
                            assert(cur[i].wf(&self.board));
                        }
                    }
                }
                b = b + 1;
            }
            proof {
                assert(dispatch_order(ids, a as int, b as int) == dispatch_order(ids, a + 1, a + 2));
            }
            a = a + 1;
        }
        proof {
            assert(dispatch_order(ids, a as int, a + 1).len() == 0);
            self.lemma_same_kinds_keep_lists(before);
        }
    }

    /// One frame: every updatable object ticks, in registration order; if one
    /// of them ended the game, the whole game starts anew; otherwise the
    /// collision sweep runs. Reports whether the game started anew.
    pub fn render(&mut self, time: Time) -> (reset: bool)
        requires
            old(self).wf(),
        ensures
            final(self).wf(),
            final(self).screen_w == old(self).screen_w,
            final(self).screen_h == old(self).screen_h,
            final(self).grid == old(self).grid,
            exists|ticked: Seq<ObjectState>|
                #![trigger tick_outcome(old(self).objects(), ticked, &old(self).board, time.delta as int)]
                tick_outcome(old(self).objects(), ticked, &old(self).board, time.delta as int) && reset
                    == game_over_in(ticked, old(self).updateable_ids@) && if reset {
                    final(self).is_fresh()
                } else {
                    &&& final(self).objects() == apply_dispatches(
                        ticked,
                        dispatch_order(old(self).collider_ids@, 0, 1),
                    )
                    &&& final(self).board == old(self).board
                    &&& final(self).updateable_ids == old(self).updateable_ids
                    &&& final(self).input_listener_ids == old(self).input_listener_ids
                    &&& final(self).collider_ids == old(self).collider_ids
                },
    {
        let is_game_over = self.update_pass(&time);
        if is_game_over {
            self.on_game_over();
            return true;
        }
        self.collision_sweep();
        false
    }

    /// Hands an input event to every object that listens, in registration
    /// order.
    pub fn window_event(&mut self, event: InputEvent)
        requires
            old(self).wf(),
        ensures
            final(self).wf(),
            final(self).objects().len() == old(self).objects().len(),
            forall|i: int|
                0 <= i < old(self).objects().len() ==> #[trigger] final(self).objects()[i] == (if supports(
                    old(self).objects()[i],
                    Capability::Input,
                ) {
                    old(self).objects()[i].with_input(event, &old(self).board)
                } else {
                    old(self).objects()[i]
                }),
            final(self).board == old(self).board,
            final(self).screen_w == old(self).screen_w,
            final(self).screen_h == old(self).screen_h,
            final(self).grid == old(self).grid,
            final(self).updateable_ids == old(self).updateable_ids,
            final(self).input_listener_ids == old(self).input_listener_ids,
            final(self).collider_ids == old(self).collider_ids,
    {
        let ghost before = self.objects();
        let n = self.input_listener_ids.len();
        let mut k: usize = 0;
        while k < n
            invariant
                n == self.input_listener_ids@.len(),
                k <= n,
                self.board == old(self).board,
                self.board.wf(),
                self.board.nonempty(),
                self.screen_w == old(self).screen_w,
                self.screen_h == old(self).screen_h,
                self.grid == old(self).grid,
                self.owned_data_counter == old(self).owned_data_counter,
                self.updateable_ids == old(self).updateable_ids,
                self.input_listener_ids == old(self).input_listener_ids,
                self.collider_ids == old(self).collider_ids,
                before == old(self).objects(),
                self.owned_data@.len() == before.len(),
                before.len() <= usize::MAX,
                lists_capability(before, self.input_listener_ids@, Capability::Input),
                forall|i: int|
                    0 <= i < before.len() ==> #[trigger] self.objects()[i] == (if self.input_listener_ids@.subrange(
                        0,
                        k as int,
                    ).contains(i as usize) {
                        before[i].with_input(event, &self.board)
                    } else {
                        before[i]
                    }),
                forall|i: int| 0 <= i < before.len() ==> #[trigger] before[i].wf(&self.board),
            decreases n - k,
        {
            let id = self.input_listener_ids[k];
            let ghost prev = self.objects();
            proof {
                assert(self.input_listener_ids@[k as int] < before.len());
                assert(!self.input_listener_ids@.subrange(0, k as int).contains(id)) by {
                    if self.input_listener_ids@.subrange(0, k as int).contains(id) {
                        let j = choose|j: int|
                            0 <= j < k && self.input_listener_ids@.subrange(0, k as int)[j] == id;
                        assert(self.input_listener_ids@[j] < self.input_listener_ids@[k as int]);
                    }
                }
                assert(prev[id as int] == self.owned_data@[id as int]@);
            }
            self.owned_data[id].on_input(&event, &self.board);
            proof {
                assert(self.objects() =~= prev.update(id as int, self.objects()[id as int]));
                assert forall|i: int| 0 <= i < before.len() implies (
                    #[trigger] self.input_listener_ids@.subrange(0, k + 1).contains(i as usize) <==> (
                    self.input_listener_ids@.subrange(0, k as int).contains(i as usize) || i == id)) by {
                    lemma_prefix_contains(self.input_listener_ids@, k as int, i as usize);
                }
            }
            k = k + 1;
        }
        proof {
            assert(self.input_listener_ids@.subrange(0, n as int) =~= self.input_listener_ids@);
            assert forall|i: int| 0 <= i < before.len() implies (supports(before[i], Capability::Input)
                <==> #[trigger] self.input_listener_ids@.contains(i as usize)) by {
                if self.input_listener_ids@.contains(i as usize) {
                    let j = choose|j: int| 0 <= j < n && self.input_listener_ids@[j] == i as usize;
                }
            }
            assert forall|i: int| 0 <= i < self.objects().len() implies (#[trigger] self.objects()[i] is Snek
                <==> before[i] is Snek) by {
            }
            assert forall|i: int| 0 <= i < self.objects().len() implies #[trigger] self.objects()[i].wf(&self.board) by {
                lemma_input_keeps_wf(before[i], event, &self.board);
            }
            self.lemma_same_kinds_keep_lists(before);
        }
    }

    proof fn lemma_board_nonempty(&self)
        requires
            self.board_matches(),
        ensures
            self.board.nonempty(),
    {
        vstd::arithmetic::div_mod::lemma_div_is_ordered(
            self.grid as int,
            self.screen_w as int,
            self.grid as int,
        );
        vstd::arithmetic::div_mod::lemma_div_is_ordered(
            self.grid as int,
            self.screen_h as int,
            self.grid as int,
        );
        vstd::arithmetic::div_mod::lemma_div_by_self(self.grid as int);
    }

    /// Objects that keep their kind keep their places in the capability lists.
    proof fn lemma_same_kinds_keep_lists(&self, before: Seq<ObjectState>)
        requires
            before.len() == self.objects().len(),
            forall|k: int|
                0 <= k < before.len() ==> (#[trigger] self.objects()[k] is Snek <==> before[k] is Snek),
            self.owned_data_counter == before.len(),
            lists_capability(before, self.updateable_ids@, Capability::Update),
            lists_capability(before, self.input_listener_ids@, Capability::Input),
            lists_capability(before, self.collider_ids@, Capability::Collide),
        ensures
            self.registry_wf(),
    {
        lemma_lists_same_kinds(before, self.objects(), self.updateable_ids@, Capability::Update);
        lemma_lists_same_kinds(before, self.objects(), self.input_listener_ids@, Capability::Input);
        lemma_lists_same_kinds(before, self.objects(), self.collider_ids@, Capability::Collide);
    }
}

/// Occurrences add up over a concatenation.
proof fn lemma_occurrences_concat(s1: Seq<(usize, usize)>, s2: Seq<(usize, usize)>, x: (usize, usize))
    ensures
        occurrences(s1 + s2, x) == occurrences(s1, x) + occurrences(s2, x),
    decreases s1.len(),
{
    if s1.len() == 0 {
        assert(s1 + s2 =~= s2);
    } else {
        assert((s1 + s2).drop_first() =~= s1.drop_first() + s2);
        lemma_occurrences_concat(s1.drop_first(), s2, x);
    }
}

/// From positions (`a`, `b`) on, the sweep dispatches the ordered pair of
/// positions (`p`, `q`) once if that pair is still ahead, and never otherwise.
proof fn lemma_order_count(ids: Seq<usize>, a: int, b: int, p: int, q: int)
    requires
        strictly_increasing(ids),
        0 <= a < b,
        0 <= p < ids.len(),
        0 <= q < ids.len(),
    ensures
        occurrences(dispatch_order(ids, a, b), (ids[p], ids[q])) == if p != q && (min_int(p, q) > a
            || (min_int(p, q) == a && max_int(p, q) >= b)) {
            1nat
        } else {
            0nat
        },
    decreases ids.len() - a, ids.len() - b,
{
    let t = (ids[p], ids[q]);
    if a >= ids.len() {
    } else if b >= ids.len() {
        lemma_order_count(ids, a + 1, a + 2, p, q);
    } else {
        let rest = dispatch_order(ids, a, b + 1);
        let head = seq![(ids[a], ids[b]), (ids[b], ids[a])];
        lemma_order_count(ids, a, b + 1, p, q);
        lemma_occurrences_concat(head, rest, t);
        assert(head.drop_first() =~= seq![(ids[b], ids[a])]);
        assert(head.drop_first().drop_first() =~= Seq::<(usize, usize)>::empty());
        assert(dispatch_order(ids, a, b) == head + rest);
        assert(occurrences(head.drop_first().drop_first(), t) == 0);
        assert(occurrences(head.drop_first(), t) == (if (ids[b], ids[a]) == t {
            1nat
        } else {
            0nat
        }));
        assert(occurrences(head, t) == (if (ids[a], ids[b]) == t {
            1nat
        } else {
            0nat
        }) + (if (ids[b], ids[a]) == t {
            1nat
        } else {
            0nat
        }));
        assert(ids[a] == ids[p] ==> a == p);
        assert(ids[b] == ids[q] ==> b == q);
        assert(ids[b] == ids[p] ==> b == p);
        assert(ids[a] == ids[q] ==> a == q);
    }
}

/// Collision symmetry: in one sweep every collidable object reacts to every
/// other collidable object exactly once, and never to itself.
pub proof fn lemma_each_pair_dispatched_once(ids: Seq<usize>, p: int, q: int)
    requires
        strictly_increasing(ids),
        0 <= p < ids.len(),
        0 <= q < ids.len(),
    ensures
        p != q ==> occurrences(dispatch_order(ids, 0, 1), (ids[p], ids[q])) == 1,
        occurrences(dispatch_order(ids, 0, 1), (ids[p], ids[p])) == 0,
{
    lemma_order_count(ids, 0, 1, p, q);
    lemma_order_count(ids, 0, 1, p, p);
}

/// An input event keeps an object well formed.
proof fn lemma_input_keeps_wf(o: ObjectState, event: InputEvent, board: &Board)
    requires
        o.wf(board),
    ensures
        o.with_input(event, board).wf(board),
{
}

/// A handle is among the first `k + 1` of `ids` iff it is among the first
/// `k` or is the `k`-th.
proof fn lemma_prefix_contains(ids: Seq<usize>, k: int, x: usize)
    requires
        0 <= k < ids.len(),
    ensures
        ids.subrange(0, k + 1).contains(x) <==> (ids.subrange(0, k).contains(x) || ids[k] == x),
{
    let longer = ids.subrange(0, k + 1);
    let shorter = ids.subrange(0, k);
    assert(longer =~= shorter.push(ids[k]));
    if longer.contains(x) {
        let j = choose|j: int| 0 <= j < longer.len() && #[trigger] longer[j] == x;
        if j < k {
            assert(shorter[j] == x);
        }
    }
    if shorter.contains(x) {
        let j = choose|j: int| 0 <= j < shorter.len() && #[trigger] shorter[j] == x;
        assert(longer[j] == x);
    }
    if ids[k] == x {
        assert(longer[k] == x);
    }
}

/// Registering an object appends its handle to the lists of the capabilities
/// it offers.
proof fn lemma_lists_extend(
    objs: Seq<ObjectState>,
    ids: Seq<usize>,
    new_ids: Seq<usize>,
    c: Capability,
    o: ObjectState,
)
    requires
        lists_capability(objs, ids, c),
        objs.len() < usize::MAX,
        new_ids == (if supports(o, c) {
            ids.push(objs.len() as usize)
        } else {
            ids
        }),
    ensures
        lists_capability(objs.push(o), new_ids, c),
{
    let objs2 = objs.push(o);
    assert forall|k: int| 0 <= k < new_ids.len() implies #[trigger] new_ids[k] < objs2.len()
        && supports(objs2[new_ids[k] as int], c) by {
        if k < ids.len() {
            assert(new_ids[k] == ids[k]);
        }
    }
    assert forall|i: int| 0 <= i < objs2.len() && supports(objs2[i], c) implies #[trigger] new_ids.contains(i as usize) by {
        if i < objs.len() {
            assert(ids.contains(i as usize));
            let k = choose|k: int| 0 <= k < ids.len() && ids[k] == i as usize;
            assert(new_ids[k] == i as usize);
        } else {
            assert(new_ids[new_ids.len() - 1] == i as usize);
        }
    }
}

/// The capability lists depend only on the kind of each object.
proof fn lemma_lists_same_kinds(
    before: Seq<ObjectState>,
    after: Seq<ObjectState>,
    ids: Seq<usize>,
    c: Capability,
)
    requires
        lists_capability(before, ids, c),
        before.len() == after.len(),
        forall|k: int| 0 <= k < before.len() ==> (#[trigger] after[k] is Snek <==> before[k] is Snek),
    ensures
        lists_capability(after, ids, c),
{
    assert forall|k: int| 0 <= k < ids.len() implies #[trigger] ids[k] < after.len() && supports(
        after[ids[k] as int],
        c,
    ) by {
        assert(after[ids[k] as int] is Snek <==> before[ids[k] as int] is Snek);
    }
    assert forall|i: int| 0 <= i < after.len() && supports(after[i], c) implies #[trigger] ids.contains(
        i as usize,
    ) by {
        assert(after[i] is Snek <==> before[i] is Snek);
    }
}

} // verus!
