use rand::Rng;
use vstd::prelude::*;

use crate::con_map::{Con, ConMap};
use crate::world::{
    leave_food_trace, stamp_cells, trail, AdvanceResult, Boundaries, Direction, Figure, Foods, Pos,
    Snake, SnakeView, views,
};

verus! {

/// Below this many foods, each tick stamps one more figure.
pub const REFILL_THRESHOLD: usize = 10;

/// Half-height of a freshly laid out field, and its least half-width.
pub const MIN_RADIUS: i32 = 6;

/// Row of every snake's head when a game starts.
pub const SPAWN_ROW: i32 = 3;

/// Relies on rand's `Rng::gen_range` over a half-open range, which returns a value in it
/// and panics only when the range is empty.
#[verifier::external_body]
fn random_in(lo: i32, hi: i32) -> (r: i32)
    requires
        lo < hi,
    ensures
        lo <= r < hi,
{
    rand::thread_rng().gen_range(lo..hi)
}

/// The lobby before its game: whether each player voted to start.
#[derive(Debug)]
pub struct PrepLobbyState {
    pub start_votes: ConMap<bool>,
}

/// Whether every vote is for starting, and there is at least one.
pub open spec fn all_voted(votes: Map<Con, bool>) -> bool {
    votes.len() > 0 && forall|k: Con| #[trigger] votes.contains_key(k) ==> votes[k]
}

/// Column of the `i`-th snake's head: alternately left and right of the centre.
pub open spec fn spawn_x(i: int) -> int {
    if i % 2 == 0 {
        -i
    } else {
        i
    }
}

/// The `i`-th snake of a new game: three cells in a column, heading up.
pub open spec fn spawn_snake(i: int) -> SnakeView {
    SnakeView {
        cells: trail(
            Pos { x: spawn_x(i) as i32, y: SPAWN_ROW },
            seq![Direction::Up, Direction::Up],
        ),
        direction: Direction::Up,
    }
}

/// Half-width of the field for `n` players.
pub open spec fn spawn_radius_x(n: int) -> int {
    let need = n + 2 - n % 2;
    if need > MIN_RADIUS {
        need
    } else {
        MIN_RADIUS as int
    }
}

/// The field for `n` players, centred at the origin.
pub open spec fn spawn_boundaries(n: int) -> Boundaries {
    Boundaries {
        min: Pos { x: (-spawn_radius_x(n)) as i32, y: (-MIN_RADIUS) as i32 },
        max: Pos { x: spawn_radius_x(n) as i32, y: MIN_RADIUS },
    }
}

impl PrepLobbyState {
    pub open spec fn wf(&self) -> bool {
        self.start_votes.wf()
    }

    pub fn new() -> (r: PrepLobbyState)
        ensures
            r.wf(),
            r.start_votes@ == Map::<Con, bool>::empty(),
    {
        PrepLobbyState { start_votes: ConMap::new() }
    }

    /// Adds a player who has not voted yet.
    pub fn join_con(&mut self, con: Con)
        requires
            old(self).wf(),
        ensures
            final(self).wf(),
            final(self).start_votes@ == old(self).start_votes@.insert(con, false),
    {
        self.start_votes.insert(con, false);
    }

    pub fn remove_con(&mut self, con: &Con)
        requires
            old(self).wf(),
        ensures
            final(self).wf(),
            final(self).start_votes@ == old(self).start_votes@.remove(*con),
    {
        self.start_votes.remove(*con);
    }

    /// Records a vote of a player already present; others are ignored.
    pub fn vote_start(&mut self, con: Con, vote: bool)
        requires
            old(self).wf(),
        ensures
            final(self).wf(),
            old(self).start_votes@.contains_key(con) ==> final(self).start_votes@ == old(self).start_votes@.insert(con, vote),
            !old(self).start_votes@.contains_key(con) ==> final(self).start_votes@ == old(self).start_votes@,
    {
        if self.start_votes.contains_key(con) {
            self.start_votes.insert(con, vote);
        }
    }

    pub fn all_voted_to_start(&self) -> (r: bool)
        requires
            self.wf(),
        ensures
            r == all_voted(self.start_votes@),
    {
        let n = self.start_votes.len();
        if n == 0 {
            return false;
        }
        let mut i: usize = 0;
        while i < n
            invariant
                self.wf(),
                n == self.start_votes.entries@.len(),
                i <= n,
                forall|j: int| 0 <= j < i ==> (#[trigger] self.start_votes.entries@[j]).1,
            decreases n - i,
        {
            if !self.start_votes.entries[i].1 {
                proof {
                    self.start_votes.lemma_index(i as int);
                }
                return false;
            }
            i = i + 1;
        }
        proof {
            assert forall|k: Con| #[trigger] self.start_votes@.contains_key(k) implies self.start_votes@[k] by {
                let j = self.start_votes.index_of(k);
                self.start_votes.lemma_index(j);
            }
        }
        true
    }

    /// The game that starts from this lobby: one snake per player, laid out in ascending
    /// connection order, on a field wide enough for all of them.
    pub fn to_running(&self) -> (r: RunningLobbyState)
        requires
            self.wf(),
        ensures
            r.wf(),
            RunningLobbyState::laid_out(*self, r),
    {
        let keys = self.start_votes.keys();
        let n = keys.len();
        let mut snakes: ConMap<Snake> = ConMap::new();
        let mut cons: ConMap<()> = ConMap::new();
        let mut i: usize = 0;
        proof {
            self.start_votes.lemma_dom();
            self.start_votes.lemma_len_bound();
        }
        assert(keys@.subrange(0, 0).to_set() =~= Set::<Con>::empty());
        while i < n
            invariant
                i <= n,
                n == keys@.len(),
                n <= 0x10000,
                keys@.no_duplicates(),
                snakes.wf(),
                cons.wf(),
                snakes@.dom() == keys@.subrange(0, i as int).to_set(),
                cons@.dom() == keys@.subrange(0, i as int).to_set(),
                forall|j: int| 0 <= j < i ==> (#[trigger] snakes@[keys@[j]])@ == spawn_snake(j),
                forall|k: Con| #[trigger] snakes@.contains_key(k) ==> snakes@[k]@.wf(),
            decreases n - i,
        {
            let x: i32 = if i % 2 == 0 {
                0 - (i as i32)
            } else {
                i as i32
            };
            let body = vec![Direction::Up, Direction::Up];
            let snake = Snake::from_directions(Pos { x, y: SPAWN_ROW }, Direction::Up, &body);
            proof {
                assert(body@ =~= seq![Direction::Up, Direction::Up]);
                assert(snake@ == spawn_snake(i as int));
            }
            snakes.insert(keys[i], snake);
            cons.insert(keys[i], ());
            proof {
                assert(keys@.subrange(0, i + 1) =~= keys@.subrange(0, i as int).push(keys@[i as int]));
                keys@.subrange(0, i as int).lemma_push_to_set_commute(keys@[i as int]);
                assert forall|j: int| 0 <= j < i + 1 implies (#[trigger] snakes@[keys@[j]])@ == spawn_snake(j) by {
                    if j < i {
                        assert(keys@[j] != keys@[i as int]);
                    }
                }
                assert(snakes@.dom() =~= keys@.subrange(0, i + 1).to_set());
                assert(cons@.dom() =~= keys@.subrange(0, i + 1).to_set());
            }
            i = i + 1;
        }
        assert(keys@.subrange(0, n as int) =~= keys@);
        let rx: i32 = if (n + 2 - n % 2) as i32 > MIN_RADIUS {
            (n + 2 - n % 2) as i32
        } else {
            MIN_RADIUS
        };
        let boundaries = Boundaries::from_radius(Pos { x: 0, y: 0 }, rx, MIN_RADIUS);
        let r = RunningLobbyState { snakes, foods: Foods::new(), boundaries, counter: 0, cons };
        proof {
            assert(r.snakes@.dom().subset_of(r.cons@.dom()));
        }
        r
    }
}

/// A game in progress.
#[derive(Debug)]
pub struct RunningLobbyState {
    pub snakes: ConMap<Snake>,
    pub foods: Foods,
    pub boundaries: Boundaries,
    pub counter: u32,
    /// Every player of the game, alive or not.
    pub cons: ConMap<()>,
}

/// The snakes of a map, in ascending key order.
pub open spec fn snapshot(m: ConMap<Snake>) -> Seq<SnakeView> {
    m.entries@.map_values(|e: (Con, Snake)| e.1@)
}

/// What moving the first `n` snakes of `snaps` yields, one after the other: each is checked
/// against all the others as they were before the tick, and eats from the foods left by
/// those before it. A dead snake keeps its cells.
pub struct PassOutcome {
    pub snakes: Seq<SnakeView>,
    pub results: Seq<AdvanceResult>,
    pub foods: Set<Pos>,
}

pub open spec fn run_pass(snaps: Seq<SnakeView>, b: Boundaries, foods: Set<Pos>, n: nat) -> PassOutcome
    decreases n,
{
    if n == 0 {
        PassOutcome { snakes: seq![], results: seq![], foods }
    } else {
        let prev = run_pass(snaps, b, foods, (n - 1) as nat);
        let s = snaps[n - 1];
        let res = s.advance_result(snaps.remove(n - 1), b);
        if res == AdvanceResult::Success {
            let ate = prev.foods.contains(s.next_head());
            PassOutcome {
                snakes: prev.snakes.push(SnakeView { cells: s.moved_cells(ate), direction: s.direction }),
                results: prev.results.push(res),
                foods: prev.foods.remove(s.next_head()),
            }
        } else {
            PassOutcome { snakes: prev.snakes.push(s), results: prev.results.push(res), foods: prev.foods }
        }
    }
}

/// The cells of the snakes among the first `n` that die in the pass.
pub open spec fn dead_cells(snaps: Seq<SnakeView>, b: Boundaries, foods: Set<Pos>, n: nat) -> Set<Pos>
    decreases n,
{
    if n == 0 {
        Set::empty()
    } else {
        let prev = dead_cells(snaps, b, foods, (n - 1) as nat);
        if run_pass(snaps, b, foods, n).results[n - 1] == AdvanceResult::Success {
            prev
        } else {
            prev.union(snaps[n - 1].cells.to_set())
        }
    }
}

/// Whether a refill stamps `f` at `(x, y)`: the foods are few and the figure fits there.
pub open spec fn refill_applies(foods: Set<Pos>, b: Boundaries, f: Figure, x: int, y: int) -> bool {
    &&& foods.len() < REFILL_THRESHOLD
    &&& b.min.x <= x < b.max.x - f.spec_x_dim()
    &&& b.min.y <= y < b.max.y - f.spec_y_dim()
}

pub open spec fn refilled(foods: Set<Pos>, b: Boundaries, f: Figure, x: int, y: int) -> Set<Pos> {
    if refill_applies(foods, b, f, x, y) {
        foods.union(stamp_cells(f, x, y, b))
    } else {
        foods
    }
}

/// Stamps `figure` at `(x, y)` when there are few foods and the figure fits there.
pub fn refill_with(foods: &mut Foods, boundaries: &Boundaries, figure: Figure, x: i32, y: i32)
    requires
        old(foods).wf(),
    ensures
        final(foods).wf(),
        final(foods)@ == refilled(old(foods)@, *boundaries, figure, x as int, y as int),
        figure.spec_x_dim() >= boundaries.max.x - boundaries.min.x ==> final(foods)@ == old(foods)@,
{
    let xd = figure.x_dim() as i64;
    let yd = figure.y_dim() as i64;
    if foods.count() < REFILL_THRESHOLD && boundaries.min.x as i64 <= x as i64 && (x as i64)
        < boundaries.max.x as i64 - xd && boundaries.min.y as i64 <= y as i64 && (y as i64)
        < boundaries.max.y as i64 - yd {
        foods.stamp(figure, x, y, boundaries);
    }
}

/// Where the corner of `f` lies when the field has room for it: a place where `f` fits.
pub open spec fn corner_drawn(b: Boundaries, f: Figure, x: int, y: int) -> bool {
    b.min.x < b.max.x - f.spec_x_dim() && b.min.y < b.max.y - f.spec_y_dim() ==> b.min.x <= x
        < b.max.x - f.spec_x_dim() && b.min.y <= y < b.max.y - f.spec_y_dim()
}

/// Stamps a random figure at a random place when there are few foods.
pub fn refill_foods(foods: &mut Foods, boundaries: &Boundaries)
    requires
        old(foods).wf(),
    ensures
        final(foods).wf(),
        exists|f: Figure, x: i32, y: i32|
            final(foods)@ == refilled(old(foods)@, *boundaries, f, x as int, y as int)
                && corner_drawn(*boundaries, f, x as int, y as int),
{
    let figures = Figure::all();
    let k = random_in(0, figures.len() as i32);
    let figure = figures[k as usize];
    let lo_x = boundaries.min.x as i64;
    let hi_x = boundaries.max.x as i64 - figure.x_dim() as i64;
    let lo_y = boundaries.min.y as i64;
    let hi_y = boundaries.max.y as i64 - figure.y_dim() as i64;
    if lo_x < hi_x && lo_y < hi_y {
        let x = random_in(lo_x as i32, hi_x as i32);
        let y = random_in(lo_y as i32, hi_y as i32);
        refill_with(foods, boundaries, figure, x, y);
        assert(foods@ == refilled(old(foods)@, *boundaries, figure, x as int, y as int) && corner_drawn(
            *boundaries,
            figure,
            x as int,
            y as int,
        ));
    } else {
        assert(final(foods)@ == refilled(old(foods)@, *boundaries, figure, lo_x as i32 as int, lo_y as i32 as int)
            && corner_drawn(*boundaries, figure, lo_x as i32 as int, lo_y as i32 as int));
    }
}

/// Copies of the snakes of `m`, in ascending key order.
pub fn snapshot_vec(m: &ConMap<Snake>) -> (r: Vec<Snake>)
    ensures
        views(r@) == snapshot(*m),
{
    let ghost snaps = snapshot(*m);
    let n = m.entries.len();
    let mut snap: Vec<Snake> = Vec::new();
    let mut i: usize = 0;
    while i < n
        invariant
            n == m.entries@.len(),
            i <= n,
            snaps == snapshot(*m),
            views(snap@) == snaps.subrange(0, i as int),
        decreases n - i,
    {
        let ghost s0 = snap@;
        snap.push(m.entries[i].1.duplicate());
        assert(views(snap@) =~= views(s0).push(snaps[i as int]));
        assert(views(snap@) =~= snaps.subrange(0, i + 1));
        i = i + 1;
    }
    assert(views(snap@) =~= snaps);
    snap
}

/// The list `snap` without its `i`-th snake.
pub fn others_of(snap: &Vec<Snake>, i: usize) -> (r: Vec<Snake>)
    requires
        i < snap@.len(),
    ensures
        views(r@) == views(snap@).remove(i as int),
{
    let mut r: Vec<Snake> = Vec::new();
    let mut j: usize = 0;
    while j < snap.len()
        invariant
            i < snap@.len(),
            j <= snap@.len(),
            j <= i ==> views(r@) == views(snap@).subrange(0, j as int),
            j > i ==> views(r@) == views(snap@).subrange(0, i as int) + views(snap@).subrange(
                i + 1,
                j as int,
            ),
        decreases snap@.len() - j,
    {
        if j != i {
            let ghost r0 = r@;
            r.push(snap[j].duplicate());
            proof {
                assert(views(r@) =~= views(r0).push(views(snap@)[j as int]));
                if j < i {
                    assert(views(r@) =~= views(snap@).subrange(0, j + 1));
                } else {
                    assert(views(r@) =~= views(snap@).subrange(0, i as int) + views(snap@).subrange(
                        i + 1,
                        j + 1,
                    ));
                }
            }
        } else {
            assert(views(snap@).subrange(i + 1, i + 1) =~= Seq::<SnakeView>::empty());
            assert(views(r@) =~= views(snap@).subrange(0, i as int) + views(snap@).subrange(
                i + 1,
                j + 1,
            ));
        }
        j = j + 1;
    }
    assert(views(r@) =~= views(snap@).remove(i as int));
    r
}

impl RunningLobbyState {
    /// `r` is the game laid out from the votes `p`: no foods, the counter at zero, every
    /// voter a player with the `i`-th snake of the layout (in ascending connection order),
    /// on the field for that many players.
    pub open spec fn laid_out(p: PrepLobbyState, r: RunningLobbyState) -> bool {
        &&& r.counter == 0
        &&& r.foods@ == Set::<Pos>::empty()
        &&& r.cons@.dom() == p.start_votes@.dom()
        &&& r.snakes@.dom() == p.start_votes@.dom()
        &&& forall|i: int|
            0 <= i < p.start_votes.key_seq().len() ==> (#[trigger] r.snakes@[p.start_votes.key_seq()[i]])@
                == spawn_snake(i)
        &&& r.boundaries == spawn_boundaries(p.start_votes@.len() as int)
    }

    /// `next` is `prev` after one tick: the counter one up, the snakes moved by one pass,
    /// and then a figure of food perhaps stamped.
    pub open spec fn ticked(prev: RunningLobbyState, next: RunningLobbyState) -> bool {
        &&& next.counter == prev.counter + 1
        &&& next.cons == prev.cons
        &&& next.boundaries == prev.boundaries
        &&& exists|foods: Set<Pos>, f: Figure, x: i32, y: i32|
            RunningLobbyState::passed(prev, next.snakes, foods) && next.foods@ == refilled(
                foods,
                prev.boundaries,
                f,
                x as int,
                y as int,
            )
    }

    /// `next` is `prev` with the snake of `con`, if alive, heading along `direction`
    /// unless that would reverse it; nothing else changes.
    pub open spec fn turned(prev: RunningLobbyState, next: RunningLobbyState, con: Con, direction: Direction) -> bool {
        &&& next.cons == prev.cons
        &&& next.foods == prev.foods
        &&& next.boundaries == prev.boundaries
        &&& next.counter == prev.counter
        &&& next.snakes@.dom() == prev.snakes@.dom()
        &&& forall|k: Con| #[trigger] prev.snakes@.contains_key(k) && k != con ==> next.snakes@[k] == prev.snakes@[k]
        &&& prev.snakes@.contains_key(con) ==> {
            let s = prev.snakes@[con]@;
            next.snakes@[con]@ == (if direction == s.direction.spec_opposite() {
                s
            } else {
                (SnakeView { cells: s.cells, direction })
            })
        }
    }

    pub open spec fn wf(&self) -> bool {
        &&& self.snakes.wf()
        &&& self.cons.wf()
        &&& self.foods.wf()
        &&& self.snakes@.dom().subset_of(self.cons@.dom())
        &&& forall|k: Con| #[trigger] self.snakes@.contains_key(k) ==> self.snakes@[k]@.wf()
    }

    /// `next` is `prev` after one pass over its snakes: the survivors moved, the dead ones
    /// removed and turned into food; nothing else changed.
    pub open spec fn passed(prev: RunningLobbyState, snakes: ConMap<Snake>, foods: Set<Pos>) -> bool {
        let snaps = snapshot(prev.snakes);
        let n = snaps.len();
        let out = run_pass(snaps, prev.boundaries, prev.foods@, n);
        let keys = prev.snakes.key_seq();
        &&& snakes@.dom().subset_of(prev.snakes@.dom())
        &&& forall|i: int|
            0 <= i < n ==> (#[trigger] out.results[i] == AdvanceResult::Success)
                == snakes@.contains_key(keys[i])
        &&& forall|i: int|
            0 <= i < n && #[trigger] out.results[i] == AdvanceResult::Success ==> snakes@[keys[i]]@
                == out.snakes[i]
        &&& foods == out.foods.union(dead_cells(snaps, prev.boundaries, prev.foods@, n))
    }

    /// Moves every snake once, in ascending connection order; then each snake that died
    /// leaves food on all its cells and is removed (its player stays in `cons`).
    pub fn step(&mut self)
        requires
            old(self).wf(),
        ensures
            final(self).wf(),
            RunningLobbyState::passed(*old(self), final(self).snakes, final(self).foods@),
            final(self).cons == old(self).cons,
            final(self).boundaries == old(self).boundaries,
            final(self).counter == old(self).counter,
    {
        let ghost snaps = snapshot(self.snakes);
        let ghost b = self.boundaries;
        let ghost f0 = self.foods@;
        let ghost keys = self.snakes.key_seq();
        let n = self.snakes.entries.len();
        let snap = snapshot_vec(&self.snakes);
        let mut next: ConMap<Snake> = ConMap::new();
        let mut trace = Foods::new();
        let mut i: usize = 0;
        assert(keys.subrange(0, 0).to_set() =~= Set::<Con>::empty());
        while i < n
            invariant
                n == snaps.len(),
                i <= n,
                views(snap@) == snaps,
                *self == (RunningLobbyState { foods: self.foods, ..*old(self) }),
                old(self).wf(),
                snaps == snapshot(old(self).snakes),
                keys == old(self).snakes.key_seq(),
                b == self.boundaries,
                self.foods.wf(),
                self.foods@ == run_pass(snaps, b, f0, i as nat).foods,
                run_pass(snaps, b, f0, i as nat).results.len() == i,
                run_pass(snaps, b, f0, i as nat).snakes.len() == i,
                trace.wf(),
                trace@ == dead_cells(snaps, b, f0, i as nat),
                next.wf(),
                next@.dom().subset_of(keys.subrange(0, i as int).to_set()),
                forall|j: int|
                    0 <= j < i ==> (#[trigger] run_pass(snaps, b, f0, i as nat).results[j]
                        == AdvanceResult::Success) == next@.contains_key(keys[j]),
                forall|j: int|
                    0 <= j < i && #[trigger] run_pass(snaps, b, f0, i as nat).results[j]
                        == AdvanceResult::Success ==> next@[keys[j]]@ == run_pass(
                        snaps,
                        b,
                        f0,
                        i as nat,
                    ).snakes[j],
                forall|k: Con| #[trigger] next@.contains_key(k) ==> next@[k]@.wf(),
            decreases n - i,
        {
            proof {
                old(self).snakes.lemma_index(i as int);
                assert(views(snap@)[i as int] == snap@[i as int]@);
                assert(snaps[i as int] == old(self).snakes.entries@[i as int].1@);
            }
            let mut s = snap[i].duplicate();
            let others = others_of(&snap, i);
            let r = s.advance(&mut self.foods, &others, &self.boundaries);
            let key = self.snakes.entries[i].0;
            let ghost prev_next = next@;
            if r.is_death() {
                leave_food_trace(&s, &mut trace);
            } else {
                next.insert(key, s);
            }
            proof {
                let p0 = run_pass(snaps, b, f0, i as nat);
                let p1 = run_pass(snaps, b, f0, (i + 1) as nat);
                assert(p1.results[i as int] == r);
                assert(keys[i as int] == key);
                assert forall|j: int| 0 <= j < i implies keys[j] != key by {
                    assert(old(self).snakes.entries@[j].0 < old(self).snakes.entries@[i as int].0);
                }
                assert forall|j: int| 0 <= j < i implies p1.results[j] == p0.results[j]
                    && p1.snakes[j] == p0.snakes[j] by {}
                assert(keys.subrange(0, i + 1) =~= keys.subrange(0, i as int).push(key));
                keys.subrange(0, i as int).lemma_push_to_set_commute(key);
                assert(!keys.subrange(0, i as int).to_set().contains(key)) by {
                    if keys.subrange(0, i as int).to_set().contains(key) {
                        let j = choose|j: int| 0 <= j < i && keys.subrange(0, i as int)[j] == key;
                        assert(keys[j] == key);
                    }
                }
                assert(forall|j: int| 0 <= j < i ==> prev_next.contains_key(keys[j]) == next@.contains_key(keys[j]));
            }
            i = i + 1;
        }
        let tv = trace.to_vec();
        self.foods.extend(&tv);
        self.snakes = next;
        proof {
            assert(keys.subrange(0, n as int) =~= keys);
            old(self).snakes.lemma_dom();
        }
    }

    /// One tick: the counter grows by one, every snake moves (see `step`), and then a
    /// random figure of food may be stamped.
    pub fn advance(&mut self)
        requires
            old(self).wf(),
            old(self).counter < u32::MAX,
        ensures
            final(self).wf(),
            RunningLobbyState::ticked(*old(self), *final(self)),
    {
        self.counter = self.counter + 1;
        self.step();
        refill_foods(&mut self.foods, &self.boundaries);
    }

    /// Turns the snake of `con`, if it is alive and the turn is not a reversal.
    pub fn set_con_direction(&mut self, con: Con, direction: Direction)
        requires
            old(self).wf(),
        ensures
            final(self).wf(),
            RunningLobbyState::turned(*old(self), *final(self), con, direction),
    {
        match self.snakes.remove(con) {
            Some(mut s) => {
                let _ = s.set_direction(direction);
                self.snakes.insert(con, s);
                proof {
                    assert(self.snakes@.dom() =~= old(self).snakes@.dom());
                }
            },
            None => {
                assert(self.snakes@ =~= old(self).snakes@);
            },
        }
    }

    /// A player leaves: their snake, if alive, turns into food and goes away.
    pub fn remove_con(&mut self, con: &Con)
        requires
            old(self).wf(),
        ensures
            final(self).wf(),
            final(self).cons@ == old(self).cons@.remove(*con),
            final(self).snakes@ == old(self).snakes@.remove(*con),
            old(self).snakes@.contains_key(*con) ==> final(self).foods@ == old(self).foods@.union(
                old(self).snakes@[*con]@.cells.to_set(),
            ),
            !old(self).snakes@.contains_key(*con) ==> final(self).foods@ == old(self).foods@,
            final(self).boundaries == old(self).boundaries,
            final(self).counter == old(self).counter,
    {
        match self.snakes.get(*con) {
            Some(snake) => {
                leave_food_trace(snake, &mut self.foods);
            },
            None => {},
        }
        self.cons.remove(*con);
        self.snakes.remove(*con);
    }
}

/// The phase of a lobby.
#[derive(Debug)]
pub enum LobbyState {
    Prep(PrepLobbyState),
    Running(RunningLobbyState),
    /// The game is over and the lobby awaits removal.
    Terminated,
}

impl LobbyState {
    pub fn is_prep(&self) -> (r: bool)
        ensures
            r == self is Prep,
    {
        match self {
            LobbyState::Prep(_) => true,
            _ => false,
        }
    }

    pub open spec fn wf(&self) -> bool {
        match self {
            LobbyState::Prep(s) => s.wf(),
            LobbyState::Running(s) => s.wf(),
            LobbyState::Terminated => true,
        }
    }
}

/// A figure as wide as the field never fits in it, so a refill with it adds nothing.
pub proof fn lemma_full_width_figure_adds_nothing(foods: Set<Pos>, b: Boundaries, f: Figure, x: int, y: int)
    requires
        f.spec_x_dim() == b.max.x - b.min.x,
    ensures
        refilled(foods, b, f, x, y) == foods,
{
}

/// Moving more snakes does not change what became of the first ones.
proof fn lemma_run_pass_prefix(snaps: Seq<SnakeView>, b: Boundaries, foods: Set<Pos>, m: nat, n: nat, i: int)
    requires
        0 <= i < m <= n,
    ensures
        run_pass(snaps, b, foods, n).results[i] == run_pass(snaps, b, foods, m).results[i],
        run_pass(snaps, b, foods, n).results.len() == n,
    decreases n,
{
    lemma_run_pass_len(snaps, b, foods, n);
    if m < n {
        lemma_run_pass_len(snaps, b, foods, (n - 1) as nat);
        lemma_run_pass_prefix(snaps, b, foods, m, (n - 1) as nat, i);
    }
}

proof fn lemma_run_pass_len(snaps: Seq<SnakeView>, b: Boundaries, foods: Set<Pos>, n: nat)
    ensures
        run_pass(snaps, b, foods, n).results.len() == n,
    decreases n,
{
    if n > 0 {
        lemma_run_pass_len(snaps, b, foods, (n - 1) as nat);
    }
}

/// The dead cells of a pass include those of every snake that died in it.
proof fn lemma_dead_cells_cover(snaps: Seq<SnakeView>, b: Boundaries, foods: Set<Pos>, n: nat, i: int)
    requires
        0 <= i < n,
        run_pass(snaps, b, foods, n).results[i] != AdvanceResult::Success,
    ensures
        snaps[i].cells.to_set().subset_of(dead_cells(snaps, b, foods, n)),
    decreases n,
{
    lemma_run_pass_prefix(snaps, b, foods, (i + 1) as nat, n, i);
    if i < n - 1 {
        lemma_run_pass_prefix(snaps, b, foods, (i + 1) as nat, (n - 1) as nat, i);
        lemma_dead_cells_cover(snaps, b, foods, (n - 1) as nat, i);
    }
}

/// Food-trace: after a tick, the foods hold every cell that a snake which died in that
/// tick had.
pub proof fn lemma_food_trace(prev: RunningLobbyState, next: RunningLobbyState, i: int)
    requires
        prev.wf(),
        RunningLobbyState::ticked(prev, next),
        0 <= i < prev.snakes.entries@.len(),
        run_pass(snapshot(prev.snakes), prev.boundaries, prev.foods@, prev.snakes.entries@.len() as nat).results[i]
            != AdvanceResult::Success,
    ensures
        prev.snakes.entries@[i].1@.cells.to_set().subset_of(next.foods@),
{
    let (foods, f, x, y) = choose|foods: Set<Pos>, f: Figure, x: i32, y: i32|
        RunningLobbyState::passed(prev, next.snakes, foods) && next.foods@ == refilled(
            foods,
            prev.boundaries,
            f,
            x as int,
            y as int,
        );
    let snaps = snapshot(prev.snakes);
    lemma_dead_cells_cover(snaps, prev.boundaries, prev.foods@, snaps.len(), i);
    assert(snaps[i] == prev.snakes.entries@[i].1@);
}

} // verus!
