use vstd::prelude::*;

verus! {

/// Whether an integer is representable as an `i32`.
pub open spec fn fits_i32(v: int) -> bool {
    i32::MIN <= v <= i32::MAX
}

/// A cell of the playing field.
#[derive(Clone, Copy, Debug, PartialEq, Eq, Structural, Hash)]
pub struct Pos {
    pub x: i32,
    pub y: i32,
}

/// One of the four ways a snake can head. `Up` decreases `y`.
#[derive(Clone, Copy, Debug, PartialEq, Eq, Structural, Hash)]
pub enum Direction {
    Up,
    Down,
    Left,
    Right,
}

impl Direction {
    pub open spec fn spec_opposite(self) -> Direction {
        match self {
            Direction::Up => Direction::Down,
            Direction::Down => Direction::Up,
            Direction::Left => Direction::Right,
            Direction::Right => Direction::Left,
        }
    }

    /// Horizontal component of one step in this direction.
    pub open spec fn dx(self) -> int {
        match self {
            Direction::Left => -1,
            Direction::Right => 1,
            _ => 0,
        }
    }

    /// Vertical component of one step in this direction.
    pub open spec fn dy(self) -> int {
        match self {
            Direction::Up => -1,
            Direction::Down => 1,
            _ => 0,
        }
    }

    pub fn opposite(&self) -> (r: Direction)
        ensures
            r == self.spec_opposite(),
    {
        match self {
            Direction::Up => Direction::Down,
            Direction::Down => Direction::Up,
            Direction::Left => Direction::Right,
            Direction::Right => Direction::Left,
        }
    }

    pub fn is_opposite(&self, other: &Direction) -> (r: bool)
        ensures
            r == (*other == self.spec_opposite()),
    {
        self.opposite() == *other
    }
}

impl Pos {
    pub fn new(x: i32, y: i32) -> (r: Pos)
        ensures
            r == (Pos { x, y }),
    {
        Pos { x, y }
    }

    /// The cell one step against `d` (where the body trails behind a head moving along `d`).
    pub open spec fn spec_behind(self, d: Direction) -> Pos {
        Pos { x: (self.x - d.dx()) as i32, y: (self.y - d.dy()) as i32 }
    }
}

/// Where a position lies with respect to the playing field.
#[derive(Clone, Copy, Debug, PartialEq, Eq, Structural, Hash)]
pub enum Relation {
    Inside,
    OnEdge,
    Outside,
}

impl Relation {
    pub fn is_inside(&self) -> (r: bool)
        ensures
            r == (*self == Relation::Inside),
    {
        match self {
            Relation::Inside => true,
            _ => false,
        }
    }
}

/// The half-open rectangle `[min, max)`; a position is inside when strictly between.
#[derive(Clone, Copy, Debug, PartialEq, Eq, Structural, Hash)]
pub struct Boundaries {
    pub min: Pos,
    pub max: Pos,
}

impl Boundaries {
    pub open spec fn spec_relation_at(self, x: int, y: int) -> Relation {
        if self.min.x < x < self.max.x && self.min.y < y < self.max.y {
            Relation::Inside
        } else if self.min.x <= x < self.max.x && self.min.y <= y < self.max.y {
            Relation::OnEdge
        } else {
            Relation::Outside
        }
    }

    pub open spec fn spec_relation(self, p: Pos) -> Relation {
        self.spec_relation_at(p.x as int, p.y as int)
    }

    pub fn relation(&self, p: &Pos) -> (r: Relation)
        ensures
            r == self.spec_relation(*p),
    {
        if self.min.x < p.x && p.x < self.max.x && self.min.y < p.y && p.y < self.max.y {
            Relation::Inside
        } else if self.min.x <= p.x && p.x < self.max.x && self.min.y <= p.y && p.y < self.max.y {
            Relation::OnEdge
        } else {
            Relation::Outside
        }
    }

    /// The rectangle reaching `rx` cells left and right and `ry` cells up and down of `center`.
    pub fn from_radius(center: Pos, rx: i32, ry: i32) -> (r: Boundaries)
        requires
            0 <= rx,
            0 <= ry,
            fits_i32(center.x - rx),
            fits_i32(center.x + rx),
            fits_i32(center.y - ry),
            fits_i32(center.y + ry),
        ensures
            r.min == (Pos { x: (center.x - rx) as i32, y: (center.y - ry) as i32 }),
            r.max == (Pos { x: (center.x + rx) as i32, y: (center.y + ry) as i32 }),
    {
        Boundaries {
            min: Pos { x: center.x - rx, y: center.y - ry },
            max: Pos { x: center.x + rx, y: center.y + ry },
        }
    }
}

/// The cells of a body that starts at `origin` and, for each direction, extends one cell
/// against it.
pub open spec fn trail(origin: Pos, ds: Seq<Direction>) -> Seq<Pos>
    decreases ds.len(),
{
    if ds.len() == 0 {
        seq![origin]
    } else {
        let prev = trail(origin, ds.drop_last());
        prev.push(prev.last().spec_behind(ds.last()))
    }
}

/// A snake's body: its cells, head first.
#[derive(Debug)]
pub struct Sections {
    pub cells: Vec<Pos>,
}

impl View for Sections {
    type V = Seq<Pos>;

    open spec fn view(&self) -> Seq<Pos> {
        self.cells@
    }
}

/// A copy of a list of cells.
pub fn copy_cells(v: &Vec<Pos>) -> (r: Vec<Pos>)
    ensures
        r@ == v@,
{
    let mut r: Vec<Pos> = Vec::new();
    let mut i: usize = 0;
    while i < v.len()
        invariant
            i <= v.len(),
            r@ == v@.subrange(0, i as int),
        decreases v.len() - i,
    {
        r.push(v[i]);
        i = i + 1;
    }
    assert(r@ =~= v@);
    r
}

impl Sections {
    /// Builds a body from its head at `origin`: each direction adds one cell behind the last.
    pub fn from_directions(origin: Pos, directions: &Vec<Direction>) -> (r: Sections)
        requires
            fits_i32(origin.x - directions@.len()),
            fits_i32(origin.x + directions@.len()),
            fits_i32(origin.y - directions@.len()),
            fits_i32(origin.y + directions@.len()),
        ensures
            r@ == trail(origin, directions@),
    {
        let mut cells: Vec<Pos> = Vec::new();
        cells.push(origin);
        let mut cur = origin;
        let mut i: usize = 0;
        assert(directions@.subrange(0, 0) =~= Seq::<Direction>::empty());
        while i < directions.len()
            invariant
                i <= directions@.len(),
                cells@ == trail(origin, directions@.subrange(0, i as int)),
                cur == cells@.last(),
                origin.x - i <= cur.x <= origin.x + i,
                origin.y - i <= cur.y <= origin.y + i,
                fits_i32(origin.x - directions@.len()),
                fits_i32(origin.x + directions@.len()),
                fits_i32(origin.y - directions@.len()),
                fits_i32(origin.y + directions@.len()),
            decreases directions@.len() - i,
        {
            let d = directions[i];
            let next = match d {
                Direction::Up => Pos { x: cur.x, y: cur.y + 1 },
                Direction::Down => Pos { x: cur.x, y: cur.y - 1 },
                Direction::Left => Pos { x: cur.x + 1, y: cur.y },
                Direction::Right => Pos { x: cur.x - 1, y: cur.y },
            };
            assert(next == cur.spec_behind(d));
            cells.push(next);
            cur = next;
            assert(directions@.subrange(0, i + 1).drop_last() =~= directions@.subrange(0, i as int));
            i = i + 1;
        }
        assert(directions@.subrange(0, i as int) =~= directions@);
        Sections { cells }
    }

    /// Every occupied cell, head first.
    pub fn iter_vertices(&self) -> (r: Vec<Pos>)
        ensures
            r@ == self@,
    {
        copy_cells(&self.cells)
    }
}

/// The outcome of moving a snake by one cell.
#[derive(Clone, Copy, Debug, PartialEq, Eq, Structural, Hash)]
pub enum AdvanceResult {
    Success,
    BitYaSelf,
    BitSomeone,
    OutOfBounds,
}

impl AdvanceResult {
    pub open spec fn spec_is_death(self) -> bool {
        self != AdvanceResult::Success
    }

    pub fn is_death(&self) -> (r: bool)
        ensures
            r == self.spec_is_death(),
    {
        match self {
            AdvanceResult::Success => false,
            _ => true,
        }
    }
}

/// What a snake is, seen by the proofs: its cells (head first) and its heading.
pub struct SnakeView {
    pub cells: Seq<Pos>,
    pub direction: Direction,
}

#[derive(Debug)]
pub struct Snake {
    pub sections: Sections,
    pub direction: Direction,
}

/// Whether `p` is a cell of one of `others`.
pub open spec fn occupied_by_any(others: Seq<SnakeView>, p: Pos) -> bool {
    exists|k: int| 0 <= k < others.len() && #[trigger] others[k].cells.contains(p)
}

impl SnakeView {
    pub open spec fn wf(self) -> bool {
        self.cells.len() > 0
    }

    pub open spec fn head(self) -> Pos {
        self.cells[0]
    }

    /// The coordinates the head moves to on the next tick.
    pub open spec fn next_x(self) -> int {
        self.head().x + self.direction.dx()
    }

    pub open spec fn next_y(self) -> int {
        self.head().y + self.direction.dy()
    }

    pub open spec fn next_head(self) -> Pos {
        Pos { x: self.next_x() as i32, y: self.next_y() as i32 }
    }

    /// The outcome of one tick, checked in order: bounds, own body but the tail tip,
    /// other snakes.
    pub open spec fn advance_result(self, others: Seq<SnakeView>, b: Boundaries) -> AdvanceResult {
        if b.spec_relation_at(self.next_x(), self.next_y()) == Relation::Outside {
            AdvanceResult::OutOfBounds
        } else if self.cells.drop_last().contains(self.next_head()) {
            AdvanceResult::BitYaSelf
        } else if occupied_by_any(others, self.next_head()) {
            AdvanceResult::BitSomeone
        } else {
            AdvanceResult::Success
        }
    }

    /// The cells after a successful move: the new head is prepended, and the tail tip is
    /// dropped unless food was eaten.
    pub open spec fn moved_cells(self, ate: bool) -> Seq<Pos> {
        if ate {
            seq![self.next_head()] + self.cells
        } else {
            seq![self.next_head()] + self.cells.drop_last()
        }
    }
}

impl View for Snake {
    type V = SnakeView;

    open spec fn view(&self) -> SnakeView {
        SnakeView { cells: self.sections@, direction: self.direction }
    }
}

/// The views of a list of snakes.
pub open spec fn views(s: Seq<Snake>) -> Seq<SnakeView> {
    s.map_values(|x: Snake| x@)
}

impl Snake {
    /// A snake whose head is at `origin`, heading along `direction`, with one body cell
    /// behind it per entry of `body`.
    pub fn from_directions(origin: Pos, direction: Direction, body: &Vec<Direction>) -> (r: Snake)
        requires
            fits_i32(origin.x - body@.len()),
            fits_i32(origin.x + body@.len()),
            fits_i32(origin.y - body@.len()),
            fits_i32(origin.y + body@.len()),
        ensures
            r@.cells == trail(origin, body@),
            r@.direction == direction,
    {
        Snake { sections: Sections::from_directions(origin, body), direction }
    }

    /// An equal snake.
    pub fn duplicate(&self) -> (r: Snake)
        ensures
            r@ == self@,
    {
        Snake { sections: Sections { cells: copy_cells(&self.sections.cells) }, direction: self.direction }
    }

    pub fn head(&self) -> (r: Pos)
        requires
            self@.wf(),
        ensures
            r == self@.head(),
    {
        self.sections.cells[0]
    }

    /// Every occupied cell, head first.
    pub fn iter_vertices(&self) -> (r: Vec<Pos>)
        ensures
            r@ == self@.cells,
    {
        self.sections.iter_vertices()
    }

    /// Turns the snake, unless `direction` would reverse it.
    pub fn set_direction(&mut self, direction: Direction) -> (r: Result<(), ()>)
        ensures
            direction == old(self)@.direction.spec_opposite() ==> r is Err && final(self)@ == old(self)@,
            direction != old(self)@.direction.spec_opposite() ==> r is Ok && final(self)@ == (
            SnakeView { cells: old(self)@.cells, direction }),
    {
        if self.direction.is_opposite(&direction) {
            Err(())
        } else {
            self.direction = direction;
            Ok(())
        }
    }

    /// Whether `p` is one of the cells but the tail tip.
    fn body_contains(&self, p: &Pos) -> (r: bool)
        requires
            self@.wf(),
        ensures
            r == self@.cells.drop_last().contains(*p),
    {
        let n = self.sections.cells.len();
        if n == 0 {
            return false;
        }
        let mut i: usize = 0;
        while i < n - 1
            invariant
                n == self@.cells.len(),
                n > 0,
                i <= n - 1,
                forall|k: int| 0 <= k < i ==> self@.cells[k] != *p,
            decreases n - 1 - i,
        {
            if self.sections.cells[i] == *p {
                assert(self@.cells.drop_last()[i as int] == *p);
                return true;
            }
            i = i + 1;
        }
        assert(!self@.cells.drop_last().contains(*p)) by {
            assert forall|k: int| 0 <= k < self@.cells.drop_last().len() implies
                self@.cells.drop_last()[k] != *p by {
                assert(self@.cells.drop_last()[k] == self@.cells[k]);
            }
        }
        false
    }

    /// Whether `p` is one of the cells.
    pub fn contains(&self, p: &Pos) -> (r: bool)
        ensures
            r == self@.cells.contains(*p),
    {
        let n = self.sections.cells.len();
        let mut i: usize = 0;
        while i < n
            invariant
                n == self@.cells.len(),
                i <= n,
                forall|k: int| 0 <= k < i ==> self@.cells[k] != *p,
            decreases n - i,
        {
            if self.sections.cells[i] == *p {
                return true;
            }
            i = i + 1;
        }
        false
    }

    /// Moves the snake by one cell along its direction, eating the food it lands on.
    ///
    /// Stepping outside `boundaries`, onto its own body (but the tail tip, which vacates),
    /// or onto any of `others` kills it: then neither the snake nor the foods change.
    pub fn advance(&mut self, foods: &mut Foods, others: &Vec<Snake>, boundaries: &Boundaries) -> (r:
        AdvanceResult)
        requires
            old(self)@.wf(),
            old(foods).wf(),
        ensures
            r == old(self)@.advance_result(views(others@), *boundaries),
            final(foods).wf(),
            r.spec_is_death() ==> final(self)@ == old(self)@ && final(foods)@ == old(foods)@,
            r == AdvanceResult::Success ==> {
                let ate = old(foods)@.contains(old(self)@.next_head());
                &&& final(self)@.cells == old(self)@.moved_cells(ate)
                &&& final(self)@.direction == old(self)@.direction
                &&& final(foods)@ == old(foods)@.remove(old(self)@.next_head())
            },
    {
        let ghost s0 = self@;
        let head = self.head();
        let nx: i64 = match self.direction {
            Direction::Left => head.x as i64 - 1,
            Direction::Right => head.x as i64 + 1,
            _ => head.x as i64,
        };
        let ny: i64 = match self.direction {
            Direction::Up => head.y as i64 - 1,
            Direction::Down => head.y as i64 + 1,
            _ => head.y as i64,
        };
        assert(nx == s0.next_x() && ny == s0.next_y());
        if !(boundaries.min.x as i64 <= nx && nx < boundaries.max.x as i64 && boundaries.min.y as i64
            <= ny && ny < boundaries.max.y as i64) {
            return AdvanceResult::OutOfBounds;
        }
        let p = Pos { x: nx as i32, y: ny as i32 };
        assert(p == s0.next_head());
        if self.body_contains(&p) {
            return AdvanceResult::BitYaSelf;
        }
        let mut k: usize = 0;
        while k < others.len()
            invariant
                k <= others@.len(),
                forall|j: int| 0 <= j < k ==> !(#[trigger] others@[j])@.cells.contains(p),
                *foods == *old(foods),
                foods.wf(),
                self@ == s0,
                p == s0.next_head(),
                !s0.cells.drop_last().contains(p),
                boundaries.spec_relation_at(s0.next_x(), s0.next_y()) != Relation::Outside,
            decreases others@.len() - k,
        {
            if others[k].contains(&p) {
                assert(views(others@)[k as int].cells.contains(p));
                return AdvanceResult::BitSomeone;
            }
            k = k + 1;
        }
        assert(!occupied_by_any(views(others@), p)) by {
            if occupied_by_any(views(others@), p) {
                let j = choose|j: int|
                    0 <= j < views(others@).len() && #[trigger] views(others@)[j].cells.contains(p);
                assert(others@[j]@.cells.contains(p));
            }
        }
        let ate = foods.contains(&p);
        if ate {
            foods.remove(&p);
        } else {
            self.sections.cells.pop();
        }
        self.sections.cells.insert(0, p);
        proof {
            if ate {
                assert(self@.cells =~= s0.moved_cells(true));
                assert(old(foods)@.remove(p) == final(foods)@);
            } else {
                assert(self@.cells =~= s0.moved_cells(false));
                assert(old(foods)@.remove(p) =~= old(foods)@);
            }
        }
        AdvanceResult::Success
    }
}

/// A set of food cells, held without repetition.
#[derive(Debug)]
pub struct Foods {
    pub items: Vec<Pos>,
}

impl View for Foods {
    type V = Set<Pos>;

    open spec fn view(&self) -> Set<Pos> {
        self.items@.to_set()
    }
}

impl Foods {
    pub open spec fn wf(&self) -> bool {
        self.items@.no_duplicates()
    }

    pub fn new() -> (r: Foods)
        ensures
            r.wf(),
            r@ == Set::<Pos>::empty(),
    {
        let r = Foods { items: Vec::new() };
        assert(r@ =~= Set::<Pos>::empty());
        r
    }

    fn index_of(&self, p: &Pos) -> (r: Option<usize>)
        ensures
            r is None ==> !self.items@.contains(*p),
            r matches Some(i) ==> i < self.items@.len() && self.items@[i as int] == *p,
    {
        let mut i: usize = 0;
        while i < self.items.len()
            invariant
                i <= self.items@.len(),
                forall|k: int| 0 <= k < i ==> self.items@[k] != *p,
            decreases self.items@.len() - i,
        {
            if self.items[i] == *p {
                return Some(i);
            }
            i = i + 1;
        }
        None
    }

    pub fn contains(&self, p: &Pos) -> (r: bool)
        ensures
            r == self@.contains(*p),
    {
        match self.index_of(p) {
            Some(_) => true,
            None => false,
        }
    }

    pub fn insert(&mut self, p: Pos)
        requires
            old(self).wf(),
        ensures
            final(self).wf(),
            final(self)@ == old(self)@.insert(p),
    {
        match self.index_of(&p) {
            Some(_) => {
                assert(old(self)@.insert(p) =~= old(self)@);
            },
            None => {
                self.items.push(p);
                assert(self@ =~= old(self)@.insert(p)) by {
                    assert(self.items@ =~= old(self).items@.push(p));
                    old(self).items@.lemma_push_to_set_commute(p);
                }
            },
        }
    }

    pub fn remove(&mut self, p: &Pos)
        requires
            old(self).wf(),
        ensures
            final(self).wf(),
            final(self)@ == old(self)@.remove(*p),
    {
        match self.index_of(p) {
            Some(i) => {
                let ghost s = self.items@;
                self.items.remove(i);
                assert(self.items@ =~= s.remove(i as int));
                assert(self@ =~= old(self)@.remove(*p)) by {
                    assert forall|q: Pos| self@.contains(q) <==> old(self)@.remove(*p).contains(q) by {
                        if self@.contains(q) {
                            let k = choose|k: int| 0 <= k < self.items@.len() && self.items@[k] == q;
                            if k < i {
                                assert(s[k] == q);
                            } else {
                                assert(s[k + 1] == q);
                            }
                        }
                        if old(self)@.remove(*p).contains(q) {
                            let k = choose|k: int| 0 <= k < s.len() && s[k] == q;
                            assert(k != i);
                            if k < i {
                                assert(self.items@[k] == q);
                            } else {
                                assert(self.items@[k - 1] == q);
                            }
                        }
                    }
                }
            },
            None => {
                assert(old(self)@.remove(*p) =~= old(self)@);
            },
        }
    }

    /// The number of foods.
    pub fn count(&self) -> (r: usize)
        requires
            self.wf(),
        ensures
            r == self@.len(),
    {
        proof {
            self.items@.unique_seq_to_set();
        }
        self.items.len()
    }

    /// Every food cell.
    pub fn to_vec(&self) -> (r: Vec<Pos>)
        requires
            self.wf(),
        ensures
            r@.to_set() == self@,
            r@.no_duplicates(),
    {
        copy_cells(&self.items)
    }

    /// Adds every cell of `cells`.
    pub fn extend(&mut self, cells: &Vec<Pos>)
        requires
            old(self).wf(),
        ensures
            final(self).wf(),
            final(self)@ == old(self)@.union(cells@.to_set()),
    {
        let mut i: usize = 0;
        while i < cells.len()
            invariant
                i <= cells@.len(),
                self.wf(),
                self@ == old(self)@.union(cells@.subrange(0, i as int).to_set()),
            decreases cells@.len() - i,
        {
            self.insert(cells[i]);
            proof {
                let a = cells@.subrange(0, i as int);
                assert(cells@.subrange(0, i + 1) =~= a.push(cells@[i as int]));
                a.lemma_push_to_set_commute(cells@[i as int]);
                assert(self@ =~= old(self)@.union(cells@.subrange(0, i + 1).to_set()));
            }
            i = i + 1;
        }
        assert(cells@.subrange(0, i as int) =~= cells@);
    }
}

/// Turns every cell of a dead snake into food.
pub fn leave_food_trace(snake: &Snake, foods: &mut Foods)
    requires
        old(foods).wf(),
    ensures
        final(foods).wf(),
        final(foods)@ == old(foods)@.union(snake@.cells.to_set()),
{
    let cells = snake.iter_vertices();
    foods.extend(&cells);
}

/// A food cluster pattern, stamped onto the field with its top left corner at a position.
#[derive(Clone, Copy, Debug, PartialEq, Eq, Structural, Hash)]
pub enum Figure {
    Dot,
    LineH,
    LineV,
    Block,
    Cross,
}

impl Figure {
    pub open spec fn spec_x_dim(self) -> int {
        match self {
            Figure::Dot => 1,
            Figure::LineH => 3,
            Figure::LineV => 1,
            Figure::Block => 2,
            Figure::Cross => 3,
        }
    }

    pub open spec fn spec_y_dim(self) -> int {
        match self {
            Figure::Dot => 1,
            Figure::LineH => 1,
            Figure::LineV => 3,
            Figure::Block => 2,
            Figure::Cross => 3,
        }
    }

    /// Whether the pattern holds food at column `j`, row `i`.
    pub open spec fn spec_cell(self, j: int, i: int) -> bool {
        &&& 0 <= j < self.spec_x_dim()
        &&& 0 <= i < self.spec_y_dim()
        &&& match self {
            Figure::Cross => j == 1 || i == 1,
            _ => true,
        }
    }

    /// The set of all figures, in a fixed order.
    pub open spec fn spec_all() -> Seq<Figure> {
        seq![Figure::Dot, Figure::LineH, Figure::LineV, Figure::Block, Figure::Cross]
    }

    pub fn all() -> (r: Vec<Figure>)
        ensures
            r@ == Figure::spec_all(),
    {
        let r = vec![Figure::Dot, Figure::LineH, Figure::LineV, Figure::Block, Figure::Cross];
        assert(r@ =~= Figure::spec_all());
        r
    }

    pub fn x_dim(&self) -> (r: i32)
        ensures
            r == self.spec_x_dim(),
    {
        match self {
            Figure::Dot => 1,
            Figure::LineH => 3,
            Figure::LineV => 1,
            Figure::Block => 2,
            Figure::Cross => 3,
        }
    }

    pub fn y_dim(&self) -> (r: i32)
        ensures
            r == self.spec_y_dim(),
    {
        match self {
            Figure::Dot => 1,
            Figure::LineH => 1,
            Figure::LineV => 3,
            Figure::Block => 2,
            Figure::Cross => 3,
        }
    }

    pub fn is_food(&self, j: i32, i: i32) -> (r: bool)
        ensures
            r == self.spec_cell(j as int, i as int),
    {
        if j < 0 || j >= self.x_dim() || i < 0 || i >= self.y_dim() {
            false
        } else {
            match self {
                Figure::Cross => j == 1 || i == 1,
                _ => true,
            }
        }
    }
}

/// The foods that stamping `f` at `(x, y)` adds: its cells strictly inside `b`.
pub open spec fn stamp_cells(f: Figure, x: int, y: int, b: Boundaries) -> Set<Pos> {
    Set::new(|p: Pos| f.spec_cell(p.x - x, p.y - y) && b.spec_relation(p) == Relation::Inside)
}

/// The part of `stamp_cells` in rows before `i`, and in row `i` before column `j`.
pub open spec fn stamp_prefix(f: Figure, x: int, y: int, b: Boundaries, i: int, j: int) -> Set<Pos> {
    Set::new(
        |p: Pos|
            f.spec_cell(p.x - x, p.y - y) && b.spec_relation(p) == Relation::Inside && (p.y - y < i
                || (p.y - y == i && p.x - x < j)),
    )
}

impl Foods {
    /// Stamps `figure` with its top left corner at `(x, y)`, keeping only the cells strictly
    /// inside `boundaries`.
    pub fn stamp(&mut self, figure: Figure, x: i32, y: i32, boundaries: &Boundaries)
        requires
            old(self).wf(),
            fits_i32(x + figure.spec_x_dim()),
            fits_i32(y + figure.spec_y_dim()),
        ensures
            final(self).wf(),
            final(self)@ == old(self)@.union(stamp_cells(figure, x as int, y as int, *boundaries)),
    {
        let ghost b = *boundaries;
        let xd = figure.x_dim();
        let yd = figure.y_dim();
        let mut i: i32 = 0;
        assert(stamp_prefix(figure, x as int, y as int, b, 0, 0) =~= Set::<Pos>::empty());
        assert(old(self)@.union(Set::<Pos>::empty()) =~= old(self)@);
        while i < yd
            invariant
                0 <= i <= yd,
                xd == figure.spec_x_dim(),
                yd == figure.spec_y_dim(),
                fits_i32(x + xd),
                fits_i32(y + yd),
                self.wf(),
                b == *boundaries,
                self@ == old(self)@.union(stamp_prefix(figure, x as int, y as int, b, i as int, 0)),
            decreases yd - i,
        {
            let mut j: i32 = 0;
            while j < xd
                invariant
                    0 <= i < yd,
                    0 <= j <= xd,
                    xd == figure.spec_x_dim(),
                    yd == figure.spec_y_dim(),
                    fits_i32(x + xd),
                    fits_i32(y + yd),
                    self.wf(),
                    b == *boundaries,
                    self@ == old(self)@.union(
                        stamp_prefix(figure, x as int, y as int, b, i as int, j as int),
                    ),
                decreases xd - j,
            {
                let p = Pos { x: x + j, y: y + i };
                let keep = figure.is_food(j, i) && boundaries.relation(&p).is_inside();
                if keep {
                    self.insert(p);
                }
                assert(self@ =~= old(self)@.union(
                    stamp_prefix(figure, x as int, y as int, b, i as int, j + 1),
                ));
                j = j + 1;
            }
            assert(stamp_prefix(figure, x as int, y as int, b, i as int, xd as int) =~= stamp_prefix(
                figure,
                x as int,
                y as int,
                b,
                i + 1,
                0,
            ));
            i = i + 1;
        }
        assert(stamp_prefix(figure, x as int, y as int, b, yd as int, 0) =~= stamp_cells(
            figure,
            x as int,
            y as int,
            b,
        ));
    }
}

/// A head stepping onto the right edge's column, `max.x`, leaves the field.
pub proof fn lemma_right_edge_is_out(s: SnakeView, others: Seq<SnakeView>, b: Boundaries)
    requires
        s.wf(),
        s.next_x() == b.max.x,
    ensures
        s.advance_result(others, b) == AdvanceResult::OutOfBounds,
{
}

/// A snake of one cell cannot bite itself: its only cell is the tail tip, which vacates.
pub proof fn lemma_single_cell_never_bites_itself(s: SnakeView, others: Seq<SnakeView>, b: Boundaries)
    requires
        s.cells.len() == 1,
    ensures
        s.advance_result(others, b) != AdvanceResult::BitYaSelf,
{
    assert(s.cells.drop_last() =~= Seq::<Pos>::empty());
}

} // verus!
