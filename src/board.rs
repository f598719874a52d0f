use vstd::prelude::*;
use vstd::set_lib::lemma_len_subset;

use crate::entropy::random_u32;
use crate::geometry::{cell_at, shifted, within, Direction, Point};

verus! {

/// Random draws made for a food cell before the grid is scanned for a free one.
const RANDOM_TRIES: u32 = 64;

/// What one tick of the game leads to. `Failure` ends the game.
#[derive(Clone, Copy, Debug, PartialEq, Eq, Structural)]
pub enum Status {
    Success,
    Failure,
}

/// The game state: grid size, the snake (head first) and the food cells.
pub struct Board {
    xmax: u32,
    ymax: u32,
    snake: Vec<Point>,
    foods: Vec<Point>,
}

/// The mathematical model of a board.
pub struct BoardView {
    pub width: u32,
    pub height: u32,
    pub snake: Seq<Point>,
    pub foods: Seq<Point>,
}

impl BoardView {
    pub open spec fn in_bounds(self, p: Point) -> bool {
        p.x < self.width && p.y < self.height
    }

    pub open spec fn occupied(self, p: Point) -> bool {
        self.snake.contains(p) || self.foods.contains(p)
    }

    /// A cell on the grid that neither the snake nor a food item covers.
    pub open spec fn is_free(self, p: Point) -> bool {
        self.in_bounds(p) && !self.occupied(p)
    }

    pub open spec fn has_free_cell(self) -> bool {
        exists|p: Point| self.is_free(p)
    }

    pub open spec fn area(self) -> int {
        self.width * self.height
    }

    /// How many cells the snake and the food items take up together.
    pub open spec fn occupied_count(self) -> int {
        (self.snake.len() + self.foods.len()) as int
    }

    /// Cells on the grid, no repeats, and food never under the snake.
    pub open spec fn wf(self) -> bool {
        &&& self.width > 0
        &&& self.height > 0
        &&& forall|i: int| 0 <= i < self.snake.len() ==> self.in_bounds(#[trigger] self.snake[i])
        &&& forall|i: int| 0 <= i < self.foods.len() ==> self.in_bounds(#[trigger] self.foods[i])
        &&& self.snake.no_duplicates()
        &&& self.foods.no_duplicates()
        &&& forall|i: int| 0 <= i < self.foods.len() ==> !self.snake.contains(#[trigger] self.foods[i])
    }

    /// The cell that the random draws `rx`, `ry` pick on this grid.
    pub open spec fn cell_of_draws(self, rx: u32, ry: u32) -> Point {
        Point { x: (rx % self.width) as u32, y: (ry % self.height) as u32 }
    }

    pub open spec fn head(self) -> Point {
        self.snake[0]
    }

    /// Where the head would go when moving in direction `d`.
    pub open spec fn candidate(self, d: Direction) -> (int, int) {
        shifted(self.head(), d)
    }

    /// Moving in direction `d` leaves the grid or runs into the snake.
    pub open spec fn blocked(self, d: Direction) -> bool {
        !within(self.width, self.height, self.candidate(d)) || self.snake.contains(
            cell_at(self.candidate(d)),
        )
    }

    /// The head is not on the edge that faces direction `d`.
    pub open spec fn away_from_edge(self, d: Direction) -> bool {
        match d {
            Direction::Up => self.head().y > 0,
            Direction::Down => self.head().y + 1 < self.height,
            Direction::Left => self.head().x > 0,
            Direction::Right => self.head().x + 1 < self.width,
        }
    }
}

impl View for Board {
    type V = BoardView;

    closed spec fn view(&self) -> BoardView {
        BoardView { width: self.xmax, height: self.ymax, snake: self.snake@, foods: self.foods@ }
    }
}

/// Where `p` stands in `v`, if anywhere.
fn position(v: &Vec<Point>, p: Point) -> (r: Option<usize>)
    ensures
        match r {
            Some(i) => i < v@.len() && v@[i as int] == p,
            None => !v@.contains(p),
        },
{
    let mut i: usize = 0;
    while i < v.len()
        invariant
            0 <= i <= v@.len(),
            forall|j: int| 0 <= j < i ==> v@[j] != p,
        decreases v@.len() - i,
    {
        if v[i] == p {
            return Some(i);
        }
        i += 1;
    }
    None
}

proof fn lemma_concat_contains(a: Seq<Point>, b: Seq<Point>, p: Point)
    ensures
        (a + b).contains(p) <==> (a.contains(p) || b.contains(p)),
{
    if a.contains(p) {
        let i = choose|i: int| 0 <= i < a.len() && a[i] == p;
        assert((a + b)[i] == p);
    }
    if b.contains(p) {
        let i = choose|i: int| 0 <= i < b.len() && b[i] == p;
        assert((a + b)[a.len() + i] == p);
    }
    if (a + b).contains(p) {
        let k = choose|k: int| 0 <= k < (a + b).len() && (a + b)[k] == p;
        if k < a.len() {
            assert(a[k] == p);
        } else {
            assert(b[k - a.len()] == p);
        }
    }
}

fn all_within(v: &Vec<Point>, xmax: u32, ymax: u32) -> (r: bool)
    ensures
        r == forall|i: int| 0 <= i < v@.len() ==> (#[trigger] v@[i]).x < xmax && v@[i].y < ymax,
{
    let mut i: usize = 0;
    while i < v.len()
        invariant
            0 <= i <= v@.len(),
            forall|j: int| 0 <= j < i ==> (#[trigger] v@[j]).x < xmax && v@[j].y < ymax,
        decreases v@.len() - i,
    {
        if v[i].x >= xmax || v[i].y >= ymax {
            return false;
        }
        i += 1;
    }
    true
}

fn distinct(v: &Vec<Point>) -> (r: bool)
    ensures
        r == v@.no_duplicates(),
{
    let mut i: usize = 0;
    while i < v.len()
        invariant
            0 <= i <= v@.len(),
            forall|a: int, b: int| 0 <= a < i && 0 <= b < i && a != b ==> v@[a] != v@[b],
        decreases v@.len() - i,
    {
        let mut j: usize = 0;
        while j < i
            invariant
                0 <= j <= i < v@.len(),
                forall|a: int, b: int| 0 <= a < i && 0 <= b < i && a != b ==> v@[a] != v@[b],
                forall|a: int| 0 <= a < j ==> v@[a] != v@[i as int],
            decreases i - j,
        {
            if v[j] == v[i] {
                return false;
            }
            j += 1;
        }
        i += 1;
    }
    true
}

/// Whether no item of `b` stands in `a`.
fn none_in(a: &Vec<Point>, b: &Vec<Point>) -> (r: bool)
    ensures
        r == forall|i: int| 0 <= i < b@.len() ==> !a@.contains(#[trigger] b@[i]),
{
    let mut i: usize = 0;
    while i < b.len()
        invariant
            0 <= i <= b@.len(),
            forall|j: int| 0 <= j < i ==> !a@.contains(#[trigger] b@[j]),
        decreases b@.len() - i,
    {
        if position(a, b[i]).is_some() {
            return false;
        }
        i += 1;
    }
    true
}

impl Board {
    /// An empty board of the given size, before `initialize`.
    pub fn new(xmax: u32, ymax: u32) -> (r: Board)
        requires
            xmax > 0,
            ymax > 0,
        ensures
            r@.wf(),
            r@.width == xmax,
            r@.height == ymax,
            r@.snake.len() == 0,
            r@.foods.len() == 0,
    {
        Board { xmax, ymax, snake: Vec::new(), foods: Vec::new() }
    }

    /// A board in a given state, or `None` where the state is not a valid one:
    /// a zero dimension, a cell off the grid, a repeated cell, or food under
    /// the snake.
    pub fn from_parts(xmax: u32, ymax: u32, snake: Vec<Point>, foods: Vec<Point>) -> (r: Option<
        Board,
    >)
        ensures
            ({
                let v = BoardView { width: xmax, height: ymax, snake: snake@, foods: foods@ };
                match r {
                    Some(b) => v.wf() && b@ == v,
                    None => !v.wf(),
                }
            }),
    {
        if xmax == 0 || ymax == 0 {
            return None;
        }
        if !all_within(&snake, xmax, ymax) || !all_within(&foods, xmax, ymax) {
            return None;
        }
        if !distinct(&snake) || !distinct(&foods) || !none_in(&snake, &foods) {
            return None;
        }
        Some(Board { xmax, ymax, snake, foods })
    }

    fn is_vacant(&self, p: Point) -> (r: bool)
        ensures
            r == !self@.occupied(p),
    {
        position(&self.snake, p).is_none() && position(&self.foods, p).is_none()
    }

    /// A cell drawn at random on the grid.
    pub fn create_random_cell(&self) -> (r: Point)
        requires
            self@.wf(),
        ensures
            self@.in_bounds(r),
    {
        let rx = random_u32();
        let ry = random_u32();
        self.cell_from_draws(rx, ry)
    }

    /// The cell that two random draws pick: each reduced modulo the grid's
    /// size in its axis.
    pub fn cell_from_draws(&self, rx: u32, ry: u32) -> (r: Point)
        requires
            self@.wf(),
        ensures
            r == self@.cell_of_draws(rx, ry),
            self@.in_bounds(r),
    {
        Point { x: rx % self.xmax, y: ry % self.ymax }
    }

    /// Puts a food item on the cell that the draws `rx`, `ry` pick, where that
    /// cell is free; otherwise changes nothing and returns `false`.
    pub fn try_place(&mut self, rx: u32, ry: u32) -> (r: bool)
        requires
            old(self)@.wf(),
        ensures
            final(self)@.wf(),
            r == old(self)@.is_free(old(self)@.cell_of_draws(rx, ry)),
            r ==> final(self)@ == (BoardView {
                foods: old(self)@.foods.push(old(self)@.cell_of_draws(rx, ry)),
                ..old(self)@
            }),
            !r ==> final(self)@ == old(self)@,
    {
        let p = self.cell_from_draws(rx, ry);
        if self.is_vacant(p) {
            self.place_food(p);
            true
        } else {
            false
        }
    }

    /// The first free cell in row order, or `None` when every cell is taken,
    /// which only happens when snake and food together cover the whole grid.
    fn first_vacant(&self) -> (r: Option<Point>)
        requires
            self@.wf(),
        ensures
            match r {
                Some(p) => self@.is_free(p),
                None => !self@.has_free_cell() && self@.occupied_count() >= self@.area(),
            },
    {
        let ghost v = self@;
        let ghost mut scanned: Seq<Point> = Seq::empty();
        let mut y: u32 = 0;
        while y < self.ymax
            invariant
                v == self@,
                v.wf(),
                y <= self.ymax,
                scanned.len() == y * self.xmax,
                scanned.no_duplicates(),
                forall|i: int|
                    0 <= i < scanned.len() ==> (#[trigger] scanned[i]).y < y && v.occupied(
                        scanned[i],
                    ),
                forall|q: Point| v.in_bounds(q) && q.y < y ==> #[trigger] v.occupied(q),
            decreases self.ymax - y,
        {
            let mut x: u32 = 0;
            while x < self.xmax
                invariant
                    v == self@,
                    v.wf(),
                    y < self.ymax,
                    x <= self.xmax,
                    scanned.len() == y * self.xmax + x,
                    scanned.no_duplicates(),
                    forall|i: int|
                        0 <= i < scanned.len() ==> ((#[trigger] scanned[i]).y < y || (
                        scanned[i].y == y && scanned[i].x < x)) && v.occupied(scanned[i]),
                    forall|q: Point|
                        v.in_bounds(q) && (q.y < y || (q.y == y && q.x < x)) ==> #[trigger] v.occupied(q),
                decreases self.xmax - x,
            {
                let p = Point { x, y };
                if self.is_vacant(p) {
                    return Some(p);
                }
                proof {
                    scanned = scanned.push(p);
                }
                x += 1;
            }
            proof {
                let w = self.xmax as int;
                let yy = y as int;
                assert(yy * w + w == (yy + 1) * w) by (nonlinear_arith);
            }
            y += 1;
        }
        proof {
            let occ = v.snake + v.foods;
            assert forall|p: Point| scanned.to_set().contains(p) implies occ.to_set().contains(p) by {
                lemma_concat_contains(v.snake, v.foods, p);
            }
            scanned.unique_seq_to_set();
            occ.lemma_cardinality_of_set();
            lemma_len_subset(scanned.to_set(), occ.to_set());
            let w = self.xmax as int;
            let h = self.ymax as int;
            assert(h * w == w * h) by (nonlinear_arith);
            assert(!v.has_free_cell()) by {
                if v.has_free_cell() {
                    let p = choose|p: Point| v.is_free(p);
                    assert(v.occupied(p));
                }
            }
        }
        None
    }

    /// Places one food item on a free cell. Up to `RANDOM_TRIES` pairs of random
    /// draws go through `try_place`, and the first pair that picks a free cell
    /// places it; after that the grid is scanned in row order. Returns `false`,
    /// changing nothing, when no cell is free.
    pub fn add_new_food(&mut self) -> (r: bool)
        requires
            old(self)@.wf(),
        ensures
            final(self)@.wf(),
            final(self)@.width == old(self)@.width,
            final(self)@.height == old(self)@.height,
            final(self)@.snake == old(self)@.snake,
            r == old(self)@.has_free_cell(),
            old(self)@.occupied_count() < old(self)@.area() ==> r,
            r ==> final(self)@.foods.len() == old(self)@.foods.len() + 1
                && final(self)@.foods.drop_last() == old(self)@.foods,
            !r ==> final(self)@ == old(self)@,
    {
        let mut tries: u32 = 0;
        while tries < RANDOM_TRIES
            invariant
                self@ == old(self)@,
                self@.wf(),
            decreases RANDOM_TRIES - tries,
        {
            let rx = random_u32();
            let ry = random_u32();
            if self.try_place(rx, ry) {
                return true;
            }
            tries += 1;
        }
        match self.first_vacant() {
            Some(p) => {
                self.place_food(p);
                true
            },
            None => false,
        }
    }

    fn place_food(&mut self, p: Point)
        requires
            old(self)@.wf(),
            old(self)@.is_free(p),
        ensures
            final(self)@.wf(),
            final(self)@.width == old(self)@.width,
            final(self)@.height == old(self)@.height,
            final(self)@.snake == old(self)@.snake,
            final(self)@.foods == old(self)@.foods.push(p),
            old(self)@.has_free_cell(),
    {
        self.foods.push(p);
        proof {
            let o = old(self)@;
            let n = self@;
            assert(n.foods.drop_last() =~= o.foods);
            assert forall|i: int, j: int|
                0 <= i < n.foods.len() && 0 <= j < n.foods.len() && i != j implies n.foods[i]
                != n.foods[j] by {
                if i < o.foods.len() && j < o.foods.len() {
                } else if i < o.foods.len() {
                    assert(o.foods.contains(n.foods[i]));
                } else {
                    assert(o.foods.contains(n.foods[j]));
                }
            }
            assert forall|i: int| 0 <= i < n.foods.len() implies !n.snake.contains(
                #[trigger] n.foods[i],
            ) by {
                if i < o.foods.len() {
                    assert(n.foods[i] == o.foods[i]);
                }
            }
            assert(o.is_free(p));
        }
    }

    /// Starts a game: the snake on its two seed cells, head (2, 3) over
    /// (2, 2), and `width * height / 10 - 1` food items on free cells. Returns
    /// `false`, changing nothing, on a grid too small for the seed.
    pub fn initialize(&mut self) -> (r: bool)
        requires
            old(self)@.wf(),
        ensures
            r == (old(self)@.width >= 3 && old(self)@.height >= 4),
            !r ==> final(self)@ == old(self)@,
            r ==> {
                &&& final(self)@.wf()
                &&& final(self)@.width == old(self)@.width
                &&& final(self)@.height == old(self)@.height
                &&& final(self)@.snake == seq![Point { x: 2, y: 3 }, Point { x: 2, y: 2 }]
                &&& final(self)@.foods.len() == old(self)@.area() / 10 - 1
            },
    {
        if self.xmax < 3 || self.ymax < 4 {
            return false;
        }
        self.snake.clear();
        self.foods.clear();
        self.snake.push(Point { x: 2, y: 3 });
        self.snake.push(Point { x: 2, y: 2 });
        let ghost seed = seq![Point { x: 2, y: 3 }, Point { x: 2, y: 2 }];
        proof {
            assert(self@.snake =~= seed);
            assert(self@.snake[0] != self@.snake[1]);
        }
        let w = self.xmax as u64;
        let h = self.ymax as u64;
        proof {
            assert(w * h <= 0xffff_ffffu64 * 0xffff_ffffu64) by (nonlinear_arith)
                requires
                    w <= 0xffff_ffffu64,
                    h <= 0xffff_ffffu64,
            ;
            assert(w * h >= 12) by (nonlinear_arith)
                requires
                    w >= 3,
                    h >= 4,
            ;
        }
        let num_food: u64 = w * h / 10;
        let mut i: u64 = 1;
        while i < num_food
            invariant
                self@.wf(),
                self.xmax == old(self).xmax,
                self.ymax == old(self).ymax,
                self@.snake == seed,
                seed.len() == 2,
                num_food == self@.area() / 10,
                self@.area() >= 12,
                1 <= i <= num_food,
                self@.foods.len() == i - 1,
            decreases num_food - i,
        {
            proof {
                assert(self@.area() / 10 < self@.area());
                assert(self@.occupied_count() < self@.area());
            }
            self.add_new_food();
            i += 1;
        }
        true
    }

    /// The snake's cells, head first.
    pub fn snake(&self) -> (r: &[Point])
        ensures
            r@ == self@.snake,
    {
        self.snake.as_slice()
    }

    /// The food cells, in the order they were placed.
    pub fn foods(&self) -> (r: &[Point])
        ensures
            r@ == self@.foods,
    {
        self.foods.as_slice()
    }

    pub fn width(&self) -> (r: u32)
        ensures
            r == self@.width,
    {
        self.xmax
    }

    pub fn height(&self) -> (r: u32)
        ensures
            r == self@.height,
    {
        self.ymax
    }

    /// The cell one step from the head in direction `dir`, or `Err` where that
    /// step leaves the grid.
    pub fn next_move(&self, dir: Direction) -> (r: Result<Point, ()>)
        requires
            self@.wf(),
            self@.snake.len() > 0,
        ensures
            match r {
                Ok(p) => within(self@.width, self@.height, self@.candidate(dir)) && p == cell_at(
                    self@.candidate(dir),
                ),
                Err(_) => !within(self@.width, self@.height, self@.candidate(dir)),
            },
    {
        let head = self.snake[0];
        match dir {
            Direction::Up => {
                if head.y == 0 {
                    Err(())
                } else {
                    Ok(Point { x: head.x, y: head.y - 1 })
                }
            },
            Direction::Down => {
                if head.y + 1 >= self.ymax {
                    Err(())
                } else {
                    Ok(Point { x: head.x, y: head.y + 1 })
                }
            },
            Direction::Left => {
                if head.x == 0 {
                    Err(())
                } else {
                    Ok(Point { x: head.x - 1, y: head.y })
                }
            },
            Direction::Right => {
                if head.x + 1 >= self.xmax {
                    Err(())
                } else {
                    Ok(Point { x: head.x + 1, y: head.y })
                }
            },
        }
    }

    /// Grows the snake onto `point`: the new head, with the tail kept.
    fn eat_food(&mut self, point: Point)
        ensures
            final(self)@.width == old(self)@.width,
            final(self)@.height == old(self)@.height,
            final(self)@.foods == old(self)@.foods,
            final(self)@.snake == seq![point] + old(self)@.snake,
    {
        self.snake.insert(0, point);
        proof {
            assert(self@.snake =~= seq![point] + old(self)@.snake);
        }
    }

    /// Moves the snake onto `point`: the new head, with the tail dropped.
    fn move_to(&mut self, point: Point)
        requires
            old(self)@.snake.len() > 0,
        ensures
            final(self)@.width == old(self)@.width,
            final(self)@.height == old(self)@.height,
            final(self)@.foods == old(self)@.foods,
            final(self)@.snake == seq![point] + old(self)@.snake.drop_last(),
    {
        self.snake.insert(0, point);
        let _ = self.snake.pop();
        proof {
            assert(self@.snake =~= seq![point] + old(self)@.snake.drop_last());
        }
    }

    /// One tick: moves the head one step in direction `dir`.
    ///
    /// Off the grid, or onto any cell of the snake as it stands before the move
    /// (its tail included), the game ends and nothing changes. Onto food, the
    /// snake grows by one, that food item goes and a new one is placed if a cell
    /// is free. Otherwise the snake moves and keeps its length.
    pub fn move_snake(&mut self, dir: Direction) -> (r: Status)
        requires
            old(self)@.wf(),
            old(self)@.snake.len() > 0,
        ensures
            final(self)@.wf(),
            final(self)@.width == old(self)@.width,
            final(self)@.height == old(self)@.height,
            final(self)@.snake.len() > 0,
            (r == Status::Failure) == old(self)@.blocked(dir),
            r == Status::Failure ==> final(self)@ == old(self)@,
            ({
                let o = old(self)@;
                let n = final(self)@;
                let c = cell_at(o.candidate(dir));
                !o.blocked(dir) && !o.foods.contains(c) ==> {
                    &&& n.snake == seq![c] + o.snake.drop_last()
                    &&& n.foods == o.foods
                    &&& n.snake.len() == o.snake.len()
                    &&& n.head() == c
                }
            }),
            ({
                let o = old(self)@;
                let n = final(self)@;
                let c = cell_at(o.candidate(dir));
                let eaten = o.foods.remove(o.foods.index_of(c));
                !o.blocked(dir) && o.foods.contains(c) ==> {
                    &&& n.snake == seq![c] + o.snake
                    &&& n.snake.len() == o.snake.len() + 1
                    &&& !n.foods.contains(c)
                    &&& if o.has_free_cell() {
                        n.foods.len() == o.foods.len() && n.foods.drop_last() == eaten
                    } else {
                        n.foods == eaten
                    }
                }
            }),
    {
        let point = match self.next_move(dir) {
            Ok(p) => p,
            Err(_) => {
                return Status::Failure;
            },
        };
        if position(&self.snake, point).is_some() {
            return Status::Failure;
        }
        let ghost o = self@;
        match position(&self.foods, point) {
            Some(i) => {
                self.eat_food(point);
                self.foods.remove(i);
                proof {
                    lemma_eat_keeps_state(o, self@, point, i as int);
                }
                self.add_new_food();
                proof {
                    let n = self@;
                    assert(n.snake[0] == point);
                    assert(n.snake.contains(point));
                    assert(!n.foods.contains(point));
                }
                Status::Success
            },
            None => {
                self.move_to(point);
                proof {
                    lemma_move_keeps_state(o, self@, point);
                }
                Status::Success
            },
        }
    }
}

/// After a step onto a food item, the board is well formed and the free cells
/// are those of before.
proof fn lemma_eat_keeps_state(o: BoardView, n: BoardView, c: Point, i: int)
    requires
        o.wf(),
        o.in_bounds(c),
        !o.snake.contains(c),
        0 <= i < o.foods.len(),
        o.foods[i] == c,
        n.width == o.width,
        n.height == o.height,
        n.snake == seq![c] + o.snake,
        n.foods == o.foods.remove(i),
    ensures
        n.wf(),
        o.foods.remove(o.foods.index_of(c)) == n.foods,
        n.has_free_cell() == o.has_free_cell(),
{
    assert(o.foods.contains(c));
    let k = o.foods.index_of(c);
    assert(o.foods[k] == c);
    assert(k == i);
    assert forall|p: Point| #[trigger] n.foods.contains(p) <==> (o.foods.contains(p) && p != c) by {
        if n.foods.contains(p) {
            let j = choose|j: int| 0 <= j < n.foods.len() && n.foods[j] == p;
            if j < i {
                assert(o.foods[j] == p);
            } else {
                assert(o.foods[j + 1] == p);
            }
        }
        if o.foods.contains(p) && p != c {
            let j = choose|j: int| 0 <= j < o.foods.len() && o.foods[j] == p;
            if j < i {
                assert(n.foods[j] == p);
            } else {
                assert(n.foods[j - 1] == p);
            }
        }
    }
    assert forall|p: Point| #[trigger] n.snake.contains(p) <==> (o.snake.contains(p) || p == c) by {
        lemma_concat_contains(seq![c], o.snake, p);
        if seq![c].contains(p) {
            assert(seq![c][0] == p);
        }
        if p == c {
            assert(seq![c][0] == c);
        }
    }
    assert forall|p: Point| n.is_free(p) == o.is_free(p) by {
        assert(n.snake.contains(p) <==> (o.snake.contains(p) || p == c));
        assert(n.foods.contains(p) <==> (o.foods.contains(p) && p != c));
    }
    if n.has_free_cell() {
        let p = choose|p: Point| n.is_free(p);
        assert(o.is_free(p));
    }
    if o.has_free_cell() {
        let p = choose|p: Point| o.is_free(p);
        assert(n.is_free(p));
    }
    assert forall|a: int, b: int|
        0 <= a < n.snake.len() && 0 <= b < n.snake.len() && a != b implies n.snake[a]
        != n.snake[b] by {
        if a == 0 && b > 0 {
            assert(n.snake[b] == o.snake[b - 1]);
        } else if b == 0 && a > 0 {
            assert(n.snake[a] == o.snake[a - 1]);
        }
    }
    assert forall|a: int, b: int|
        0 <= a < n.foods.len() && 0 <= b < n.foods.len() && a != b implies n.foods[a]
        != n.foods[b] by {
        let a1 = if a < i { a } else { a + 1 };
        let b1 = if b < i { b } else { b + 1 };
        assert(n.foods[a] == o.foods[a1]);
        assert(n.foods[b] == o.foods[b1]);
    }
    assert forall|a: int| 0 <= a < n.snake.len() implies n.in_bounds(#[trigger] n.snake[a]) by {
        if a > 0 {
            assert(n.snake[a] == o.snake[a - 1]);
        }
    }
    assert forall|a: int| 0 <= a < n.foods.len() implies n.in_bounds(#[trigger] n.foods[a])
        && !n.snake.contains(n.foods[a]) by {
        let a1 = if a < i { a } else { a + 1 };
        assert(n.foods[a] == o.foods[a1]);
        assert(o.foods.contains(n.foods[a]));
        assert(n.foods.contains(n.foods[a]));
    }
}

/// After a plain step onto a free cell, the board is well formed.
proof fn lemma_move_keeps_state(o: BoardView, n: BoardView, c: Point)
    requires
        o.wf(),
        o.snake.len() > 0,
        o.in_bounds(c),
        !o.snake.contains(c),
        !o.foods.contains(c),
        n.width == o.width,
        n.height == o.height,
        n.snake == seq![c] + o.snake.drop_last(),
        n.foods == o.foods,
    ensures
        n.wf(),
{
    let body = o.snake.drop_last();
    assert forall|a: int, b: int|
        0 <= a < n.snake.len() && 0 <= b < n.snake.len() && a != b implies n.snake[a]
        != n.snake[b] by {
        if a == 0 && b > 0 {
            assert(n.snake[b] == o.snake[b - 1]);
        } else if b == 0 && a > 0 {
            assert(n.snake[a] == o.snake[a - 1]);
        } else if a > 0 && b > 0 {
            assert(n.snake[a] == o.snake[a - 1]);
            assert(n.snake[b] == o.snake[b - 1]);
        }
    }
    assert forall|a: int| 0 <= a < n.snake.len() implies n.in_bounds(#[trigger] n.snake[a]) by {
        if a > 0 {
            assert(n.snake[a] == o.snake[a - 1]);
        }
    }
    assert forall|a: int| 0 <= a < n.foods.len() implies !n.snake.contains(#[trigger] n.foods[a]) by {
        let f = n.foods[a];
        assert(o.foods.contains(f));
        if n.snake.contains(f) {
            let j = choose|j: int| 0 <= j < n.snake.len() && n.snake[j] == f;
            if j > 0 {
                assert(o.snake[j - 1] == f);
            }
        }
    }
}

/// A head that is not on the edge it moves towards stays on the grid: such a
/// move can end the game only by running into the snake.
pub proof fn lemma_interior_move_in_bounds(b: BoardView, h: Direction)
    requires
        b.wf(),
        b.snake.len() > 0,
        b.away_from_edge(h),
    ensures
        within(b.width, b.height, b.candidate(h)),
        b.blocked(h) <==> b.snake.contains(cell_at(b.candidate(h))),
{
    assert(b.in_bounds(b.snake[0]));
}

/// On a snake of three cells or more, a move of the head onto a body cell
/// other than the tail is blocked, and so ends the game with nothing changed.
pub proof fn lemma_self_collision(b: BoardView, h: Direction, i: int)
    requires
        b.wf(),
        b.snake.len() >= 3,
        0 < i < b.snake.len() - 1,
        b.candidate(h) == (b.snake[i].x as int, b.snake[i].y as int),
    ensures
        b.blocked(h),
{
    assert(b.in_bounds(b.snake[i]));
    assert(cell_at(b.candidate(h)) == b.snake[i]);
}

} // verus!
