//! The game plane: a snake that moves on a torus, eats food and grows.

use rand::{thread_rng, Rng};
use vstd::arithmetic::div_mod::{lemma_fundamental_div_mod, lemma_mod_bound};
use vstd::prelude::*;
use vstd::seq_lib::seq_to_set_is_finite;
use vstd::set_lib::{lemma_int_range, lemma_len_subset, set_int_range};

verus! {

/// The four directions in which the snake can travel.
#[derive(Clone, Copy, PartialEq, Eq, Debug, Hash, Structural)]
pub enum MovementDirection {
    Left,
    Right,
    Up,
    Down,
}

/// One position on the grid. The direction is meaningful for the snake's head
/// only; body segments and food carry it along.
#[derive(Clone, Copy, Debug)]
pub struct Cell {
    pub x: usize,
    pub y: usize,
    pub direction: MovementDirection,
}

/// A uniformly distributed index below `bound`.
///
/// Trusted: calls `rand::Rng::gen_range(0, bound)` on `rand::thread_rng()`.
/// The contract claims only what `gen_range` documents, that the value lies
/// in `[0, bound)`; `gen_range` panics when `bound` is `0`, which the
/// precondition excludes. Which value comes back is left open, so two calls
/// with the same bound are unrelated. `thread_rng` itself gives up where the
/// system has no entropy to seed it with; nothing here can rule that out.
#[verifier::external_body]
fn random_below(bound: usize) -> (r: usize)
    requires
        bound > 0,
    ensures
        r < bound,
{
    thread_rng().gen_range(0, bound)
}

impl Cell {
    /// A cell at the given coordinates.
    pub fn new(x: usize, y: usize, direction: MovementDirection) -> (cell: Cell)
        ensures
            cell.x == x,
            cell.y == y,
            cell.direction == direction,
    {
        Cell { x, y, direction }
    }

    /// A cell at a random position with `x <= max_x` and `y <= max_y`.
    ///
    /// The direction carries no information and is always `Right`.
    pub fn random(max_x: usize, max_y: usize) -> (cell: Cell)
        requires
            max_x < usize::MAX,
            max_y < usize::MAX,
        ensures
            cell.x <= max_x,
            cell.y <= max_y,
            cell.direction == MovementDirection::Right,
    {
        let x: usize = random_below(max_x + 1);
        let y: usize = random_below(max_y + 1);
        Cell { x, y, direction: MovementDirection::Right }
    }

    /// Whether the cell lies at the coordinates `(x, y)`.
    pub open spec fn at(self, x: int, y: int) -> bool {
        self.x == x && self.y == y
    }
}

/// The coordinate one step below `v` on a ring of `dim` positions.
pub open spec fn step_back(v: int, dim: int) -> int {
    (v - 1) % dim
}

/// The coordinate one step above `v` on a ring of `dim` positions.
pub open spec fn step_forth(v: int, dim: int) -> int {
    (v + 1) % dim
}

/// Where a head at `head` stands after one step in `direction` on a plane of
/// `width` by `height` cells whose edges wrap around. The head takes over the
/// direction it was sent in.
pub open spec fn moved_head(
    head: Cell,
    direction: MovementDirection,
    width: int,
    height: int,
) -> Cell {
    match direction {
        MovementDirection::Left => Cell {
            x: step_back(head.x as int, width) as usize,
            y: head.y,
            direction,
        },
        MovementDirection::Right => Cell {
            x: step_forth(head.x as int, width) as usize,
            y: head.y,
            direction,
        },
        MovementDirection::Up => Cell {
            x: head.x,
            y: step_back(head.y as int, height) as usize,
            direction,
        },
        MovementDirection::Down => Cell {
            x: head.x,
            y: step_forth(head.y as int, height) as usize,
            direction,
        },
    }
}

/// The snake after one step, before any growth: the head has moved, and every
/// other segment stands where its predecessor stood.
pub open spec fn shifted(
    snake: Seq<Cell>,
    direction: MovementDirection,
    width: int,
    height: int,
) -> Seq<Cell> {
    Seq::new(
        snake.len(),
        |i: int|
            if i == 0 {
                moved_head(snake[0], direction, width, height)
            } else {
                snake[i - 1]
            },
    )
}

/// Whether some segment of `snake` lies at `(x, y)`.
pub open spec fn occupies(snake: Seq<Cell>, x: int, y: int) -> bool {
    exists|i: int| 0 <= i < snake.len() && (#[trigger] snake[i]).at(x, y)
}

/// Whether a plane of `width` by `height` cells has a cell that `snake` does
/// not cover.
pub open spec fn has_free_cell(snake: Seq<Cell>, width: int, height: int) -> bool {
    exists|x: int, y: int| 0 <= x < width && 0 <= y < height && !#[trigger] occupies(snake, x, y)
}

/// On a ring, stepping from a position inside it wraps at both ends.
pub proof fn lemma_step_wraps(v: int, dim: int)
    requires
        0 <= v < dim,
    ensures
        step_back(v, dim) == (if v == 0 { dim - 1 } else { v - 1 }),
        step_forth(v, dim) == (if v == dim - 1 { 0 } else { v + 1 }),
        0 <= step_back(v, dim) < dim,
        0 <= step_forth(v, dim) < dim,
{
    assert((v - 1) % dim == (if v == 0 { dim - 1 } else { v - 1 })) by (nonlinear_arith)
        requires
            0 <= v < dim,
    ;
    assert((v + 1) % dim == (if v == dim - 1 { 0 } else { v + 1 })) by (nonlinear_arith)
        requires
            0 <= v < dim,
    ;
}

/// A step from a cell of the plane changes exactly one coordinate, to the
/// neighbouring position on its ring, and leaves the other one alone: left and
/// right change the column, up and down the row. At the edges the step wraps:
/// left of column 0 lies the last column, and right of the last column lies
/// column 0; likewise for rows.
pub proof fn lemma_head_moves_one_step(
    head: Cell,
    direction: MovementDirection,
    width: int,
    height: int,
)
    requires
        head.x < width <= usize::MAX,
        head.y < height <= usize::MAX,
    ensures
        ({
            let next = moved_head(head, direction, width, height);
            &&& next.x < width
            &&& next.y < height
            &&& next.direction == direction
            &&& match direction {
                MovementDirection::Left => next.y == head.y && (next.x - (head.x - 1)) % width == 0
                    && next.x == (if head.x == 0 { width - 1 } else { head.x - 1 }),
                MovementDirection::Right => next.y == head.y && (next.x - (head.x + 1)) % width == 0
                    && next.x == (if head.x == width - 1 { 0 } else { head.x + 1 }),
                MovementDirection::Up => next.x == head.x && (next.y - (head.y - 1)) % height == 0
                    && next.y == (if head.y == 0 { height - 1 } else { head.y - 1 }),
                MovementDirection::Down => next.x == head.x && (next.y - (head.y + 1)) % height == 0
                    && next.y == (if head.y == height - 1 { 0 } else { head.y + 1 }),
            }
        }),
{
    lemma_step_wraps(head.x as int, width);
    lemma_step_wraps(head.y as int, height);
    assert(0int % width == 0 && width % width == 0 && (-width) % width == 0) by (nonlinear_arith)
        requires
            width > 0,
    ;
    assert(0int % height == 0 && height % height == 0 && (-height) % height == 0)
        by (nonlinear_arith)
        requires
            height > 0,
    ;
}

/// A snake with fewer segments than the plane has cells leaves a cell free.
pub proof fn lemma_short_snake_leaves_room(snake: Seq<Cell>, width: int, height: int)
    requires
        0 < width,
        0 < height,
        snake.len() < width * height,
    ensures
        has_free_cell(snake, width, height),
{
    let numbers = snake.map_values(|cell: Cell| cell.y * width + cell.x);
    let covered = numbers.to_set();
    let all = set_int_range(0, width * height);
    numbers.lemma_cardinality_of_set();
    seq_to_set_is_finite(numbers);
    lemma_int_range(0, width * height);
    if all.subset_of(covered) {
        lemma_len_subset(all, covered);
        assert(false);
    }
    let k = choose|k: int| all.contains(k) && !covered.contains(k);
    let (x, y) = (k % width, k / width);
    lemma_mod_bound(k, width);
    lemma_fundamental_div_mod(k, width);
    assert(0 <= y < height) by (nonlinear_arith)
        requires
            0 <= k < width * height,
            k == width * y + x,
            0 <= x < width,
    ;
    if occupies(snake, x, y) {
        let i = choose|i: int| 0 <= i < snake.len() && (#[trigger] snake[i]).at(x, y);
        assert(numbers[i] == y * width + x);
        assert(y * width == width * y) by (nonlinear_arith);
        assert(numbers.contains(k));
        assert(false);
    }
}

/// Whether `(x1, y1)` comes before `(x2, y2)` when the plane is read row by
/// row, each row from left to right.
pub open spec fn precedes(x1: int, y1: int, x2: int, y2: int) -> bool {
    y1 < y2 || (y1 == y2 && x1 < x2)
}

/// How many random cells `randomize_food` samples before it searches the
/// plane in order.
pub const FOOD_SAMPLES: usize = 64;

/// Limited space game plane.
///
/// It is where the snake and its food exist. The snake runs from its head at
/// index 0 to its tail.
pub struct Plane {
    pub width: usize,
    pub height: usize,
    pub snake: Vec<Cell>,
    pub food: Cell,
}

impl Plane {
    /// Whether `cell` lies on the plane.
    pub open spec fn contains(&self, cell: Cell) -> bool {
        cell.x < self.width && cell.y < self.height
    }

    /// The plane is valid: it has cells, the snake has a head, and the snake
    /// and the food lie on the plane.
    pub open spec fn wf(&self) -> bool {
        &&& self.width > 0
        &&& self.height > 0
        &&& self.snake@.len() > 0
        &&& forall|i: int| 0 <= i < self.snake@.len() ==> self.contains(#[trigger] self.snake@[i])
        &&& self.contains(self.food)
    }

    /// Whether the food lies on a cell that the snake does not cover.
    pub open spec fn food_is_free(&self) -> bool {
        !occupies(self.snake@, self.food.x as int, self.food.y as int)
    }

    /// Whether the snake leaves some cell of the plane uncovered.
    pub open spec fn has_room(&self) -> bool {
        has_free_cell(self.snake@, self.width as int, self.height as int)
    }

    /// Whether the plane is valid.
    pub fn is_valid(&self) -> (valid: bool)
        ensures
            valid == self.wf(),
    {
        if self.width == 0 || self.height == 0 || self.snake.len() == 0 {
            return false;
        }
        if self.food.x >= self.width || self.food.y >= self.height {
            return false;
        }
        let mut i: usize = 0;
        while i < self.snake.len()
            invariant
                i <= self.snake@.len(),
                forall|j: int| 0 <= j < i ==> self.contains(#[trigger] self.snake@[j]),
            decreases self.snake@.len() - i,
        {
            if self.snake[i].x >= self.width || self.snake[i].y >= self.height {
                return false;
            }
            i += 1;
        }
        true
    }

    /// Whether some segment of the snake lies at `(x, y)`.
    pub fn on_snake(&self, x: usize, y: usize) -> (hit: bool)
        ensures
            hit == occupies(self.snake@, x as int, y as int),
    {
        let mut i: usize = 0;
        while i < self.snake.len()
            invariant
                i <= self.snake@.len(),
                forall|j: int| 0 <= j < i ==> !(#[trigger] self.snake@[j]).at(x as int, y as int),
            decreases self.snake@.len() - i,
        {
            if self.snake[i].x == x && self.snake[i].y == y {
                return true;
            }
            i += 1;
        }
        false
    }

    /// Tests snake head and food collision.
    pub fn head_on_food(&self) -> (hit: bool)
        requires
            self.snake@.len() > 0,
        ensures
            hit == self.snake@[0].at(self.food.x as int, self.food.y as int),
    {
        self.snake[0].x == self.food.x && self.snake[0].y == self.food.y
    }

    /// What `randomize_food` and `eat_food` leave as food when `previous` was
    /// the food before: a cell of the plane that the snake does not cover,
    /// or, on a plane without such a cell, the previous food.
    pub open spec fn food_renewed(&self, previous: Cell) -> bool {
        if self.has_room() {
            self.contains(self.food) && self.food_is_free() && self.food.direction
                == MovementDirection::Right
        } else {
            self.food == previous
        }
    }

    /// Whether a step in `direction` brings the head onto the food.
    pub open spec fn reaches_food(&self, direction: MovementDirection) -> bool {
        moved_head(self.snake@[0], direction, self.width as int, self.height as int).at(
            self.food.x as int,
            self.food.y as int,
        )
    }

    /// The snake after `move_to(direction)`: shifted by one step, and longer
    /// by a copy of the food where the head reached it.
    pub open spec fn snake_after(&self, direction: MovementDirection) -> Seq<Cell> {
        let stepped = shifted(self.snake@, direction, self.width as int, self.height as int);
        if self.reaches_food(direction) {
            stepped.push(self.food)
        } else {
            stepped
        }
    }

    /// Builds the plane with the snake at its start cells `(2, 0)`, `(1, 0)`
    /// and `(0, 0)`, head first and facing right, and with food on a random
    /// free cell.
    pub fn new(width: usize, height: usize) -> (plane: Plane)
        requires
            width >= 3,
            height >= 1,
        ensures
            plane.wf(),
            plane.width == width,
            plane.height == height,
            plane.snake@ == seq![
                Cell { x: 2, y: 0, direction: MovementDirection::Right },
                Cell { x: 1, y: 0, direction: MovementDirection::Right },
                Cell { x: 0, y: 0, direction: MovementDirection::Right },
            ],
            plane.has_room() <==> width > 3 || height > 1,
            plane.has_room() ==> plane.food_is_free(),
    {
        let body1 = Cell::new(0, 0, MovementDirection::Right);
        let body2 = Cell::new(1, 0, MovementDirection::Right);
        let head = Cell::new(2, 0, MovementDirection::Right);
        let snake = vec![head, body2, body1];

        let mut plane = Plane { width, height, snake, food: Cell::random(width - 1, height - 1) };
        proof {
            let cells = plane.snake@;
            if width > 3 {
                assert(!occupies(cells, 3, 0));
            } else if height > 1 {
                assert(!occupies(cells, 0, 1));
            } else {
                assert forall|x: int, y: int| 0 <= x < width && 0 <= y < height implies occupies(
                    cells,
                    x,
                    y,
                ) by {
                    assert(cells[2 - x].at(x, y));
                }
            }
        }
        plane.randomize_food();
        plane
    }

    /// Moves the snake one step in `direction`.
    ///
    /// Every segment but the head takes the place of the one before it; the
    /// head moves one cell and wraps at the edges of the plane. A head that
    /// reaches the food eats it: the snake grows by a copy of the food at its
    /// tail, and new food is placed. Food that the snake did not cover stays
    /// uncovered as long as the plane has room.
    ///
    /// Nothing keeps the head from turning back onto its own neck.
    pub fn move_to(&mut self, direction: &MovementDirection)
        requires
            old(self).wf(),
        ensures
            final(self).wf(),
            final(self).width == old(self).width,
            final(self).height == old(self).height,
            final(self).snake@ == old(self).snake_after(*direction),
            final(self).snake@[0] == moved_head(
                old(self).snake@[0],
                *direction,
                old(self).width as int,
                old(self).height as int,
            ),
            forall|i: int|
                1 <= i < old(self).snake@.len() ==> #[trigger] final(self).snake@[i] == old(
                    self,
                ).snake@[i - 1],
            old(self).reaches_food(*direction) ==> final(self).snake@.len() == old(
                self,
            ).snake@.len() + 1 && final(self).snake@.last() == old(self).food
                && final(self).food_renewed(old(self).food),
            !old(self).reaches_food(*direction) ==> final(self).snake@.len() == old(
                self,
            ).snake@.len() && final(self).food == old(self).food,
            old(self).food_is_free() && final(self).has_room() ==> final(self).food_is_free(),
    {
        let ghost before = self.snake@;
        let n: usize = self.snake.len();
        let mut i: usize = n - 1;
        while i > 0
            invariant
                i < n,
                self.snake@.len() == n,
                before.len() == n,
                self.width == old(self).width,
                self.height == old(self).height,
                self.food == old(self).food,
                forall|j: int| i < j < n ==> #[trigger] self.snake@[j] == before[j - 1],
                forall|j: int| 0 <= j <= i ==> #[trigger] self.snake@[j] == before[j],
            decreases i,
        {
            self.snake[i] = self.snake[i - 1];
            i -= 1;
        }
        match *direction {
            MovementDirection::Left => self.move_left(),
            MovementDirection::Right => self.move_right(),
            MovementDirection::Up => self.move_up(),
            MovementDirection::Down => self.move_down(),
        };
        self.snake[0].direction = *direction;
        proof {
            lemma_step_wraps(before[0].x as int, self.width as int);
            lemma_step_wraps(before[0].y as int, self.height as int);
            assert(self.snake@ =~= shifted(
                before,
                *direction,
                self.width as int,
                self.height as int,
            ));
        }
        if self.head_on_food() {
            self.eat_food();
        }
    }

    /// Puts the food on `candidate` if that cell lies on the plane and the
    /// snake does not cover it, and says whether it did.
    pub fn place_food(&mut self, candidate: Cell) -> (placed: bool)
        ensures
            placed == (old(self).contains(candidate) && !occupies(
                old(self).snake@,
                candidate.x as int,
                candidate.y as int,
            )),
            final(self).width == old(self).width,
            final(self).height == old(self).height,
            final(self).snake@ == old(self).snake@,
            final(self).food == (if placed { candidate } else { old(self).food }),
    {
        if candidate.x < self.width && candidate.y < self.height && !self.on_snake(
            candidate.x,
            candidate.y,
        ) {
            self.food = candidate;
            true
        } else {
            false
        }
    }

    /// The first cell, row by row, that the snake does not cover, if there is
    /// one.
    pub fn first_free_cell(&self) -> (found: Option<(usize, usize)>)
        ensures
            found is Some <==> self.has_room(),
            found matches Some((x, y)) ==> x < self.width && y < self.height && !occupies(
                self.snake@,
                x as int,
                y as int,
            ) && forall|u: int, v: int|
                0 <= u < self.width && 0 <= v < self.height && precedes(u, v, x as int, y as int)
                    ==> #[trigger] occupies(self.snake@, u, v),
    {
        let mut y: usize = 0;
        while y < self.height
            invariant
                y <= self.height,
                forall|u: int, v: int|
                    0 <= u < self.width && 0 <= v < y ==> #[trigger] occupies(self.snake@, u, v),
            decreases self.height - y,
        {
            let mut x: usize = 0;
            while x < self.width
                invariant
                    x <= self.width,
                    y < self.height,
                    forall|u: int, v: int|
                        0 <= u < self.width && 0 <= v < y ==> #[trigger] occupies(
                            self.snake@,
                            u,
                            v,
                        ),
                    forall|u: int| 0 <= u < x ==> #[trigger] occupies(self.snake@, u, y as int),
                decreases self.width - x,
            {
                if !self.on_snake(x, y) {
                    return Some((x, y));
                }
                x += 1;
            }
            y += 1;
        }
        None
    }

    /// Places food cell in a random location on a game plane.
    ///
    /// Random cells of the plane are sampled until one is found that the
    /// snake does not cover. After `FOOD_SAMPLES` misses the plane is
    /// searched row by row instead, so the call returns on every plane. Where
    /// the snake covers the whole plane the food stays where it was.
    pub fn randomize_food(&mut self)
        requires
            old(self).wf(),
        ensures
            final(self).wf(),
            final(self).width == old(self).width,
            final(self).height == old(self).height,
            final(self).snake@ == old(self).snake@,
            final(self).food_renewed(old(self).food),
    {
        let mut misses: usize = 0;
        while misses < FOOD_SAMPLES
            invariant
                self.wf(),
                self.width == old(self).width,
                self.height == old(self).height,
                self.snake@ == old(self).snake@,
                self.food == old(self).food,
            decreases FOOD_SAMPLES - misses,
        {
            let candidate = Cell::random(self.width - 1, self.height - 1);
            if self.place_food(candidate) {
                return ;
            }
            misses += 1;
        }
        match self.first_free_cell() {
            Some((x, y)) => {
                self.food = Cell::new(x, y, MovementDirection::Right);
            },
            None => {},
        }
    }

    /// Appends a copy of the food to the snake's tail and places new food.
    pub fn eat_food(&mut self)
        requires
            old(self).wf(),
        ensures
            final(self).wf(),
            final(self).width == old(self).width,
            final(self).height == old(self).height,
            final(self).snake@ == old(self).snake@.push(old(self).food),
            final(self).food_renewed(old(self).food),
    {
        self.snake.push(self.food);
        self.randomize_food();
    }

    /// Moves the head one cell to the left, wrapping from column 0 to the last.
    fn move_left(&mut self)
        requires
            old(self).wf(),
        ensures
            final(self).width == old(self).width,
            final(self).height == old(self).height,
            final(self).food == old(self).food,
            final(self).snake@ == old(self).snake@.update(
                0,
                (Cell {
                    x: step_back(old(self).snake@[0].x as int, old(self).width as int) as usize,
                    ..old(self).snake@[0]
                }),
            ),
    {
        proof {
            lemma_step_wraps(self.snake@[0].x as int, self.width as int);
        }
        self.snake[0].x = match self.snake[0].x {
            0 => self.width - 1,
            x => x - 1,
        };
    }

    /// Moves the head one cell to the right, wrapping from the last column to 0.
    fn move_right(&mut self)
        requires
            old(self).wf(),
        ensures
            final(self).width == old(self).width,
            final(self).height == old(self).height,
            final(self).food == old(self).food,
            final(self).snake@ == old(self).snake@.update(
                0,
                (Cell {
                    x: step_forth(old(self).snake@[0].x as int, old(self).width as int) as usize,
                    ..old(self).snake@[0]
                }),
            ),
    {
        proof {
            lemma_step_wraps(self.snake@[0].x as int, self.width as int);
        }
        self.snake[0].x = if self.snake[0].x >= self.width - 1 {
            0
        } else {
            self.snake[0].x + 1
        };
    }

    /// Moves the head one cell up, wrapping from row 0 to the last.
    fn move_up(&mut self)
        requires
            old(self).wf(),
        ensures
            final(self).width == old(self).width,
            final(self).height == old(self).height,
            final(self).food == old(self).food,
            final(self).snake@ == old(self).snake@.update(
                0,
                (Cell {
                    y: step_back(old(self).snake@[0].y as int, old(self).height as int) as usize,
                    ..old(self).snake@[0]
                }),
            ),
    {
        proof {
            lemma_step_wraps(self.snake@[0].y as int, self.height as int);
        }
        self.snake[0].y = match self.snake[0].y {
            0 => self.height - 1,
            y => y - 1,
        };
    }

    /// Moves the head one cell down, wrapping from the last row to 0.
    fn move_down(&mut self)
        requires
            old(self).wf(),
        ensures
            final(self).width == old(self).width,
            final(self).height == old(self).height,
            final(self).food == old(self).food,
            final(self).snake@ == old(self).snake@.update(
                0,
                (Cell {
                    y: step_forth(old(self).snake@[0].y as int, old(self).height as int) as usize,
                    ..old(self).snake@[0]
                }),
            ),
    {
        proof {
            lemma_step_wraps(self.snake@[0].y as int, self.height as int);
        }
        self.snake[0].y = if self.snake[0].y >= self.height - 1 {
            0
        } else {
            self.snake[0].y + 1
        };
    }
}

} // verus!
