use vstd::prelude::*;

verus! {

/// Error returned by every cell access outside the grid.
pub const INVALID_INDEXES: &'static str = "Invalid indexes";

/// The abstract state of a board: its dimensions and its rows of cells
/// (`true` is alive). Row `y` holds the cells `(0, y) .. (width - 1, y)`.
pub struct Grid {
    pub width: nat,
    pub height: nat,
    pub cells: Seq<Seq<bool>>,
}

impl Grid {
    /// Every row is there and has `width` cells.
    pub open spec fn wf(self) -> bool {
        &&& self.cells.len() == self.height
        &&& forall|y: int| 0 <= y < self.height ==> #[trigger] self.cells[y].len() == self.width
    }

    pub open spec fn in_bounds(self, x: int, y: int) -> bool {
        0 <= x < self.width && 0 <= y < self.height
    }

    /// Whether `(x, y)` is a live cell of the grid; nothing outside it lives.
    pub open spec fn alive(self, x: int, y: int) -> bool {
        self.in_bounds(x, y) && self.cells[y][x]
    }

    /// 1 for a live cell, 0 for a dead one or a position outside the grid.
    pub open spec fn live(self, x: int, y: int) -> nat {
        if self.alive(x, y) {
            1
        } else {
            0
        }
    }

    /// How many of the eight cells around `(x, y)` are alive. Positions past
    /// an edge count as dead: the grid does not wrap around.
    pub open spec fn neighbour_count(self, x: int, y: int) -> nat {
        self.live(x - 1, y - 1) + self.live(x, y - 1) + self.live(x + 1, y - 1) + self.live(x - 1, y)
            + self.live(x + 1, y) + self.live(x - 1, y + 1) + self.live(x, y + 1) + self.live(
            x + 1,
            y + 1,
        )
    }

    /// The grid with cell `(x, y)` replaced by `v`.
    pub open spec fn with_cell(self, x: int, y: int, v: bool) -> Grid {
        Grid { cells: self.cells.update(y, self.cells[y].update(x, v)), ..self }
    }
}

/// One row as text: `X` for a live cell, `_` for a dead one.
pub open spec fn row_text(row: Seq<bool>) -> Seq<char> {
    row.map_values(|c: bool| if c { 'X' } else { '_' })
}

/// The rows as text, top to bottom, each line ended by a newline.
pub open spec fn rows_text(rows: Seq<Seq<bool>>) -> Seq<char>
    decreases rows.len(),
{
    if rows.len() == 0 {
        Seq::empty()
    } else {
        rows_text(rows.drop_last()) + row_text(rows.last()) + seq!['\n']
    }
}

/// The grid of `width` columns and `height` rows with every cell dead.
pub open spec fn blank(width: nat, height: nat) -> Grid {
    Grid { width, height, cells: Seq::new(height, |y: int| Seq::new(width, |x: int| false)) }
}

/// Live cells of column `i` in rows `lo .. hi`, leaving out `(x, y)` itself.
spec fn column_count(g: Grid, x: int, y: int, i: int, lo: int, hi: int) -> nat
    decreases hi - lo,
{
    if hi <= lo {
        0
    } else {
        column_count(g, x, y, i, lo, hi - 1) + if i == x && hi - 1 == y {
            0
        } else {
            g.live(i, hi - 1)
        }
    }
}

/// Live cells of columns `ilo .. ihi` in rows `jlo .. jhi`, leaving out
/// `(x, y)` itself.
spec fn window_count(g: Grid, x: int, y: int, ilo: int, ihi: int, jlo: int, jhi: int) -> nat
    decreases ihi - ilo,
{
    if ihi <= ilo {
        0
    } else {
        window_count(g, x, y, ilo, ihi - 1, jlo, jhi) + column_count(g, x, y, ihi - 1, jlo, jhi)
    }
}

/// The window clamped to the grid around an inside cell holds exactly its
/// neighbours.
proof fn lemma_clamped_window(g: Grid, x: int, y: int, ilo: int, ihi: int, jlo: int, jhi: int)
    requires
        g.in_bounds(x, y),
        ilo == if x > 0 { x - 1 } else { 0 },
        ihi == if x < g.width - 1 { x + 2 } else { g.width as int },
        jlo == if y > 0 { y - 1 } else { 0 },
        jhi == if y < g.height - 1 { y + 2 } else { g.height as int },
    ensures
        window_count(g, x, y, ilo, ihi, jlo, jhi) == g.neighbour_count(x, y),
{
    reveal_with_fuel(window_count, 4);
    reveal_with_fuel(column_count, 4);
}

/// The text of a blank grid: `height` lines of `width` underscores.
pub open spec fn blank_text(width: nat, height: nat) -> Seq<char>
    decreases height,
{
    if height == 0 {
        Seq::empty()
    } else {
        blank_text(width, (height - 1) as nat) + Seq::new(width, |i: int| '_') + seq!['\n']
    }
}

/// How many of the columns `x - 1 ..= x + 1` (or rows, with `len` the
/// height) lie inside a grid of extent `len`.
pub open spec fn span_within(v: int, len: int) -> int {
    (if v > 0 { 1int } else { 0 }) + 1 + (if v < len - 1 { 1int } else { 0 })
}

/// How many positions around the inside cell `(x, y)` lie inside the grid:
/// 3 at a corner, 5 along an edge, 8 inside.
pub open spec fn candidate_count(g: Grid, x: int, y: int) -> int {
    span_within(x, g.width as int) * span_within(y, g.height as int) - 1
}

/// Reading a cell right after writing it gives the value written, and the
/// write keeps the grid's shape.
pub proof fn lemma_get_after_set(g: Grid, x: int, y: int, v: bool)
    requires
        g.wf(),
        g.in_bounds(x, y),
    ensures
        g.with_cell(x, y, v).wf(),
        g.with_cell(x, y, v).cells[y][x] == v,
{
}

/// Toggling a cell twice gives back the grid.
pub proof fn lemma_toggle_twice(g: Grid, x: int, y: int)
    requires
        g.wf(),
        g.in_bounds(x, y),
    ensures
        ({
            let once = g.with_cell(x, y, !g.cells[y][x]);
            once.with_cell(x, y, !once.cells[y][x]) == g
        }),
{
    let once = g.with_cell(x, y, !g.cells[y][x]);
    assert(once.with_cell(x, y, !once.cells[y][x]).cells[y] =~= g.cells[y]);
    assert(once.with_cell(x, y, !once.cells[y][x]).cells =~= g.cells);
}

/// On a grid with every cell dead, no cell has a live neighbour.
pub proof fn lemma_blank_no_neighbours(width: nat, height: nat, x: int, y: int)
    requires
        blank(width, height).in_bounds(x, y),
    ensures
        blank(width, height).neighbour_count(x, y) == 0,
{
}

/// A cell never has more live neighbours than there are positions around
/// it inside the grid.
pub proof fn lemma_neighbours_within_candidates(g: Grid, x: int, y: int)
    requires
        g.wf(),
        g.in_bounds(x, y),
    ensures
        g.neighbour_count(x, y) <= candidate_count(g, x, y),
        candidate_count(g, x, y) <= 8,
{
    let w = g.width as int;
    let h = g.height as int;
    let a = span_within(x, w);
    let b = span_within(y, h);
    assert(1 <= a <= 3 && 1 <= b <= 3);
    assert(a * b == if a == 1 {
        b
    } else if a == 2 {
        2 * b
    } else {
        3 * b
    }) by (nonlinear_arith)
        requires
            1 <= a <= 3,
    ;
}

/// The text of a freshly made board is `height` lines of `width`
/// underscores.
pub proof fn lemma_blank_text(width: nat, height: nat)
    ensures
        rows_text(blank(width, height).cells) == blank_text(width, height),
    decreases height,
{
    if height > 0 {
        let cells = blank(width, height).cells;
        lemma_blank_text(width, (height - 1) as nat);
        assert(cells.drop_last() =~= blank(width, (height - 1) as nat).cells);
        assert(row_text(cells.last()) =~= Seq::new(width, |i: int| '_'));
    }
}

/// A board's model always has the shape given by its dimensions.
pub broadcast proof fn lemma_board_view_wf(b: Board)
    ensures
        #[trigger] b@.wf(),
{
}

/// A fixed-size rectangular field of cells.
#[derive(Clone)]
pub struct Board {
    pub width: usize,
    pub height: usize,
    board: Vec<Vec<bool>>,
}

impl View for Board {
    type V = Grid;

    closed spec fn view(&self) -> Grid {
        Grid {
            width: self.width as nat,
            height: self.height as nat,
            cells: Seq::new(
                self.height as nat,
                |y: int| Seq::new(self.width as nat, |x: int| self.board@[y]@[x]),
            ),
        }
    }
}

impl Board {
    /// The storage has `height` rows of `width` cells.
    pub closed spec fn inv(&self) -> bool {
        &&& self.board@.len() == self.height
        &&& forall|y: int| 0 <= y < self.height ==> #[trigger] self.board@[y]@.len() == self.width
    }

    /// A board of the given size with every cell dead. Zero dimensions give
    /// a board without cells; the command parser never asks for one.
    pub fn new(width: usize, height: usize) -> (b: Board)
        ensures
            b.inv(),
            b@ == blank(width as nat, height as nat),
    {
        let mut row: Vec<bool> = Vec::new();
        let mut x: usize = 0;
        while x < width
            invariant
                x <= width,
                row@ == Seq::new(x as nat, |i: int| false),
            decreases width - x,
        {
            row.push(false);
            x = x + 1;
        }
        let mut rows: Vec<Vec<bool>> = Vec::new();
        let mut y: usize = 0;
        while y < height
            invariant
                y <= height,
                row@ == Seq::new(width as nat, |i: int| false),
                rows@.len() == y,
                forall|j: int| 0 <= j < y ==> #[trigger] rows@[j]@ == row@,
            decreases height - y,
        {
            rows.push(row.clone());
            y = y + 1;
        }
        let b = Board { width, height, board: rows };
        assert forall|j: int| 0 <= j < height implies #[trigger] b@.cells[j]
            =~= blank(width as nat, height as nat).cells[j] by {
            assert(rows@[j]@ == row@);
        }
        assert(b@.cells =~= blank(width as nat, height as nat).cells);
        b
    }

    pub fn width(&self) -> (w: usize)
        ensures
            w == self@.width,
    {
        self.width
    }

    pub fn height(&self) -> (h: usize)
        ensures
            h == self@.height,
    {
        self.height
    }

    /// Overwrites cell `(x, y)` with `value`; outside the grid, fails and
    /// leaves the board as it was.
    pub fn set(&mut self, x: usize, y: usize, value: bool) -> (r: Result<(), &'static str>)
        requires
            old(self).inv(),
        ensures
            final(self).inv(),
            old(self)@.in_bounds(x as int, y as int) ==> r is Ok && final(self)@ == old(
                self,
            )@.with_cell(x as int, y as int, value),
            !old(self)@.in_bounds(x as int, y as int) ==> r == Err::<(), &'static str>(
                INVALID_INDEXES,
            ) && final(self)@ == old(self)@,
    {
        if x < self.width && y < self.height {
            self.board[y][x] = value;
            assert forall|j: int| 0 <= j < self.height implies #[trigger] self@.cells[j]
                =~= old(self)@.with_cell(x as int, y as int, value).cells[j] by {
                if j == y {
                    assert(self.board@[j]@ == old(self).board@[j]@.update(x as int, value));
                }
            }
            assert(self@.cells =~= old(self)@.with_cell(x as int, y as int, value).cells);
            Ok(())
        } else {
            Err(INVALID_INDEXES)
        }
    }

    /// The state of cell `(x, y)`; outside the grid, an error.
    pub fn get(&self, x: usize, y: usize) -> (r: Result<bool, &'static str>)
        requires
            self.inv(),
        ensures
            self@.in_bounds(x as int, y as int) ==> r == Ok::<bool, &'static str>(
                self@.cells[y as int][x as int],
            ),
            !self@.in_bounds(x as int, y as int) ==> r == Err::<bool, &'static str>(
                INVALID_INDEXES,
            ),
    {
        if x < self.width && y < self.height {
            Ok(self.board[y][x])
        } else {
            Err(INVALID_INDEXES)
        }
    }

    /// Flips cell `(x, y)`; outside the grid, fails and leaves the board as
    /// it was.
    pub fn toggle(&mut self, x: usize, y: usize) -> (r: Result<(), &'static str>)
        requires
            old(self).inv(),
        ensures
            final(self).inv(),
            old(self)@.in_bounds(x as int, y as int) ==> r is Ok && final(self)@ == old(
                self,
            )@.with_cell(x as int, y as int, !old(self)@.cells[y as int][x as int]),
            !old(self)@.in_bounds(x as int, y as int) ==> r == Err::<(), &'static str>(
                INVALID_INDEXES,
            ) && final(self)@ == old(self)@,
    {
        if x < self.width && y < self.height {
            let current = self.board[y][x];
            self.board[y][x] = !current;
            assert forall|j: int| 0 <= j < self.height implies #[trigger] self@.cells[j]
                =~= old(self)@.with_cell(x as int, y as int, !current).cells[j] by {
                if j == y {
                    assert(self.board@[j]@ == old(self).board@[j]@.update(x as int, !current));
                }
            }
            assert(self@.cells =~= old(self)@.with_cell(x as int, y as int, !current).cells);
            Ok(())
        } else {
            Err(INVALID_INDEXES)
        }
    }

    /// An independent copy with the same dimensions and cells.
    pub fn duplicate(&self) -> (r: Board)
        requires
            self.inv(),
        ensures
            r.inv(),
            r@ == self@,
    {
        let mut rows: Vec<Vec<bool>> = Vec::new();
        let mut y: usize = 0;
        while y < self.height
            invariant
                self.inv(),
                y <= self.height,
                rows@.len() == y,
                forall|j: int| 0 <= j < y ==> #[trigger] rows@[j]@ == self.board@[j]@,
            decreases self.height - y,
        {
            rows.push(self.board[y].clone());
            y = y + 1;
        }
        let r = Board { width: self.width, height: self.height, board: rows };
        assert(r@.cells =~= self@.cells);
        r
    }


    /// The number of live cells around `(x, y)`, which must lie inside the
    /// grid.
    pub fn neighbours(&self, x: usize, y: usize) -> (count: u8)
        requires
            self.inv(),
            self@.in_bounds(x as int, y as int),
        ensures
            count as nat == self@.neighbour_count(x as int, y as int),
            count <= 8,
    {
        let ghost g = self@;
        let mut count: u8 = 0;
        let x_min: usize = if x > 0 { x - 1 } else { 0 };
        let x_max: usize = if x < self.width - 1 { x + 1 } else { self.width - 1 };
        let y_min: usize = if y > 0 { y - 1 } else { 0 };
        let y_max: usize = if y < self.height - 1 { y + 1 } else { self.height - 1 };
        let ghost top = y_min as int;
        let ghost bottom = y_max + 1;

        for i in x_min..x_max + 1
            invariant
                self.inv(),
                g == self@,
                x_min <= x_max <= x_min + 2,
                y_min <= y_max <= y_min + 2,
                y_max < self.height,
                top == y_min && bottom == y_max + 1,
                count as nat == window_count(g, x as int, y as int, x_min as int, i as int, top, bottom),
                count <= 3 * (i - x_min),
        {
            for j in y_min..y_max + 1
                invariant
                    self.inv(),
                    g == self@,
                    x_min <= i <= x_max <= x_min + 2,
                    y_min <= y_max <= y_min + 2,
                    y_max < self.height,
                    top == y_min && bottom == y_max + 1,
                    count as nat == window_count(g, x as int, y as int, x_min as int, i as int, top, bottom)
                        + column_count(g, x as int, y as int, i as int, top, j as int),
                    count <= 3 * (i - x_min) + (j - y_min),
            {
                if !(i == x && j == y) {
                    match self.get(i, j) {
                        Ok(true) => {
                            count = count + 1;
                        },
                        _ => {},
                    }
                }
            }
        }
        proof {
            lemma_clamped_window(g, x as int, y as int, x_min as int, x_max + 1, top, bottom);
        }
        count
    }


    /// The board as text: one line per row, top to bottom, `X` for a live
    /// cell and `_` for a dead one, each line ended by a newline.
    pub fn render(&self) -> (text: String)
        requires
            self.inv(),
        ensures
            text@ == rows_text(self@.cells),
    {
        let ghost cells = self@.cells;
        let mut text = String::new();
        let mut y: usize = 0;
        while y < self.height
            invariant
                self.inv(),
                cells == self@.cells,
                y <= self.height,
                text@ == rows_text(cells.subrange(0, y as int)),
            decreases self.height - y,
        {
            let row = &self.board[y];
            let ghost before = text@;
            let mut x: usize = 0;
            while x < self.width
                invariant
                    self.inv(),
                    cells == self@.cells,
                    y < self.height,
                    *row == self.board@[y as int],
                    x <= self.width,
                    text@ == before + row_text(cells[y as int].subrange(0, x as int)),
                decreases self.width - x,
            {
                proof {
                    reveal_strlit("X");
                    reveal_strlit("_");
                }
                assert(cells[y as int][x as int] == row@[x as int]);
                if row[x] {
                    text.append("X");
                } else {
                    text.append("_");
                }
                assert(row_text(cells[y as int].subrange(0, x + 1)) =~= row_text(
                    cells[y as int].subrange(0, x as int),
                ) + seq![if row[x as int] { 'X' } else { '_' }]);
                x = x + 1;
            }
            text.append("\n");
            proof {
                reveal_strlit("\n");
            }
            assert(cells[y as int].subrange(0, x as int) =~= cells[y as int]);
            assert(cells.subrange(0, y + 1).drop_last() =~= cells.subrange(0, y as int));
            assert(cells.subrange(0, y + 1).last() == cells[y as int]);
            assert(text@ =~= rows_text(cells.subrange(0, y as int)) + row_text(cells[y as int])
                + seq!['\n']);
            y = y + 1;
        }
        assert(cells.subrange(0, y as int) =~= cells);
        text
    }

}

} // verus!
