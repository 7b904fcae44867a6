use vstd::prelude::*;
use crate::game::board::{blank, lemma_board_view_wf, Board, Grid};
use crate::game::command::Command;

verus! {

broadcast use lemma_board_view_wf;

pub const GAME_NOT_CREATED: &'static str = "Game not created yet";

pub const INDEX_OUT_OF_BOUNDS: &'static str = "Index out of bounds";

/// Whether a cell lives in the next generation, given whether it lives now
/// and how many of its neighbours do.
pub open spec fn lives_next(alive: bool, neighbours: nat) -> bool {
    if alive {
        neighbours == 2 || neighbours == 3
    } else {
        neighbours == 3
    }
}

/// The next generation: every cell follows `lives_next`, all of them
/// judged against the grid as it was.
pub open spec fn next_generation(g: Grid) -> Grid {
    Grid {
        cells: Seq::new(
            g.height,
            |y: int| Seq::new(g.width, |x: int| lives_next(g.cells[y][x], g.neighbour_count(x, y))),
        ),
        ..g
    }
}

/// The grid after `n` generations.
pub open spec fn after_steps(g: Grid, n: nat) -> Grid
    decreases n,
{
    if n == 0 {
        g
    } else {
        next_generation(after_steps(g, (n - 1) as nat))
    }
}

/// The live cells of `g` are exactly the 2×2 block whose top-left cell is
/// `(bx, by)`, which lies wholly inside the grid.
pub open spec fn is_lone_block(g: Grid, bx: int, by: int) -> bool {
    &&& g.wf()
    &&& 0 <= bx && bx + 1 < g.width
    &&& 0 <= by && by + 1 < g.height
    &&& forall|x: int, y: int|
        g.in_bounds(x, y) ==> #[trigger] g.cells[y][x] == (bx <= x <= bx + 1 && by <= y <= by + 1)
}

/// The live cells of `g` are exactly a line of three centred on `(cx, cy)`,
/// horizontal or vertical, with the square of cells around the centre
/// inside the grid.
pub open spec fn is_lone_line(g: Grid, cx: int, cy: int, horizontal: bool) -> bool {
    &&& g.wf()
    &&& 1 <= cx && cx + 1 < g.width
    &&& 1 <= cy && cy + 1 < g.height
    &&& forall|x: int, y: int|
        g.in_bounds(x, y) ==> #[trigger] g.cells[y][x] == if horizontal {
            y == cy && cx - 1 <= x <= cx + 1
        } else {
            x == cx && cy - 1 <= y <= cy + 1
        }
}

/// A lone 2×2 block stays as it is, however many generations pass.
pub proof fn lemma_block_is_still(g: Grid, bx: int, by: int, n: nat)
    requires
        is_lone_block(g, bx, by),
    ensures
        after_steps(g, n) == g,
    decreases n,
{
    let next = next_generation(g);
    assert forall|y: int| 0 <= y < g.height implies #[trigger] next.cells[y] =~= g.cells[y] by {
        assert forall|x: int| 0 <= x < g.width implies next.cells[y][x] == g.cells[y][x] by {
            let _ = g.cells[y - 1][x - 1];
            let _ = g.cells[y - 1][x];
            let _ = g.cells[y - 1][x + 1];
            let _ = g.cells[y][x - 1];
            let _ = g.cells[y][x + 1];
            let _ = g.cells[y + 1][x - 1];
            let _ = g.cells[y + 1][x];
            let _ = g.cells[y + 1][x + 1];
        }
    }
    assert(next.cells =~= g.cells);
    if n > 0 {
        lemma_block_is_still(g, bx, by, (n - 1) as nat);
    }
}

/// One generation turns a lone line of three through a quarter turn about
/// its centre.
pub proof fn lemma_line_turns(g: Grid, cx: int, cy: int, horizontal: bool)
    requires
        is_lone_line(g, cx, cy, horizontal),
    ensures
        is_lone_line(next_generation(g), cx, cy, !horizontal),
{
    let next = next_generation(g);
    assert forall|x: int, y: int| next.in_bounds(x, y) implies #[trigger] next.cells[y][x] == if horizontal {
        x == cx && cy - 1 <= y <= cy + 1
    } else {
        y == cy && cx - 1 <= x <= cx + 1
    } by {
        let _ = g.cells[y - 1][x - 1];
        let _ = g.cells[y - 1][x];
        let _ = g.cells[y - 1][x + 1];
        let _ = g.cells[y][x - 1];
        let _ = g.cells[y][x];
        let _ = g.cells[y][x + 1];
        let _ = g.cells[y + 1][x - 1];
        let _ = g.cells[y + 1][x];
        let _ = g.cells[y + 1][x + 1];
    }
}

/// A lone line of three (a blinker) alternates between horizontal and
/// vertical, and is back where it started after two generations.
pub proof fn lemma_blinker_period_two(g: Grid, cx: int, cy: int, horizontal: bool)
    requires
        is_lone_line(g, cx, cy, horizontal),
    ensures
        is_lone_line(after_steps(g, 1), cx, cy, !horizontal),
        after_steps(g, 2) == g,
{
    let one = after_steps(g, 1);
    let two = after_steps(g, 2);
    assert(after_steps(g, 0) == g);
    lemma_line_turns(g, cx, cy, horizontal);
    lemma_line_turns(one, cx, cy, !horizontal);
    assert forall|y: int| 0 <= y < g.height implies #[trigger] two.cells[y] =~= g.cells[y] by {
        assert forall|x: int| 0 <= x < g.width implies two.cells[y][x] == g.cells[y][x] by {
            assert(g.in_bounds(x, y));
        }
    }
    assert(two.cells =~= g.cells);
}

/// What `Toggle { x, y }` leaves, counting from 1, or the error it gives.
pub open spec fn toggle_result(state: Option<Grid>, x: int, y: int) -> Result<
    Option<Grid>,
    Seq<char>,
> {
    match state {
        None => Err(GAME_NOT_CREATED@),
        Some(g) => if x < 1 || x > g.width || y < 1 || y > g.height {
            Err(INDEX_OUT_OF_BOUNDS@)
        } else {
            Ok(Some(g.with_cell(x - 1, y - 1, !g.cells[y - 1][x - 1])))
        },
    }
}

/// What one generation step leaves, or the error it gives.
pub open spec fn step_result(state: Option<Grid>) -> Result<Option<Grid>, Seq<char>> {
    match state {
        None => Err(GAME_NOT_CREATED@),
        Some(g) => Ok(Some(next_generation(g))),
    }
}

/// What a command leaves, or the error it gives.
pub open spec fn command_result(state: Option<Grid>, c: Command) -> Result<
    Option<Grid>,
    Seq<char>,
> {
    match c {
        Command::Quit => Ok(None),
        Command::Play => step_result(state),
        Command::Step => step_result(state),
        Command::New { width, height } => Ok(Some(blank(width as nat, height as nat))),
        Command::Toggle { x, y } => toggle_result(state, x as int, y as int),
    }
}

/// A call that returned `r` and moved the state from `before` to `after`
/// did what `expected` says: on success the new state, on failure that
/// message and no change.
pub open spec fn performs(
    r: Result<(), &'static str>,
    before: Option<Grid>,
    after: Option<Grid>,
    expected: Result<Option<Grid>, Seq<char>>,
) -> bool {
    match expected {
        Ok(state) => r is Ok && after == state,
        Err(message) => r matches Err(e) && e@ == message && after == before,
    }
}

/// The models of a board that may be absent.
pub open spec fn grid_of(b: Option<Board>) -> Option<Grid> {
    match b {
        Some(b) => Some(b@),
        None => None,
    }
}

/// Advances every cell of `board` by one generation, reading the cells
/// from a snapshot taken before the first write.
fn advance(board: &mut Board)
    requires
        old(board).inv(),
    ensures
        final(board).inv(),
        final(board)@ == next_generation(old(board)@),
{
    let snapshot = board.duplicate();
    let ghost g = snapshot@;
    let width = board.width();
    let height = board.height();
    for i in 0..width
        invariant
            board.inv(),
            snapshot.inv(),
            snapshot@ == g,
            g.wf(),
            board@.wf(),
            board@.width == width == g.width,
            board@.height == height == g.height,
            forall|x: int, y: int|
                0 <= x < width && 0 <= y < height ==> #[trigger] board@.cells[y][x] == if x < i {
                    lives_next(g.cells[y][x], g.neighbour_count(x, y))
                } else {
                    g.cells[y][x]
                },
    {
        for j in 0..height
            invariant
                board.inv(),
                snapshot.inv(),
                snapshot@ == g,
                g.wf(),
                board@.wf(),
                i < width,
                board@.width == width == g.width,
                board@.height == height == g.height,
                forall|x: int, y: int|
                    0 <= x < width && 0 <= y < height ==> #[trigger] board@.cells[y][x] == if x < i
                        || (x == i && y < j) {
                        lives_next(g.cells[y][x], g.neighbour_count(x, y))
                    } else {
                        g.cells[y][x]
                    },
        {
            let is_alive = match snapshot.get(i, j) {
                Ok(v) => v,
                Err(_) => false,
            };
            let neighbours = snapshot.neighbours(i, j);
            if is_alive {
                match neighbours {
                    0 | 1 => {
                        // dies, by under-population
                        let _ = board.set(i, j, false);
                    },
                    2 | 3 => {},
                    _ => {
                        // dies, by over-population
                        let _ = board.set(i, j, false);
                    },
                }
            } else {
                match neighbours {
                    3 => {
                        // born, by reproduction
                        let _ = board.set(i, j, true);
                    },
                    _ => {},
                }
            }
        }
    }
    assert forall|y: int| 0 <= y < height implies #[trigger] board@.cells[y]
        =~= next_generation(g).cells[y] by {
        assert forall|x: int| 0 <= x < width implies board@.cells[y][x]
            == next_generation(g).cells[y][x] by {}
    }
    assert(board@.cells =~= next_generation(g).cells);
}

/// The simulator: no game until a board is made, then one board that the
/// commands change.
pub struct Engine {
    board: Option<Board>,
}

impl Engine {
    pub closed spec fn inv(&self) -> bool {
        self.board matches Some(b) ==> b.inv()
    }

    /// The current board, if a game has been started.
    pub closed spec fn current(&self) -> Option<Grid> {
        grid_of(self.board)
    }

    pub fn new() -> (e: Engine)
        ensures
            e.inv(),
            e.current() is None,
    {
        Engine { board: None }
    }

    /// A copy of the current board, if any.
    pub fn board(&self) -> (r: Option<Board>)
        requires
            self.inv(),
        ensures
            r matches Some(b) ==> b.inv(),
            grid_of(r) == self.current(),
    {
        match &self.board {
            Some(b) => Some(b.duplicate()),
            None => None,
        }
    }

    /// Flips the cell at column `x`, row `y`, both counted from 1.
    pub fn toggle(&mut self, x: usize, y: usize) -> (r: Result<(), &'static str>)
        requires
            old(self).inv(),
        ensures
            final(self).inv(),
            performs(
                r,
                old(self).current(),
                final(self).current(),
                toggle_result(old(self).current(), x as int, y as int),
            ),
    {
        match &mut self.board {
            Some(board) => {
                if x == 0 || x > board.width() || y == 0 || y > board.height() {
                    Err(INDEX_OUT_OF_BOUNDS)
                } else {
                    board.toggle(x - 1, y - 1)
                }
            },
            None => Err(GAME_NOT_CREATED),
        }
    }

    /// Advances the game by one generation.
    pub fn play(&mut self) -> (r: Result<(), &'static str>)
        requires
            old(self).inv(),
        ensures
            final(self).inv(),
            performs(
                r,
                old(self).current(),
                final(self).current(),
                step_result(old(self).current()),
            ),
    {
        match &mut self.board {
            Some(board) => {
                advance(board);
                Ok(())
            },
            None => Err(GAME_NOT_CREATED),
        }
    }

    /// Carries out one command: `New` starts a game on a fresh board, `Quit`
    /// ends it, `Toggle` flips a cell, `Play` and `Step` advance one
    /// generation.
    pub fn process_command(&mut self, command: Command) -> (r: Result<(), &'static str>)
        requires
            old(self).inv(),
        ensures
            final(self).inv(),
            performs(
                r,
                old(self).current(),
                final(self).current(),
                command_result(old(self).current(), command),
            ),
    {
        match command {
            Command::Quit => {
                self.board = None;
                Ok(())
            },
            Command::Play => self.play(),
            Command::Step => self.play(),
            Command::New { width, height } => {
                self.board = Some(Board::new(width, height));
                Ok(())
            },
            Command::Toggle { x, y } => self.toggle(x, y),
        }
    }
}

} // verus!
